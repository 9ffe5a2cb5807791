//! What holds of hashes as logs show them.

use crate::hash::{
    begins_with, ends_with, full_text, hash_in, hash_in_full_text, hash_key, resolved,
    resolved_key, short_text, stands_for, truncated_text, truncated_text_splits, unresolved,
    without_0x, LogHashView, RegistryView,
};
use crate::hex;
use crate::text::{fitting_chars, fitting_chars_is_longest, utf8_len};
use crate::text_laws::bytes_are_not_fewer;
use vstd::prelude::*;

verus! {

/// A hash whose whole is known.
pub open spec fn known(raw: Seq<char>, full: Seq<u8>) -> LogHashView {
    LogHashView { raw, full: Some(full) }
}

/// Two hashes are told apart by what is known of them: two known ones by their bytes, whatever their
/// texts are; two others by their texts; and a known one is the same as another exactly where the
/// text of the other is its whole text.
pub proof fn keys_tell_hashes_apart(r: Seq<char>, a: Seq<u8>, s: Seq<char>, b: Seq<u8>)
    requires
        a.len() == 32,
        b.len() == 32,
    ensures
        hash_key(known(r, a)) == hash_key(known(s, b)) <==> a == b,
        hash_key(unresolved(r)) == hash_key(unresolved(s)) <==> r == s,
        hash_key(known(r, a)) == hash_key(unresolved(s)) <==> s == full_text(a),
{
    hash_in_full_text(a);
    hash_in_full_text(b);
}

/// Where a registry finds the whole of a hash that is logged with its middle left out, the two are
/// the same; where it does not, the text counts; and it is not asked for a hash that is known.
pub proof fn registry_tells_hashes_apart(
    registry: RegistryView,
    r: Seq<char>,
    a: Seq<u8>,
    s: Seq<char>,
)
    requires
        a.len() == 32,
        resolved(registry, s) matches Some(h) ==> h.len() == 32,
    ensures
        resolved_key(known(r, a), registry) == hash_key(known(r, a)),
        resolved(registry, s) is None ==> resolved_key(unresolved(s), registry) == hash_key(
            unresolved(s),
        ),
        resolved(registry, s) matches Some(h) ==> (resolved_key(unresolved(s), registry)
            == resolved_key(known(r, a), registry) <==> h == a),
{
    hash_in_full_text(a);
    if let Some(h) = resolved(registry, s) {
        hash_in_full_text(h);
    }
}

/// A known hash stands for itself only. One with its middle left out stands for exactly those whose
/// whole text has the same beginning and the same end. One with no ellipsis that is not known stands
/// for none.
pub proof fn hash_stands_for_those_alike(r: Seq<char>, a: Seq<u8>, b: Seq<u8>)
    requires
        a.len() == 32,
        b.len() == 32,
    ensures
        stands_for(known(r, a), b) <==> a == b,
        stands_for(unresolved(truncated_text(a)), b) <==> full_text(a).take(6) == full_text(b).take(
            6,
        ) && full_text(a).skip(62) == full_text(b).skip(62),
        !r.contains('…') ==> !stands_for(unresolved(r), b),
{
    truncated_text_splits(a);
    hex::decode_encode(a);
    hex::decode_encode(b);
    let (p, q) = (full_text(a).take(6), full_text(a).skip(62));
    assert(full_text(a).len() == 66 && full_text(b).len() == 66);
    assert(begins_with(full_text(b), p) <==> full_text(b).take(6) == p);
    assert(ends_with(full_text(b), q) <==> full_text(b).skip(62) == q);
    if !r.contains('…') {
        assert forall|i: int| !(#[trigger] crate::text::splits_at(r, i)) by {
            if crate::text::splits_at(r, i) {
                assert(r[i] == '…');
            }
        }
    }
}

/// A text gives a hash only where it has 64 digits, behind "0x" or not; the hash has 32 bytes.
pub proof fn hash_has_all_digits(s: Seq<char>)
    ensures
        hash_in(s) matches Some(h) ==> h.len() == 32 && (s.len() == 64 || (s.len() == 66 && s[0]
            == '0' && s[1] == 'x')),
{
    if let Some(h) = hash_in(s) {
        hex::hex_bytes_lengths(without_0x(s));
    }
}

/// Of a text in which each character takes one byte, the first fourteen characters are shown, or all
/// where there are fewer.
pub proof fn first_characters_are_shown(s: Seq<char>)
    requires
        utf8_len(s) == s.len(),
    ensures
        short_text(s) == if s.len() <= 14 {
            s
        } else {
            s.take(14)
        },
{
    fitting_chars_is_longest(s, 14);
    let n = fitting_chars(s, 14);
    plain_beginnings(s);
    assert(utf8_len(s.take(n as int)) == n);
    if s.len() <= 14 {
        assert(s.take(s.len() as int) =~= s);
        if n < s.len() {
            assert(utf8_len(s.take(s.len() as int)) > 14);
        }
    } else if n < 14 {
        assert(utf8_len(s.take(14)) == 14);
        assert(utf8_len(s.take(14)) > 14);
    }
}

proof fn plain_beginnings(s: Seq<char>)
    requires
        utf8_len(s) == s.len(),
    ensures
        forall|i: int| 0 <= i <= s.len() ==> utf8_len(#[trigger] s.take(i)) == i,
    decreases s.len(),
{
    if s.len() == 0 {
        assert(s.take(0) =~= s);
    } else {
        let front = s.drop_last();
        bytes_are_not_fewer(front);
        plain_beginnings(front);
        assert forall|i: int| 0 <= i <= s.len() implies utf8_len(#[trigger] s.take(i)) == i by {
            if i < s.len() {
                assert(s.take(i) =~= front.take(i));
            } else {
                assert(s.take(i) =~= s);
            }
        }
    }
}

// ---- Digits ----
/// The digits are those from zero to nine, then the letters from a to f.
pub proof fn digits_are_in_order(d: nat)
    ensures
        d < 10 ==> hex::hex_digit(d) as int == '0' as int + d,
        10 <= d < 16 ==> hex::hex_digit(d) as int == 'a' as int + d - 10,
        d < 10 ==> crate::text::digit(d) as int == '0' as int + d,
{
}

/// A byte is shown by two digits, the higher one first; bytes are shown one behind the other.
pub proof fn bytes_are_shown_in_order(byte: u8, a: Seq<u8>, b: Seq<u8>)
    ensures
        hex::hex_text(seq![byte]) == seq![
            hex::hex_digit((byte / 16) as nat),
            hex::hex_digit((byte % 16) as nat),
        ],
        hex::hex_text(a + b) == hex::hex_text(a) + hex::hex_text(b),
    decreases b.len(),
{
    assert(seq![byte].drop_last() =~= Seq::<u8>::empty());
    assert(hex::hex_text(seq![byte].drop_last()) =~= Seq::<char>::empty());
    assert(hex::hex_text(seq![byte]) =~= seq![
        hex::hex_digit((byte / 16) as nat),
        hex::hex_digit((byte % 16) as nat),
    ]);
    if b.len() == 0 {
        assert(a + b =~= a);
        assert(hex::hex_text(b) =~= Seq::<char>::empty());
        assert(hex::hex_text(a) + hex::hex_text(b) =~= hex::hex_text(a));
    } else {
        bytes_are_shown_in_order(byte, a, b.drop_last());
        assert((a + b).drop_last() =~= a + b.drop_last());
        assert(hex::hex_text(a + b) =~= hex::hex_text(a) + hex::hex_text(b));
    }
}

} // verus!
