//! What holds of what the relay chain tells, said of encoded bytes, decoded values and events.

use crate::chain_client::{
    block_info, blocks_by_number, candidates_in, event_candidate, failed_queries, head_number,
    le_u32, para_number, BlockReplies, ChainEvent, MAX_RETRIES, RETRY_BASE_MS,
};
use crate::scale::{
    bytes_in, bytes_of, candidate_in, cores_in, debug_text, h256_of, holds_para_id, map_entries,
    named_field, pairs_in, u32_of, u32_within_one, u32_within_two, values_in, ScaleValue,
};
use crate::search::{first_where, first_where_is_first};
use crate::selection::{picked, picked_selects, selects};
use crate::text::{decimal, occurs_in};
use crate::text_laws::{occurring_words_are_between, words_occur_between};
use crate::types::{OnChainBlockInfoView, ParaCandidateEventView};
use vstd::prelude::*;
use vstd::string::*;

verus! {

// ---- Head data ----
/// A number in the compact form: the low two bits of the first byte tell how many bytes there are.
pub open spec fn compact_bytes(n: u32) -> Seq<u8> {
    if n < 0x40 {
        seq![(4 * n) as u8]
    } else if n < 0x4000 {
        seq![((4 * n + 1) % 0x100) as u8, ((4 * n + 1) / 0x100) as u8]
    } else if n < 0x4000_0000 {
        seq![
            ((4 * n + 2) % 0x100) as u8,
            ((4 * n + 2) / 0x100 % 0x100) as u8,
            ((4 * n + 2) / 0x1_0000 % 0x100) as u8,
            ((4 * n + 2) / 0x100_0000) as u8,
        ]
    } else {
        seq![
            3u8,
            (n % 0x100) as u8,
            (n / 0x100 % 0x100) as u8,
            (n / 0x1_0000 % 0x100) as u8,
            (n / 0x100_0000) as u8,
        ]
    }
}

/// The block number in a head is the one that stands in the compact form behind the 32 bytes of the
/// parent hash, whatever those bytes are and whatever follows.
pub proof fn head_gives_number(parent: Seq<u8>, n: u32, rest: Seq<u8>)
    requires
        parent.len() == 32,
    ensures
        para_number(parent + compact_bytes(n) + rest) == Some(n),
{
    let head = parent + compact_bytes(n) + rest;
    let s = head.skip(32);
    let b = compact_bytes(n);
    assert(forall|i: int| 0 <= i < b.len() ==> #[trigger] s[i] == b[i]);
    assert(s[0] == b[0]);
    if n < 0x40 {
    } else if n < 0x4000 {
        assert(s[1] == b[1]);
    } else if n < 0x4000_0000 {
        let w = (4 * n + 2) as u32;
        assert(s[1] == b[1] && s[2] == b[2] && s[3] == b[3]);
        bytes_make_number(w);
        assert(le_u32(s[0], s[1], s[2], s[3]) == w);
    } else {
        assert(s[1] == b[1] && s[2] == b[2] && s[3] == b[3] && s[4] == b[4]);
        bytes_make_number(n);
        assert(le_u32(s[1], s[2], s[3], s[4]) == n);
    }
}

proof fn bytes_make_number(w: u32)
    ensures
        w == w % 0x100 + 0x100 * (w / 0x100 % 0x100) + 0x1_0000 * (w / 0x1_0000 % 0x100)
            + 0x100_0000 * (w / 0x100_0000),
        w / 0x100_0000 < 0x100,
{
    assert(w == w % 0x100 + 0x100 * (w / 0x100 % 0x100) + 0x1_0000 * (w / 0x1_0000 % 0x100)
        + 0x100_0000 * (w / 0x100_0000)) by (bit_vector);
    assert(w / 0x100_0000 < 0x100) by (bit_vector);
}

proof fn number_has_bytes(a: u8, b: u8, c: u8, d: u8)
    ensures
        ({
            let w = le_u32(a, b, c, d);
            &&& w < 0x1_0000_0000
            &&& w % 0x100 == a
            &&& w / 0x100 % 0x100 == b
            &&& w / 0x1_0000 % 0x100 == c
            &&& w / 0x100_0000 == d
        }),
{
    let w = le_u32(a, b, c, d);
    let x = b + 0x100 * c + 0x1_0000 * d;
    let y = c + 0x100 * d;
    assert(w == a + 0x100 * x);
    assert(w / 0x100 == x);
    assert(x == b + 0x100 * y);
    assert(w == (a + 0x100 * b) + 0x1_0000 * y);
    assert(w / 0x1_0000 == y);
}

proof fn two_bytes_are_compact(s: Seq<u8>, n: u32)
    requires
        s.len() >= 2,
        s[0] % 4 == 1,
        n == le_u32(s[0], s[1], 0, 0) / 4,
        n > 0x3f,
    ensures
        compact_bytes(n) == seq![s[0], s[1]],
{
    number_has_bytes(s[0], s[1], 0, 0);
    assert(4 * n + 1 == le_u32(s[0], s[1], 0, 0));
}

proof fn four_bytes_are_compact(s: Seq<u8>, n: u32)
    requires
        s.len() >= 4,
        s[0] % 4 == 2,
        n == le_u32(s[0], s[1], s[2], s[3]) / 4,
        n > 0x3fff,
    ensures
        compact_bytes(n) == seq![s[0], s[1], s[2], s[3]],
{
    number_has_bytes(s[0], s[1], s[2], s[3]);
    assert(4 * n + 2 == le_u32(s[0], s[1], s[2], s[3]));
}

proof fn five_bytes_are_compact(s: Seq<u8>, n: u32)
    requires
        s.len() >= 5,
        s[0] == 3,
        n == le_u32(s[1], s[2], s[3], s[4]),
        n > 0x3fff_ffff,
    ensures
        compact_bytes(n) == seq![s[0], s[1], s[2], s[3], s[4]],
{
    number_has_bytes(s[1], s[2], s[3], s[4]);
}

/// A head that gives a number is put together in that way.
pub proof fn number_stands_behind_parent(head: Seq<u8>)
    ensures
        para_number(head) matches Some(n) ==> head.len() >= 32 + compact_bytes(n).len()
            && head.subrange(32, 32int + compact_bytes(n).len()) == compact_bytes(n),
        head.len() <= 32 ==> para_number(head) is None,
{
    if let Some(n) = para_number(head) {
        let s = head.skip(32);
        let b = compact_bytes(n);
        let t = head.subrange(32, 32int + b.len());
        if s[0] % 4 == 0 {
            assert(b == seq![s[0]]);
            assert(t =~= b);
        } else if s[0] % 4 == 1 {
            number_has_bytes(s[0], s[1], 0, 0);
            two_bytes_are_compact(s, n);
            assert(t =~= b);
        } else if s[0] % 4 == 2 {
            number_has_bytes(s[0], s[1], s[2], s[3]);
            four_bytes_are_compact(s, n);
            assert(t =~= b);
        } else {
            number_has_bytes(s[1], s[2], s[3], s[4]);
            five_bytes_are_compact(s, n);
            assert(t =~= b);
        }
    }
}

// ---- Decoded values ----
/// The values in a composite, with or without names.
pub open spec fn parts(val: ScaleValue) -> Seq<ScaleValue> {
    match val {
        ScaleValue::Named(fields) => Seq::new(fields@.len(), |i: int| fields@[i].1),
        ScaleValue::Unnamed(values) => values@,
        _ => Seq::empty(),
    }
}

/// Whether a value is a number whose low 32 bits are `n`.
pub open spec fn is_number(val: ScaleValue, n: u32) -> bool {
    val matches ScaleValue::U128(m) && m % 0x1_0000_0000 == n
}

/// Whether a value is a number `n`, or a composite whose first value is, or the first value of that,
/// down to `depth` levels.
pub open spec fn wraps_number(val: ScaleValue, n: u32, depth: nat) -> bool
    decreases depth,
{
    ||| is_number(val, n)
    ||| depth > 0 && parts(val).len() > 0 && wraps_number(parts(val)[0], n, (depth - 1) as nat)
}

/// Whether bytes are the low bytes of those values that are numbers, in order.
pub open spec fn are_bytes(values: Seq<ScaleValue>, bytes: Seq<u8>) -> bool {
    let ok = |i: int| values[i] is U128;
    exists|at: Seq<int>| #[trigger]
        selects(at, values.len(), ok) && at.len() == bytes.len() && forall|k: int|
            0 <= k < at.len() ==> #[trigger] bytes[k] == values[at[k]]->U128_0 % 0x100
}

/// Whether bytes are those of a composite, or else of the composite that is its first value.
pub open spec fn are_bytes_of(val: ScaleValue, bytes: Seq<u8>) -> bool {
    &&& bytes.len() > 0
    &&& {
        ||| are_bytes(parts(val), bytes)
        ||| {
            &&& are_bytes(parts(val), Seq::empty())
            &&& parts(val).len() > 0
            &&& are_bytes(parts(parts(val)[0]), bytes)
        }
    }
}

/// Whether a value is that of the first field of a name.
pub open spec fn is_field(val: ScaleValue, name: Seq<char>, field: ScaleValue) -> bool {
    val matches ScaleValue::Named(fields) && exists|i: int|
        #![trigger fields@[i]]
        0 <= i < fields@.len() && fields@[i].0@ == name && fields@[i].1 == field && forall|j: int|
            0 <= j < i ==> (#[trigger] fields@[j]).0@ != name
}

proof fn numbers_are_found(val: ScaleValue)
    ensures
        forall|n: u32| u32_of(val) == Some(n) <==> #[trigger] is_number(val, n),
        forall|n: u32| u32_within_one(val) == Some(n) <==> #[trigger] wraps_number(val, n, 1),
        forall|n: u32| u32_within_two(val) == Some(n) <==> #[trigger] wraps_number(val, n, 2),
{
    reveal_with_fuel(wraps_number, 3);
    assert(parts(val) =~= values_in(val));
    assert(u32_of(val) is Some ==> parts(val).len() == 0);
    if parts(val).len() > 0 {
        let x = parts(val)[0];
        assert(parts(x) =~= values_in(x));
        assert(u32_of(x) is Some ==> parts(x).len() == 0);
        assert forall|n: u32| u32_within_one(x)
            == Some(n) <==> #[trigger] wraps_number(x, n, 1) by {
            assert(is_number(x, n) <==> u32_of(x) == Some(n));
            if parts(x).len() > 0 {
                assert(is_number(parts(x)[0], n) <==> u32_of(parts(x)[0]) == Some(n));
            }
        }
        assert forall|n: u32| u32_within_one(val) == Some(n) <==> #[trigger] wraps_number(
            val,
            n,
            1,
        ) by {
            assert(is_number(x, n) <==> u32_of(x) == Some(n));
        }
        assert forall|n: u32| u32_within_two(val) == Some(n) <==> #[trigger] wraps_number(
            val,
            n,
            2,
        ) by {
            assert(wraps_number(x, n, 1) <==> u32_within_one(x) == Some(n));
        }
    }
}

proof fn bytes_are_picked(values: Seq<ScaleValue>)
    ensures
        ({
            let ok = |i: int| values[i] is U128;
            let at = picked(values.len(), ok);
            &&& at.len() == bytes_in(values).len()
            &&& forall|k: int|
                0 <= k < at.len() ==> 0 <= at[k] < values.len() && #[trigger] bytes_in(values)[k]
                    == values[at[k]]->U128_0 % 0x100
        }),
    decreases values.len(),
{
    let ok = |i: int| values[i] is U128;
    picked_selects(values.len(), ok);
    if values.len() > 0 {
        let front = values.drop_last();
        let n = front.len();
        let before = |i: int| front[i] is U128;
        bytes_are_picked(front);
        same_picks(n, ok, before);
        picked_selects(n, before);
        assert(ok(n as int) == (values.last() is U128));
    }
}

proof fn same_picks(n: nat, f: spec_fn(int) -> bool, g: spec_fn(int) -> bool)
    requires
        forall|k: int| 0 <= k < n ==> #[trigger] f(k) == g(k),
    ensures
        picked(n, f) == picked(n, g),
    decreases n,
{
    if n > 0 {
        same_picks((n - 1) as nat, f, g);
        assert(f(n - 1) == g(n - 1));
    }
}

proof fn bytes_mean(values: Seq<ScaleValue>, bytes: Seq<u8>)
    ensures
        bytes_in(values) == bytes <==> are_bytes(values, bytes),
{
    let ok = |i: int| values[i] is U128;
    let at = picked(values.len(), ok);
    bytes_are_picked(values);
    picked_selects(values.len(), ok);
    if bytes_in(values) == bytes {
        assert(selects(at, values.len(), ok));
    }
    if are_bytes(values, bytes) {
        let other = choose|other: Seq<int>| #[trigger]
            selects(other, values.len(), ok) && other.len() == bytes.len() && forall|k: int|
                0 <= k < other.len() ==> #[trigger] bytes[k] == values[other[k]]->U128_0 % 0x100;
        crate::selection::selection_is_unique(at, other, values.len(), ok);
        assert(bytes_in(values) =~= bytes);
    }
}

proof fn bytes_of_mean(val: ScaleValue, bytes: Seq<u8>)
    ensures
        bytes_of(val) == Some(bytes) <==> are_bytes_of(val, bytes),
        h256_of(val) == Some(bytes) <==> bytes.len() == 32 && are_bytes(parts(val), bytes),
{
    assert(parts(val) =~= values_in(val));
    bytes_mean(parts(val), bytes);
    bytes_mean(parts(val), Seq::empty());
    if bytes_in(parts(val)).len() == 0 {
        assert(bytes_in(parts(val)) =~= Seq::<u8>::empty());
    }
    if parts(val).len() > 0 {
        let x = parts(val)[0];
        assert(parts(x) =~= values_in(x));
        bytes_mean(parts(x), bytes);
    }
}

// Whether a field has a name.
spec fn has_name(fields: Seq<(String, ScaleValue)>, name: Seq<char>) -> spec_fn(int) -> bool {
    |i: int| fields[i].0@ == name
}

proof fn position_is_first(f: Seq<(String, ScaleValue)>, name: Seq<char>)
    ensures
        crate::scale::field_position(f, name) == first_where(f.len(), has_name(f, name)),
{
    assert(has_name(f, name) == (|i: int| f[i].0@ == name));
}

proof fn position_means(f: Seq<(String, ScaleValue)>, name: Seq<char>)
    ensures
        match crate::scale::field_position(f, name) {
            Some(i) => 0 <= i < f.len() && f[i].0@ == name && forall|j: int|
                0 <= j < i ==> (#[trigger] f[j]).0@ != name,
            None => forall|j: int| 0 <= j < f.len() ==> (#[trigger] f[j]).0@ != name,
        },
{
    let ok = has_name(f, name);
    position_is_first(f, name);
    first_where_is_first(f.len(), ok);
    match crate::scale::field_position(f, name) {
        Some(i) => {
            assert(ok(i));
            assert forall|j: int| 0 <= j < i implies (#[trigger] f[j]).0@ != name by {
                assert(!ok(j));
            }
        },
        None => {
            assert forall|j: int| 0 <= j < f.len() implies (#[trigger] f[j]).0@ != name by {
                assert(!ok(j));
            }
        },
    }
}

proof fn fields_mean(val: ScaleValue, name: Seq<char>)
    ensures
        forall|v: ScaleValue| named_field(val, name) == Some(v) <==> #[trigger] is_field(
            val,
            name,
            v,
        ),
{
    if let ScaleValue::Named(fields) = val {
        position_means(fields@, name);
        assert forall|v: ScaleValue| named_field(val, name) == Some(v) <==> #[trigger] is_field(
            val,
            name,
            v,
        ) by {
            if is_field(val, name, v) {
                let i = choose|i: int|
                    #![trigger fields@[i]]
                    0 <= i < fields@.len() && fields@[i].0@ == name && fields@[i].1 == v && forall|
                        j: int,
                    | 0 <= j < i ==> (#[trigger] fields@[j]).0@ != name;
                let k = crate::scale::field_position(fields@, name)->0;
                assert(fields@[k].0@ == name);
            }
        }
    }
}

/// The number in a stored head is that of the bytes stored.
pub proof fn stored_head_gives_number(val: ScaleValue, parent: Seq<u8>, n: u32, rest: Seq<u8>)
    requires
        parent.len() == 32,
        are_bytes_of(val, parent + compact_bytes(n) + rest),
    ensures
        head_number(Some(val)) == Some(n),
        head_number(None) is None,
{
    bytes_of_mean(val, parent + compact_bytes(n) + rest);
    head_gives_number(parent, n, rest);
}

// ---- Candidates ----
/// Whether the fields of an event are those of a candidate of a parachain: the first one has a
/// descriptor with that id.
pub open spec fn is_candidate_of(fields: Seq<ScaleValue>, id: u32, descriptor: ScaleValue) -> bool {
    &&& fields.len() > 0
    &&& is_field(fields[0], "descriptor"@, descriptor)
    &&& exists|p: ScaleValue| #[trigger]
        is_field(descriptor, "para_id"@, p) && wraps_number(p, id, 2)
}

/// Whether the field of a name holds the 32 bytes of a hash.
pub open spec fn is_hash_in(val: ScaleValue, name: Seq<char>, hash: Seq<u8>) -> bool {
    exists|v: ScaleValue| #[trigger]
        is_field(val, name, v) && hash.len() == 32 && are_bytes(parts(v), hash)
}

/// Whether what is told of a candidate is what the fields hold, each in its own place.
pub open spec fn tells_candidate(
    fields: Seq<ScaleValue>,
    id: u32,
    descriptor: ScaleValue,
    c: ParaCandidateEventView,
) -> bool {
    &&& c.para_id == id
    &&& forall|hash: Seq<u8>|
        c.relay_parent == Some(hash) <==> #[trigger] is_hash_in(
            descriptor,
            "relay_parent"@,
            hash,
        )
    &&& forall|bytes: Seq<u8>|
        c.para_head_data == Some(bytes) <==> fields.len() > 1 && #[trigger] are_bytes_of(
            fields[1],
            bytes,
        )
    &&& forall|n: u32|
        c.core_index == Some(n) <==> fields.len() > 2 && #[trigger] wraps_number(fields[2], n, 1)
    &&& forall|n: u32|
        c.group_index == Some(n) <==> fields.len() > 3 && #[trigger] wraps_number(fields[3], n, 1)
}

proof fn candidate_is_told(fields: Seq<ScaleValue>, id: u32)
    ensures
        match candidate_in(fields, id) {
            Some(c) => exists|d: ScaleValue| #[trigger]
                is_candidate_of(fields, id, d) && tells_candidate(fields, id, d, c),
            None => forall|d: ScaleValue| !(#[trigger] is_candidate_of(fields, id, d)),
        },
{
    if fields.len() > 0 {
        fields_mean(fields[0], "descriptor"@);
        match named_field(fields[0], "descriptor"@) {
            Some(d) => {
                assert(is_field(fields[0], "descriptor"@, d));
                fields_mean(d, "para_id"@);
                match named_field(d, "para_id"@) {
                    Some(p) => {
                        assert(is_field(d, "para_id"@, p));
                        numbers_are_found(p);
                        assert(wraps_number(p, id, 2) <==> u32_within_two(p) == Some(id));
                    },
                    None => {},
                }
                match candidate_in(fields, id) {
                    Some(c) => {
                        assert(is_candidate_of(fields, id, d));
                        rest_is_told(fields, id, d, c);
                    },
                    None => {
                        assert forall|x: ScaleValue| !(#[trigger] is_candidate_of(
                            fields,
                            id,
                            x,
                        )) by {
                            if is_candidate_of(fields, id, x) {
                                assert(is_field(fields[0], "descriptor"@, x));
                                assert(x == d);
                                let p = choose|p: ScaleValue| #[trigger]
                                    is_field(x, "para_id"@, p) && wraps_number(p, id, 2);
                                assert(is_field(d, "para_id"@, p));
                            }
                        }
                    },
                }
            },
            None => {
                assert forall|x: ScaleValue| !(#[trigger] is_candidate_of(fields, id, x)) by {
                    if is_candidate_of(fields, id, x) {
                        assert(is_field(fields[0], "descriptor"@, x));
                    }
                }
            },
        }
    }
}

proof fn rest_is_told(
    fields: Seq<ScaleValue>,
    id: u32,
    d: ScaleValue,
    c: ParaCandidateEventView,
)
    requires
        fields.len() > 0,
        named_field(fields[0], "descriptor"@) == Some(d),
        candidate_in(fields, id) == Some(c),
    ensures
        tells_candidate(fields, id, d, c),
{
    fields_mean(d, "relay_parent"@);
    assert forall|hash: Seq<u8>|
        c.relay_parent == Some(hash) <==> #[trigger] is_hash_in(d, "relay_parent"@, hash) by {
        if c.relay_parent == Some(hash) {
            let rp = named_field(d, "relay_parent"@)->0;
            assert(is_field(d, "relay_parent"@, rp));
            bytes_of_mean(rp, hash);
        }
        if is_hash_in(d, "relay_parent"@, hash) {
            let v = choose|v: ScaleValue| #[trigger]
                is_field(d, "relay_parent"@, v) && hash.len() == 32 && are_bytes(parts(v), hash);
            bytes_of_mean(v, hash);
        }
    }
    if fields.len() > 1 {
        assert forall|bytes: Seq<u8>|
            c.para_head_data == Some(bytes) <==> #[trigger] are_bytes_of(fields[1], bytes) by {
            bytes_of_mean(fields[1], bytes);
        }
    }
    if fields.len() > 2 {
        numbers_are_found(fields[2]);
    }
    if fields.len() > 3 {
        numbers_are_found(fields[3]);
    }
}

// ---- Blocks ----
/// Whether an event tells of a candidate of a parachain, in a given way.
pub open spec fn is_told_in(e: ChainEvent, variant: Seq<char>, id: u32) -> bool {
    &&& e.pallet@ == "ParaInclusion"@
    &&& e.variant@ == variant
    &&& e.fields matches Some(fields) && exists|d: ScaleValue| #[trigger]
        is_candidate_of(fields@, id, d)
}

/// Whether candidates are those that the events of a variant tell of, in the order of the events.
pub open spec fn are_told(
    events: Seq<ChainEvent>,
    variant: Seq<char>,
    id: u32,
    candidates: Seq<ParaCandidateEventView>,
) -> bool {
    let ok = |i: int| is_told_in(events[i], variant, id);
    exists|at: Seq<int>| #[trigger]
        selects(at, events.len(), ok) && at.len() == candidates.len() && forall|k: int|
            0 <= k < at.len() ==> is_told_by(events[at[k]], id, #[trigger] candidates[k])
}

/// Whether what is told of a candidate is what the fields of an event hold.
pub open spec fn is_told_by(e: ChainEvent, id: u32, c: ParaCandidateEventView) -> bool {
    e.fields matches Some(fields) && exists|d: ScaleValue| #[trigger]
        is_candidate_of(fields@, id, d) && tells_candidate(fields@, id, d, c)
}

proof fn event_is_told(e: ChainEvent, variant: Seq<char>, id: u32)
    ensures
        event_candidate(e, variant, id) is Some <==> is_told_in(e, variant, id),
        event_candidate(e, variant, id) matches Some(c) ==> is_told_by(e, id, c),
{
    if let Some(fields) = e.fields {
        candidate_is_told(fields@, id);
    }
}

spec fn are_told_at(
    events: Seq<ChainEvent>,
    at: Seq<int>,
    id: u32,
    candidates: Seq<ParaCandidateEventView>,
) -> bool {
    &&& at.len() == candidates.len()
    &&& forall|k: int|
        0 <= k < at.len() ==> is_told_by(events[at[k]], id, #[trigger] candidates[k])
}

proof fn candidates_are_picked(
    events: Seq<ChainEvent>,
    n: nat,
    variant: Seq<char>,
    id: u32,
    ok: spec_fn(int) -> bool,
)
    requires
        n <= events.len(),
        forall|i: int|
            0 <= i < events.len() ==> #[trigger] ok(i) == is_told_in(events[i], variant, id),
    ensures
        are_told_at(events, picked(n, ok), id, candidates_in(events, n, variant, id)),
    decreases n,
{
    if n > 0 {
        candidates_are_picked(events, (n - 1) as nat, variant, id, ok);
        event_is_told(events[n - 1], variant, id);
        assert(ok(n - 1) == is_told_in(events[n - 1], variant, id));
        let (at, old_at) = (picked(n, ok), picked((n - 1) as nat, ok));
        let new = candidates_in(events, n, variant, id);
        let before = candidates_in(events, (n - 1) as nat, variant, id);
        assert forall|k: int| 0 <= k < at.len() implies is_told_by(
            events[at[k]],
            id,
            #[trigger] new[k],
        ) by {
            if k < before.len() {
                assert(new[k] == before[k] && at[k] == old_at[k]);
            }
        }
        assert(at.len() == new.len());
    }
}

proof fn candidates_are_told(events: Seq<ChainEvent>, variant: Seq<char>, id: u32)
    ensures
        are_told(events, variant, id, candidates_in(events, events.len(), variant, id)),
{
    let ok = |i: int| is_told_in(events[i], variant, id);
    candidates_are_picked(events, events.len(), variant, id, ok);
    picked_selects(events.len(), ok);
    assert(selects(picked(events.len(), ok), events.len(), ok));
}

/// Whether a pair is the `i`-th value of a composite: a composite of two values.
pub open spec fn is_pair(val: ScaleValue) -> bool {
    parts(val).len() == 2
}

/// The composite whose values are the entries of a map: the value itself, or its first value where
/// it holds no pair.
pub open spec fn map_in(val: ScaleValue) -> Seq<ScaleValue> {
    if (exists|i: int| 0 <= i < parts(val).len() && #[trigger] is_pair(parts(val)[i])) || parts(
        val,
    ).len() == 0 {
        parts(val)
    } else {
        parts(parts(val)[0])
    }
}

/// Whether the `i`-th value is the entry of a core whose queue holds a parachain.
pub open spec fn is_assigned(entries: Seq<ScaleValue>, id: u32, i: int) -> bool {
    &&& is_pair(entries[i])
    &&& exists|core: u32| #[trigger] wraps_number(parts(entries[i])[0], core, 2)
    &&& holds_para_id(parts(entries[i])[1], id)
}

/// Whether cores are those whose queue holds a parachain, in the order of the entries.
pub open spec fn are_assigned(queue: ScaleValue, id: u32, cores: Seq<u32>) -> bool {
    let entries = map_in(queue);
    let ok = |i: int| is_assigned(entries, id, i);
    exists|at: Seq<int>| #[trigger]
        selects(at, entries.len(), ok) && at.len() == cores.len() && forall|k: int|
            0 <= k < at.len() ==> wraps_number(parts(entries[at[k]])[0], #[trigger] cores[k], 2)
}

proof fn pairs_are_found(values: Seq<ScaleValue>)
    ensures
        pairs_in(values).len() > 0 <==> exists|i: int|
            0 <= i < values.len() && #[trigger] is_pair(values[i]),
    decreases values.len(),
{
    if values.len() > 0 {
        let front = values.drop_last();
        pairs_are_found(front);
        assert(parts(values.last()) =~= values_in(values.last()));
        if exists|i: int| 0 <= i < values.len() && #[trigger] is_pair(values[i]) {
            let i = choose|i: int| 0 <= i < values.len() && #[trigger] is_pair(values[i]);
            if i < front.len() {
                assert(is_pair(front[i]));
            }
        }
        if exists|i: int| 0 <= i < front.len() && #[trigger] is_pair(front[i]) {
            let i = choose|i: int| 0 <= i < front.len() && #[trigger] is_pair(front[i]);
            assert(is_pair(values[i]));
        }
        if parts(values.last()).len() == 2 {
            assert(is_pair(values[values.len() - 1]));
        }
    }
}

spec fn are_keys_at(values: Seq<ScaleValue>, at: Seq<int>, cores: Seq<u32>) -> bool {
    &&& at.len() == cores.len()
    &&& forall|k: int|
        0 <= k < at.len() ==> wraps_number(parts(values[at[k]])[0], #[trigger] cores[k], 2)
}

proof fn cores_are_picked(values: Seq<ScaleValue>, id: u32, ok: spec_fn(int) -> bool)
    requires
        forall|i: int| 0 <= i < values.len() ==> #[trigger] ok(i) == is_assigned(values, id, i),
    ensures
        are_keys_at(
            values,
            picked(values.len(), ok),
            cores_in(pairs_in(values), pairs_in(values).len(), id),
        ),
    decreases values.len(),
{
    if values.len() > 0 {
        let front = values.drop_last();
        let m = front.len();
        let last = values.last();
        assert forall|i: int| 0 <= i < front.len() implies #[trigger] ok(i) == is_assigned(
            front,
            id,
            i,
        ) by {
            assert(ok(i) == is_assigned(values, id, i));
            assert(front[i] == values[i]);
        }
        cores_are_picked(front, id, ok);
        assert(parts(last) =~= values_in(last));
        assert(ok(m as int) == is_assigned(values, id, m as int));
        let (x, y) = (pairs_in(front), pairs_in(values));
        let before = cores_in(x, x.len(), id);
        let cores = cores_in(y, y.len(), id);
        let (at, old_at) = (picked(values.len(), ok), picked(m, ok));
        if is_pair(last) {
            assert(y == x.push((parts(last)[0], parts(last)[1])));
            same_cores(x, y, x.len(), id);
            numbers_are_found(parts(last)[0]);
            match u32_within_two(parts(last)[0]) {
                Some(core) => {
                    assert(wraps_number(parts(last)[0], core, 2));
                },
                None => {
                    assert forall|core: u32| !(#[trigger] wraps_number(
                        parts(last)[0],
                        core,
                        2,
                    )) by {}
                },
            }
            assert(cores == if ok(m as int) {
                before.push(u32_within_two(parts(last)[0])->0)
            } else {
                before
            });
        } else {
            assert(!ok(m as int));
            assert(y == x);
        }
        picked_selects(m, ok);
        assert(at.len() == cores.len());
        assert forall|k: int| 0 <= k < at.len() implies wraps_number(
            parts(values[at[k]])[0],
            #[trigger] cores[k],
            2,
        ) by {
            if k < before.len() {
                assert(cores[k] == before[k] && at[k] == old_at[k]);
                assert(0 <= old_at[k] < m);
                assert(front[at[k]] == values[at[k]]);
            }
        }
    }
}

proof fn same_cores(
    a: Seq<(ScaleValue, ScaleValue)>,
    b: Seq<(ScaleValue, ScaleValue)>,
    n: nat,
    id: u32,
)
    requires
        n <= a.len(),
        n <= b.len(),
        forall|i: int| 0 <= i < n ==> a[i] == b[i],
    ensures
        cores_in(a, n, id) == cores_in(b, n, id),
    decreases n,
{
    if n > 0 {
        same_cores(a, b, (n - 1) as nat, id);
    }
}

proof fn queue_is_read(queue: ScaleValue, id: u32)
    ensures
        are_assigned(queue, id, cores_in(map_entries(queue), map_entries(queue).len(), id)),
{
    let entries = map_in(queue);
    let ok = |i: int| is_assigned(entries, id, i);
    assert(parts(queue) =~= values_in(queue));
    pairs_are_found(parts(queue));
    if parts(queue).len() > 0 {
        let x = parts(queue)[0];
        assert(parts(x) =~= values_in(x));
    }
    assert(map_entries(queue) =~= pairs_in(entries));
    cores_are_picked(entries, id, ok);
    picked_selects(entries.len(), ok);
    assert(selects(picked(entries.len(), ok), entries.len(), ok));
}

/// What is known of a block is what its queries gave: the candidates that its events tell were
/// included as included, those that they tell were backed as backed, the cores whose queue holds the
/// parachain, and nothing where a query failed.
pub proof fn block_is_what_was_told(r: BlockReplies, id: u32)
    ensures
        ({
            let info = block_info(r, id);
            &&& info.block_number == r.block_number
            &&& info.block_hash == r.block_hash@
            &&& info.session_index == match r.session_index {
                Some(s) => s,
                None => 0,
            }
            &&& match r.events {
                Some(e) => are_told(e@, "CandidateIncluded"@, id, info.included_para_candidates)
                    && are_told(e@, "CandidateBacked"@, id, info.backed_para_candidates),
                None => info.included_para_candidates.len() == 0
                    && info.backed_para_candidates.len() == 0,
            }
            &&& match r.claim_queue {
                Some(q) => are_assigned(q, id, info.claim_queue_cores),
                None => info.claim_queue_cores.len() == 0,
            }
        }),
{
    if let Some(e) = r.events {
        candidates_are_told(e@, "CandidateIncluded"@, id);
        candidates_are_told(e@, "CandidateBacked"@, id);
    }
    if let Some(q) = r.claim_queue {
        queue_is_read(q, id);
    }
}

/// Every query of the session or of the events that failed is counted, and no other one.
pub proof fn failures_are_counted(r: BlockReplies)
    ensures
        failed_queries(r) == 0 <==> r.session_index is Some && r.events is Some,
        failed_queries(r) == 2 <==> r.session_index is None && r.events is None,
        failed_queries(r) <= 2,
{
}

/// A parachain is found in a value that is its number, that has a field of the name for it, or that
/// is found in one of the values inside, and in no other.
pub proof fn para_id_is_found(val: ScaleValue, id: u32)
    ensures
        holds_para_id(val, id) <==> {
            ||| is_number(val, id)
            ||| val matches ScaleValue::Named(fields) && exists|i: int|
                0 <= i < fields@.len() && (#[trigger] fields@[i]).0@ == "para_id"@ && wraps_number(
                    fields@[i].1,
                    id,
                    2,
                )
            ||| exists|i: int|
                0 <= i < inside(val).len() && holds_para_id(#[trigger] inside(val)[i], id)
        },
{
    numbers_are_found(val);
    assert(is_number(val, id) <==> u32_of(val) == Some(id));
    match val {
        ScaleValue::Named(fields) => {
            assert forall|i: int| 0 <= i < fields@.len() implies (wraps_number(
                (#[trigger] fields@[i]).1,
                id,
                2,
            ) <==> u32_within_two(fields@[i].1) == Some(id)) by {
                numbers_are_found(fields@[i].1);
            }
            assert(forall|i: int| 0 <= i < fields@.len() ==> inside(val)[i] == fields@[i].1);
            if exists|i: int|
                0 <= i < fields@.len() && holds_para_id((#[trigger] fields@[i]).1, id) {
                let i = choose|i: int|
                    0 <= i < fields@.len() && holds_para_id((#[trigger] fields@[i]).1, id);
                assert(holds_para_id(inside(val)[i], id));
            }
            if exists|i: int|
                0 <= i < inside(val).len() && holds_para_id(#[trigger] inside(val)[i], id) {
                let i = choose|i: int|
                    0 <= i < inside(val).len() && holds_para_id(#[trigger] inside(val)[i], id);
                assert(holds_para_id(fields@[i].1, id));
            }
        },
        ScaleValue::Unnamed(values) => {
            assert(inside(val) == values@);
        },
        ScaleValue::Variant { values, .. } => {
            assert(inside(val) == values@);
        },
        _ => {},
    }
}

/// The values inside a value: those of a composite or of a variant.
pub open spec fn inside(val: ScaleValue) -> Seq<ScaleValue> {
    match val {
        ScaleValue::Variant { values, .. } => values@,
        _ => parts(val),
    }
}

/// What is known of a block by its number is what the last of those with that number tells; nothing
/// is known of other numbers.
pub proof fn last_block_of_number_counts(blocks: Seq<OnChainBlockInfoView>, n: nat, number: u32)
    requires
        n <= blocks.len(),
    ensures
        ({
            let m = blocks_by_number(blocks, n);
            if m.contains_key(number) {
                exists|i: int| #[trigger] is_last_of(blocks, n, number, i) && m[number] == blocks[i]
            } else {
                forall|i: int| 0 <= i < n ==> (#[trigger] blocks[i]).block_number != number
            }
        }),
    decreases n,
{
    if n > 0 {
        let before = (n - 1) as nat;
        last_block_of_number_counts(blocks, before, number);
        if blocks[n - 1].block_number == number {
            assert(is_last_of(blocks, n, number, n - 1));
        } else if blocks_by_number(blocks, n).contains_key(number) {
            let i = choose|i: int| #[trigger]
                is_last_of(blocks, before, number, i) && blocks_by_number(blocks, before)[number]
                    == blocks[i];
            assert(is_last_of(blocks, n, number, i));
        }
    }
}

/// Whether block `i` is the last of the first `n` that has a number.
pub open spec fn is_last_of(
    blocks: Seq<OnChainBlockInfoView>,
    n: nat,
    number: u32,
    i: int,
) -> bool {
    &&& 0 <= i < n
    &&& blocks[i].block_number == number
    &&& forall|j: int| i < j < n ==> (#[trigger] blocks[j]).block_number != number
}

/// The waits before a query is given up take three and a half seconds together.
pub proof fn waits_are_bounded()
    ensures
        RETRY_BASE_MS * (vstd::arithmetic::power2::pow2(MAX_RETRIES as nat) - 1) == 3500,
        MAX_RETRIES == 3,
{
    vstd::arithmetic::power2::lemma2_to64();
}

// ---- Debug texts ----
/// The debug text of a number, of a boolean, of a variant and of any other value; and of whatever
/// lies deeper than five levels.
pub proof fn debug_text_of_leaf(n: u128, debug: String, values: Vec<ScaleValue>, depth: nat)
    ensures
        depth < 5 ==> debug_text(ScaleValue::U128(n), depth) == "u128("@ + decimal(n as nat) + ")"@,
        depth < 5 ==> debug_text(ScaleValue::Bool(true), depth) == "bool(true)"@,
        depth < 5 ==> debug_text(ScaleValue::Bool(false), depth) == "bool(false)"@,
        depth < 5 ==> debug_text(ScaleValue::Other { debug }, depth) == debug@,
        depth < 5 ==> debug_text(ScaleValue::Variant { values, debug }, depth) == debug@,
        forall|val: ScaleValue| depth >= 5 ==> #[trigger] debug_text(val, depth) == "..."@,
{
}

/// The debug text of a composite holds those of its first three values, with their names where it
/// has names, and how many more there are.
pub proof fn debug_text_holds_parts(val: ScaleValue, depth: nat, i: int)
    requires
        depth < 5,
        parts(val).len() > 0,
        0 <= i < parts(val).len(),
        i < 3,
    ensures
        val is Unnamed ==> occurs_in(debug_text(parts(val)[i], depth + 1), debug_text(val, depth)),
        val is Unnamed ==> occurs_in(
            "Unnamed["@ + decimal(parts(val).len()) + "]("@,
            debug_text(val, depth),
        ),
        val matches ScaleValue::Named(fields) ==> occurs_in(
            fields@[i].0@ + ": "@ + debug_text(fields@[i].1, depth + 1),
            debug_text(val, depth),
        ),
        parts(val).len() > 3 ==> occurs_in(
            ", ..+"@ + decimal((parts(val).len() - 3) as nat),
            debug_text(val, depth),
        ),
{
    let n = parts(val).len();
    let whole = debug_text(val, depth);
    let more = crate::scale::more_text(n);
    let m = crate::scale::at_most_three(n);
    match val {
        ScaleValue::Named(fields) => {
            assert(n == fields@.len());
            let inner = crate::scale::fields_text(fields@, m, depth);
            let words = fields@[i].0@ + ": "@ + debug_text(fields@[i].1, depth + 1);
            field_is_in_text(fields@, m, depth, i);
            let (a, b) = cut(words, inner);
            assert(whole =~= ("Named("@ + a) + words + (b + ")"@ + more));
            words_occur_between("Named("@ + a, words, b + ")"@ + more);
            if n > 3 {
                let before = "Named("@ + inner + ")"@;
                assert(whole =~= before + more + Seq::<char>::empty());
                words_occur_between(before, more, Seq::empty());
            }
        },
        ScaleValue::Unnamed(values) => {
            let inner = crate::scale::values_text(values@, m, depth);
            let words = debug_text(values@[i], depth + 1);
            let head = "Unnamed["@ + decimal(n) + "]("@;
            value_is_in_text(values@, m, depth, i);
            let (a, b) = cut(words, inner);
            assert(whole =~= (head + a) + words + (b + more + ")"@));
            words_occur_between(head + a, words, b + more + ")"@);
            assert(whole =~= Seq::<char>::empty() + head + (inner + more + ")"@));
            words_occur_between(Seq::empty(), head, inner + more + ")"@);
            if n > 3 {
                assert(whole =~= (head + inner) + more + ")"@);
                words_occur_between(head + inner, more, ")"@);
            }
        },
        _ => {},
    }
}

// The texts before and behind words.
spec fn cut(words: Seq<char>, text: Seq<char>) -> (Seq<char>, Seq<char>) {
    choose|a: Seq<char>, b: Seq<char>| #[trigger] (a + words + b) == text
}

proof fn occurs_in_front(words: Seq<char>, a: Seq<char>, b: Seq<char>)
    requires
        occurs_in(words, a),
    ensures
        occurs_in(words, a + b),
{
    occurring_words_are_between(words, a);
    let (x, y) = cut(words, a);
    assert(a + b =~= x + words + (y + b));
    words_occur_between(x, words, y + b);
}

proof fn field_is_in_text(fields: Seq<(String, ScaleValue)>, n: nat, depth: nat, i: int)
    requires
        depth < 5,
        0 <= i < n <= fields.len(),
    ensures
        ({
            let words = fields[i].0@ + ": "@ + debug_text(fields[i].1, depth + 1);
            let text = crate::scale::fields_text(fields, n, depth);
            &&& occurs_in(words, text)
            &&& cut(words, text).0 + words + cut(words, text).1 == text
        }),
    decreases n,
{
    let words = fields[i].0@ + ": "@ + debug_text(fields[i].1, depth + 1);
    let text = crate::scale::fields_text(fields, n, depth);
    let before = crate::scale::fields_text(fields, (n - 1) as nat, depth);
    let comma = if n > 1 {
        before + ", "@
    } else {
        before
    };
    let last = fields[n - 1].0@ + ": "@ + debug_text(fields[n - 1].1, depth + 1);
    assert(text =~= comma + last + Seq::<char>::empty());
    if i < n - 1 {
        field_is_in_text(fields, (n - 1) as nat, depth, i);
        occurs_in_front(words, before, ", "@);
        occurs_in_front(words, comma, last);
        assert(comma + last =~= text);
    } else {
        words_occur_between(comma, last, Seq::empty());
    }
    occurring_words_are_between(words, text);
}

proof fn value_is_in_text(values: Seq<ScaleValue>, n: nat, depth: nat, i: int)
    requires
        depth < 5,
        0 <= i < n <= values.len(),
    ensures
        ({
            let words = debug_text(values[i], depth + 1);
            let text = crate::scale::values_text(values, n, depth);
            &&& occurs_in(words, text)
            &&& cut(words, text).0 + words + cut(words, text).1 == text
        }),
    decreases n,
{
    let words = debug_text(values[i], depth + 1);
    let text = crate::scale::values_text(values, n, depth);
    let before = crate::scale::values_text(values, (n - 1) as nat, depth);
    let comma = if n > 1 {
        before + ", "@
    } else {
        before
    };
    let last = debug_text(values[n - 1], depth + 1);
    assert(text =~= comma + last + Seq::<char>::empty());
    if i < n - 1 {
        value_is_in_text(values, (n - 1) as nat, depth, i);
        occurs_in_front(words, before, ", "@);
        occurs_in_front(words, comma, last);
        assert(comma + last =~= text);
    } else {
        words_occur_between(comma, last, Seq::empty());
    }
    occurring_words_are_between(words, text);
}

} // verus!
