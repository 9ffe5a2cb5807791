//! Bytes as hexadecimal text.

use crate::text::{char_width, chars_of};
use vstd::prelude::*;
use vstd::string::*;

verus! {

/// The lower-case hexadecimal digit for a number below sixteen.
pub open spec fn hex_digit(d: nat) -> char {
    if d < 10 {
        crate::text::digit(d)
    } else if d == 10 {
        'a'
    } else if d == 11 {
        'b'
    } else if d == 12 {
        'c'
    } else if d == 13 {
        'd'
    } else if d == 14 {
        'e'
    } else {
        'f'
    }
}

/// Bytes in lower-case hexadecimal, two digits each.
pub open spec fn hex_text(bytes: Seq<u8>) -> Seq<char>
    decreases bytes.len(),
{
    if bytes.len() == 0 {
        Seq::empty()
    } else {
        hex_text(bytes.drop_last()).push(hex_digit((bytes.last() / 16) as nat)).push(
            hex_digit((bytes.last() % 16) as nat),
        )
    }
}

/// The value of a hexadecimal digit, in either case.
pub open spec fn hex_value(c: char) -> Option<nat> {
    if '0' <= c && c <= '9' {
        Some((c as nat - '0' as nat) as nat)
    } else if 'a' <= c && c <= 'f' {
        Some((c as nat - 'a' as nat + 10) as nat)
    } else if 'A' <= c && c <= 'F' {
        Some((c as nat - 'A' as nat + 10) as nat)
    } else {
        None
    }
}

/// The byte that two characters give: two hexadecimal digits, or a plus sign and one.
pub open spec fn pair_value(a: char, b: char) -> Option<nat> {
    match (hex_value(a), hex_value(b)) {
        (Some(x), Some(y)) => Some(x * 16 + y),
        (None, Some(y)) if a == '+' => Some(y),
        _ => None,
    }
}

/// The bytes that a text gives, two characters each; `None` where a pair gives no byte.
pub open spec fn hex_bytes(s: Seq<char>) -> Option<Seq<u8>>
    decreases s.len(),
{
    if s.len() == 0 {
        Some(Seq::empty())
    } else if s.len() == 1 {
        None
    } else {
        match (hex_bytes(s.take(s.len() - 2)), pair_value(s[s.len() - 2], s.last())) {
            (Some(bytes), Some(v)) => Some(bytes.push(v as u8)),
            _ => None,
        }
    }
}

fn hex_char(d: u8) -> (c: char)
    requires
        d < 16,
    ensures
        c == hex_digit(d as nat),
{
    if d < 10 {
        crate::text::digit_char(d)
    } else {
        match d {
            10 => 'a',
            11 => 'b',
            12 => 'c',
            13 => 'd',
            14 => 'e',
            _ => 'f',
        }
    }
}

fn value_of_hex(c: char) -> (v: Option<u8>)
    ensures
        match v {
            Some(x) => hex_value(c) == Some(x as nat) && x < 16,
            None => hex_value(c) is None,
        },
{
    if '0' <= c && c <= '9' {
        Some((c as u32 - '0' as u32) as u8)
    } else if 'a' <= c && c <= 'f' {
        Some((c as u32 - 'a' as u32 + 10) as u8)
    } else if 'A' <= c && c <= 'F' {
        Some((c as u32 - 'A' as u32 + 10) as u8)
    } else {
        None
    }
}

fn value_of_pair(a: char, b: char) -> (v: Option<u8>)
    ensures
        match v {
            Some(x) => pair_value(a, b) == Some(x as nat),
            None => pair_value(a, b) is None,
        },
{
    match (value_of_hex(a), value_of_hex(b)) {
        (Some(x), Some(y)) => Some(x * 16 + y),
        (None, Some(y)) => if a == '+' {
            Some(y)
        } else {
            None
        },
        _ => None,
    }
}

/// Bytes in lower-case hexadecimal, two digits each.
pub fn encode(bytes: &[u8]) -> (text: String)
    ensures
        text@ == hex_text(bytes@),
{
    let mut text = String::new();
    let mut i: usize = 0;
    while i < bytes.len()
        invariant
            i <= bytes@.len(),
            text@ == hex_text(bytes@.take(i as int)),
        decreases bytes@.len() - i,
    {
        assert(bytes@.take(i + 1).drop_last() == bytes@.take(i as int));
        text.push(hex_char(bytes[i] / 16));
        text.push(hex_char(bytes[i] % 16));
        i = i + 1;
    }
    assert(bytes@.take(bytes@.len() as int) == bytes@);
    text
}

/// Why a text gives no bytes.
pub open spec fn decode_error(s: Seq<char>) -> Seq<char> {
    if crate::text::utf8_len(s) % 2 != 0 {
        "odd length"@
    } else {
        "invalid digit found in string"@
    }
}

/// A text that gives bytes takes two bytes of UTF-8 for each of them.
pub proof fn hex_bytes_lengths(s: Seq<char>)
    ensures
        hex_bytes(s) matches Some(b) ==> s.len() == 2 * b.len() && crate::text::utf8_len(s)
            == s.len(),
    decreases s.len(),
{
    if s.len() >= 2 {
        let n = s.len() as int;
        hex_bytes_lengths(s.take(n - 2));
        assert(s.drop_last().drop_last() == s.take(n - 2));
        assert(s.drop_last().last() == s[n - 2]);
        reveal_with_fuel(crate::text::utf8_len, 3);
    }
}

/// The bytes that a text gives, two hexadecimal digits each.
pub fn decode(s: &str) -> (bytes: Result<Vec<u8>, String>)
    ensures
        match bytes {
            Ok(b) => hex_bytes(s@) == Some(b@),
            Err(e) => hex_bytes(s@) is None && e@ == decode_error(s@),
        },
{
    let chars = chars_of(s);
    proof {
        hex_bytes_lengths(s@);
    }
    if odd_utf8_len(&chars) {
        return Err("odd length".to_owned());
    }
    let mut bytes: Vec<u8> = Vec::new();
    let mut i: usize = 0;
    while chars.len() - i >= 2
        invariant
            i <= chars@.len(),
            i % 2 == 0,
            chars@ == s@,
            hex_bytes(s@.take(i as int)) == Some(bytes@),
            crate::text::utf8_len(s@) % 2 == 0,
        decreases chars@.len() - i,
    {
        assert(s@.take(i + 2).take(i as int) == s@.take(i as int));
        match value_of_pair(chars[i], chars[i + 1]) {
            Some(v) => {
                bytes.push(v);
            },
            None => {
                proof {
                    hex_none_stays(s@, i + 2);
                }
                return Err("invalid digit found in string".to_owned());
            },
        }
        i = i + 2;
    }
    if i < chars.len() {
        proof {
            hex_bytes_lengths(s@.take(i as int));
        }
        return Err("invalid digit found in string".to_owned());
    }
    assert(s@.take(s@.len() as int) == s@);
    Ok(bytes)
}

fn odd_utf8_len(chars: &Vec<char>) -> (odd: bool)
    ensures
        odd == (crate::text::utf8_len(chars@) % 2 != 0),
{
    let mut odd = false;
    let mut i: usize = 0;
    while i < chars.len()
        invariant
            i <= chars@.len(),
            odd == (crate::text::utf8_len(chars@.take(i as int)) % 2 != 0),
        decreases chars@.len() - i,
    {
        assert(chars@.take(i + 1).drop_last() == chars@.take(i as int));
        if char_width(chars[i]) % 2 != 0 {
            odd = !odd;
        }
        i = i + 1;
    }
    assert(chars@.take(chars@.len() as int) == chars@);
    odd
}

/// A text whose beginning of whole pairs gives no bytes gives none itself, unless it breaks off
/// inside a pair.
proof fn hex_none_stays(s: Seq<char>, i: int)
    requires
        0 <= i <= s.len(),
        i % 2 == 0,
        hex_bytes(s.take(i)) is None,
    ensures
        hex_bytes(s) is None,
    decreases s.len(),
{
    let n = s.len() as int;
    if i == n {
        assert(s.take(i) == s);
    } else if n % 2 == 0 {
        assert(s.take(n - 2).take(i) == s.take(i));
        hex_none_stays(s.take(n - 2), i);
    } else {
        hex_bytes_lengths(s);
    }
}

/// Decoding gives back what was encoded.
pub proof fn decode_encode(bytes: Seq<u8>)
    ensures
        hex_bytes(hex_text(bytes)) == Some(bytes),
        hex_text(bytes).len() == 2 * bytes.len(),
    decreases bytes.len(),
{
    if bytes.len() > 0 {
        decode_encode(bytes.drop_last());
        let t = hex_text(bytes);
        assert(t.take(t.len() - 2) == hex_text(bytes.drop_last()));
        assert(bytes.drop_last().push(bytes.last()) == bytes);
    }
}

} // verus!
