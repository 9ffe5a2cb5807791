//! Characters and strings: searching, splitting, trimming, and reading and writing decimal numbers.

use crate::model::views;
use vstd::prelude::*;
use vstd::string::*;

verus! {

/// The character that stands for the omitted middle of a truncated hash.
pub const ELLIPSIS: char = '…';

/// `String::push`: appends one character.
pub assume_specification[ String::push ](s: &mut String, c: char)
    ensures
        final(s)@ == old(s)@.push(c),
;

/// Whether `needle` is found in `text` at some position.
pub open spec fn occurs_in(needle: Seq<char>, text: Seq<char>) -> bool {
    exists|i: int|
        0 <= i && i + needle.len() <= text.len() && #[trigger] text.subrange(
            i,
            i + needle.len(),
        ) == needle
}

/// The characters of `s`, in order.
pub fn chars_of(s: &str) -> (chars: Vec<char>)
    ensures
        chars@ == s@,
{
    let mut chars: Vec<char> = Vec::new();
    for c in it: s.chars()
        invariant
            chars@ == it.seq().take(it.index()),
            it.seq() == s@,
    {
        chars.push(c);
    }
    assert(s@.take(s@.len() as int) == s@);
    chars
}

/// The text made of `chars[from]` up to, but not including, `chars[to]`.
pub fn text_between(chars: &Vec<char>, from: usize, to: usize) -> (text: String)
    requires
        from <= to <= chars@.len(),
    ensures
        text@ == chars@.subrange(from as int, to as int),
{
    let mut text = String::new();
    let mut i = from;
    while i < to
        invariant
            from <= i <= to <= chars@.len(),
            text@ == chars@.subrange(from as int, i as int),
        decreases to - i,
    {
        text.push(chars[i]);
        i = i + 1;
    }
    text
}

/// Whether the character `c` occurs in `s`.
pub fn has_char(s: &str, c: char) -> (found: bool)
    ensures
        found == s@.contains(c),
{
    let chars = chars_of(s);
    let mut i: usize = 0;
    while i < chars.len()
        invariant
            i <= chars@.len(),
            chars@ == s@,
            forall|j: int| 0 <= j < i ==> chars@[j] != c,
        decreases chars@.len() - i,
    {
        if chars[i] == c {
            return true;
        }
        i = i + 1;
    }
    false
}

/// Whether `needle` stands in `text` at position `at`.
fn stands_at(text: &Vec<char>, needle: &Vec<char>, at: usize) -> (yes: bool)
    requires
        at + needle@.len() <= text@.len(),
    ensures
        yes == (text@.subrange(at as int, at + needle@.len()) == needle@),
{
    let ghost part = text@.subrange(at as int, at + needle@.len());
    let len = text.len();
    let mut j: usize = 0;
    while j < needle.len()
        invariant
            j <= needle@.len(),
            at + needle@.len() <= text@.len(),
            len == text@.len(),
            part == text@.subrange(at as int, at + needle@.len()),
            forall|k: int| 0 <= k < j ==> part[k] == needle@[k],
        decreases needle@.len() - j,
    {
        if text[at + j] != needle[j] {
            assert(part[j as int] != needle@[j as int]);
            return false;
        }
        j = j + 1;
    }
    assert(part == needle@);
    true
}

/// Whether `needle` is found in `text` at some position.
pub fn contains_text(text: &Vec<char>, needle: &str) -> (found: bool)
    ensures
        found == occurs_in(needle@, text@),
{
    let part = chars_of(needle);
    if part.len() > text.len() {
        return false;
    }
    let last = text.len() - part.len();
    let mut i: usize = 0;
    loop
        invariant
            i <= last,
            last + part@.len() == text@.len(),
            part@ == needle@,
            forall|k: int|
                0 <= k < i ==> #[trigger] text@.subrange(k, k + needle@.len()) != needle@,
        decreases last - i,
    {
        if stands_at(text, &part, i) {
            return true;
        }
        if i == last {
            return false;
        }
        i = i + 1;
    }
}

/// Whether two texts hold the same characters.
pub fn same_text(a: &str, b: &str) -> (same: bool)
    ensures
        same == (a@ == b@),
{
    let x = a.to_owned();
    let y = b.to_owned();
    x == y
}

// ---- Lengths in UTF-8 ----
/// How many bytes UTF-8 takes for one character.
pub open spec fn utf8_width(c: char) -> nat {
    let code = c as u32;
    if code < 0x80 {
        1
    } else if code < 0x800 {
        2
    } else if code < 0x10000 {
        3
    } else {
        4
    }
}

/// How many bytes UTF-8 takes for a text.
pub open spec fn utf8_len(s: Seq<char>) -> nat
    decreases s.len(),
{
    if s.len() == 0 {
        0
    } else {
        utf8_len(s.drop_last()) + utf8_width(s.last())
    }
}

/// The number of bytes that a character takes in UTF-8.
pub fn char_width(c: char) -> (width: usize)
    ensures
        width == utf8_width(c),
{
    let code = c as u32;
    if code < 0x80 {
        1
    } else if code < 0x800 {
        2
    } else if code < 0x10000 {
        3
    } else {
        4
    }
}

/// A longer beginning of a text takes no fewer bytes.
pub proof fn utf8_len_grows(s: Seq<char>, i: int, j: int)
    requires
        0 <= i <= j <= s.len(),
    ensures
        utf8_len(s.take(i)) <= utf8_len(s.take(j)),
        i < j ==> utf8_len(s.take(i)) + utf8_width(s[i]) <= utf8_len(s.take(j)),
    decreases j - i,
{
    if i < j {
        assert(s.take(j).drop_last() == s.take(j - 1));
        utf8_len_grows(s, i, j - 1);
        assert(s.take(i + 1).drop_last() == s.take(i));
        if i + 1 < j {
            utf8_len_grows(s, i + 1, j);
        }
    }
}

/// The number of characters in the longest beginning of `s` that takes at most `room` bytes.
pub open spec fn fitting_chars(s: Seq<char>, room: nat) -> nat
    decreases s.len(),
{
    if s.len() == 0 {
        0
    } else if utf8_len(s) <= room {
        s.len()
    } else {
        fitting_chars(s.drop_last(), room)
    }
}

/// `fitting_chars` is what its name says: that beginning fits, and no longer one does.
pub proof fn fitting_chars_is_longest(s: Seq<char>, room: nat)
    ensures
        fitting_chars(s, room) <= s.len(),
        utf8_len(s.take(fitting_chars(s, room) as int)) <= room,
        forall|k: int|
            fitting_chars(s, room) < k <= s.len() ==> utf8_len(#[trigger] s.take(k)) > room,
    decreases s.len(),
{
    if s.len() == 0 {
        assert(s.take(0) == s);
    } else if utf8_len(s) <= room {
        assert(s.take(s.len() as int) == s);
    } else {
        let shorter = s.drop_last();
        fitting_chars_is_longest(shorter, room);
        let n = fitting_chars(shorter, room) as int;
        assert(shorter.take(n) == s.take(n));
        assert forall|k: int| n < k <= s.len() implies utf8_len(#[trigger] s.take(k)) > room by {
            if k == s.len() {
                assert(s.take(k) == s);
            } else {
                assert(shorter.take(k) == s.take(k));
            }
        }
    }
}

/// How many characters at the beginning of `s` fit in `room` bytes.
pub fn count_fitting(s: &str, room: usize) -> (n: usize)
    requires
        room < usize::MAX - 4,
    ensures
        n == fitting_chars(s@, room as nat),
        n <= s@.len(),
{
    let chars = chars_of(s);
    let mut used: usize = 0;
    let mut i: usize = 0;
    proof {
        fitting_chars_is_longest(s@, room as nat);
    }
    while i < chars.len()
        invariant
            i <= chars@.len(),
            chars@ == s@,
            used == utf8_len(s@.take(i as int)),
            used <= room < usize::MAX - 4,
            utf8_len(s@.take(fitting_chars(s@, room as nat) as int)) <= room,
            fitting_chars(s@, room as nat) <= s@.len(),
            forall|k: int|
                fitting_chars(s@, room as nat) < k <= s@.len() ==> utf8_len(#[trigger] s@.take(k))
                    > room,
        decreases chars@.len() - i,
    {
        let next = used + char_width(chars[i]);
        proof {
            assert(s@.take(i + 1).drop_last() == s@.take(i as int));
            assert(next == utf8_len(s@.take(i + 1)));
        }
        if next > room {
            proof {
                let n = fitting_chars(s@, room as nat) as int;
                if n > i {
                    utf8_len_grows(s@, i + 1, n);
                }
                if n < i {
                    assert(utf8_len(s@.take(i as int)) > room);
                }
            }
            return i;
        }
        used = next;
        i = i + 1;
    }
    proof {
        let n = fitting_chars(s@, room as nat) as int;
        if n < i {
            assert(utf8_len(s@.take(i as int)) > room);
        }
    }
    i
}

// ---- A hash in two parts ----
/// Whether the one ellipsis of `raw` stands at position `i`.
pub open spec fn splits_at(raw: Seq<char>, i: int) -> bool {
    &&& 0 <= i < raw.len()
    &&& raw[i] == ELLIPSIS
    &&& forall|j: int| 0 <= j < raw.len() && j != i ==> raw[j] != ELLIPSIS
}

/// The texts before and after the ellipsis of `raw`, where it holds exactly one.
pub open spec fn ellipsis_parts(raw: Seq<char>) -> Option<(Seq<char>, Seq<char>)> {
    if exists|i: int| splits_at(raw, i) {
        let i = choose|i: int| splits_at(raw, i);
        Some((raw.take(i), raw.skip(i + 1)))
    } else {
        None
    }
}

/// The position of the one ellipsis of `raw`.
pub fn find_ellipsis(raw: &Vec<char>) -> (at: Option<usize>)
    ensures
        at matches Some(i) ==> splits_at(raw@, i as int) && ellipsis_parts(raw@) == Some(
            (raw@.take(i as int), raw@.skip(i + 1)),
        ),
        at is None ==> ellipsis_parts(raw@) is None,
{
    let mut at: Option<usize> = None;
    let mut i: usize = 0;
    while i < raw.len()
        invariant
            i <= raw@.len(),
            at matches Some(k) ==> k < i && raw@[k as int] == ELLIPSIS && forall|j: int|
                0 <= j < i && j != k ==> raw@[j] != ELLIPSIS,
            at is None ==> forall|j: int| 0 <= j < i ==> raw@[j] != ELLIPSIS,
        decreases raw@.len() - i,
    {
        if raw[i] == ELLIPSIS {
            if let Some(k) = at {
                assert forall|n: int| !splits_at(raw@, n) by {
                    if splits_at(raw@, n) {
                        assert(raw@[k as int] == ELLIPSIS && raw@[i as int] == ELLIPSIS);
                    }
                }
                return None;
            }
            at = Some(i);
        }
        i = i + 1;
    }
    proof {
        if let Some(k) = at {
            assert(splits_at(raw@, k as int));
            let c = choose|n: int| splits_at(raw@, n);
            assert(c == k);
        }
    }
    at
}

// ---- White space and lists ----
/// The characters of Unicode's `White_Space` property.
pub open spec fn is_white_space(c: char) -> bool {
    let u = c as u32;
    ||| 0x9 <= u <= 0xd
    ||| u == 0x20
    ||| u == 0x85
    ||| u == 0xa0
    ||| u == 0x1680
    ||| 0x2000 <= u <= 0x200a
    ||| u == 0x2028
    ||| u == 0x2029
    ||| u == 0x202f
    ||| u == 0x205f
    ||| u == 0x3000
}

/// Whether a character is white space.
pub fn white_space(c: char) -> (yes: bool)
    ensures
        yes == is_white_space(c),
{
    let u = c as u32;
    (0x9 <= u && u <= 0xd) || u == 0x20 || u == 0x85 || u == 0xa0 || u == 0x1680 || (0x2000 <= u
        && u <= 0x200a) || u == 0x2028 || u == 0x2029 || u == 0x202f || u == 0x205f || u == 0x3000
}

/// `s` without the white space at its end.
pub open spec fn trimmed_end(s: Seq<char>) -> Seq<char>
    decreases s.len(),
{
    if s.len() > 0 && is_white_space(s.last()) {
        trimmed_end(s.drop_last())
    } else {
        s
    }
}

/// `s` without the white space at its beginning.
pub open spec fn trimmed_start(s: Seq<char>) -> Seq<char>
    decreases s.len(),
{
    if s.len() > 0 && is_white_space(s[0]) {
        trimmed_start(s.skip(1))
    } else {
        s
    }
}

/// `s` without the white space at either end.
pub open spec fn trimmed(s: Seq<char>) -> Seq<char> {
    trimmed_end(trimmed_start(s))
}

/// The text of `chars[from..to]` without the white space at either end.
pub fn trim_between(chars: &Vec<char>, from: usize, to: usize) -> (text: String)
    requires
        from <= to <= chars@.len(),
    ensures
        text@ == trimmed(chars@.subrange(from as int, to as int)),
{
    let ghost whole = chars@.subrange(from as int, to as int);
    let mut lo = from;
    while lo < to && white_space(chars[lo])
        invariant
            from <= lo <= to <= chars@.len(),
            trimmed_start(chars@.subrange(lo as int, to as int)) == trimmed_start(whole),
        decreases to - lo,
    {
        assert(chars@.subrange(lo as int, to as int).skip(1) == chars@.subrange(
            lo + 1,
            to as int,
        ));
        lo = lo + 1;
    }
    let ghost front = chars@.subrange(lo as int, to as int);
    assert(trimmed_start(front) == front);
    let mut hi = to;
    while lo < hi && white_space(chars[hi - 1])
        invariant
            from <= lo <= hi <= to <= chars@.len(),
            trimmed_end(chars@.subrange(lo as int, hi as int)) == trimmed_end(front),
        decreases hi - lo,
    {
        assert(chars@.subrange(lo as int, hi as int).drop_last() == chars@.subrange(
            lo as int,
            hi - 1,
        ));
        hi = hi - 1;
    }
    assert(trimmed_end(chars@.subrange(lo as int, hi as int)) == chars@.subrange(
        lo as int,
        hi as int,
    ));
    text_between(chars, lo, hi)
}

/// The comma-separated fields of `s`: those ended by a comma, and the text behind the last comma.
pub open spec fn comma_fields(s: Seq<char>) -> (Seq<Seq<char>>, Seq<char>)
    decreases s.len(),
{
    if s.len() == 0 {
        (Seq::empty(), Seq::empty())
    } else {
        let (ended, open) = comma_fields(s.drop_last());
        if s.last() == ',' {
            (ended.push(open), Seq::empty())
        } else {
            (ended, open.push(s.last()))
        }
    }
}

/// The items of the first `n` fields, each trimmed, without the empty ones.
pub open spec fn trimmed_items(fields: Seq<Seq<char>>) -> Seq<Seq<char>>
    decreases fields.len(),
{
    if fields.len() == 0 {
        Seq::empty()
    } else {
        let items = trimmed_items(fields.drop_last());
        let item = trimmed(fields.last());
        if item.len() == 0 {
            items
        } else {
            items.push(item)
        }
    }
}

/// The items of a comma-separated list: every field, trimmed, without the empty ones.
pub open spec fn list_items(s: Seq<char>) -> Seq<Seq<char>> {
    let (ended, open) = comma_fields(s);
    trimmed_items(ended.push(open))
}

/// The items of a comma-separated list.
pub fn split_list(s: &str) -> (items: Vec<String>)
    ensures
        views(items@) == list_items(s@),
{
    let chars = chars_of(s);
    let mut items: Vec<String> = Vec::new();
    let mut start: usize = 0;
    let mut i: usize = 0;
    while i < chars.len()
        invariant
            start <= i <= chars@.len(),
            chars@ == s@,
            comma_fields(s@.take(i as int)).1 == chars@.subrange(start as int, i as int),
            trimmed_items(comma_fields(s@.take(i as int)).0) == views(items@),
        decreases chars@.len() - i,
    {
        let ghost before = comma_fields(s@.take(i as int));
        assert(s@.take(i + 1).drop_last() == s@.take(i as int));
        if chars[i] == ',' {
            let item = trim_between(&chars, start, i);
            proof {
                assert(before.0.push(before.1).drop_last() == before.0);
                assert(views(items@.push(item)) == views(items@).push(item@));
            }
            if item.as_str().unicode_len() > 0 {
                items.push(item);
            }
            start = i + 1;
            assert(chars@.subrange(start as int, i + 1) == Seq::<char>::empty());
        } else {
            assert(chars@.subrange(start as int, i + 1) == chars@.subrange(
                start as int,
                i as int,
            ).push(chars@[i as int]));
        }
        i = i + 1;
    }
    assert(s@.take(s@.len() as int) == s@);
    let ghost (ended, open) = comma_fields(s@);
    let item = trim_between(&chars, start, i);
    proof {
        assert(ended.push(open).drop_last() == ended);
        assert(views(items@.push(item)) == views(items@).push(item@));
    }
    if item.as_str().unicode_len() > 0 {
        items.push(item);
    }
    items
}

// ---- The order of texts ----
/// Whether `a` comes before `b`: it is a shorter beginning of it, or has the lesser character where
/// they first differ.
pub open spec fn text_before(a: Seq<char>, b: Seq<char>) -> bool
    decreases a.len(),
{
    if b.len() == 0 {
        false
    } else if a.len() == 0 {
        true
    } else if a[0] != b[0] {
        a[0] < b[0]
    } else {
        text_before(a.skip(1), b.skip(1))
    }
}

/// Of two texts one comes before the other, or they are the same; never two of these hold.
pub proof fn text_order_is_total(a: Seq<char>, b: Seq<char>)
    ensures
        a == b ==> !text_before(a, b),
        a != b ==> text_before(a, b) != text_before(b, a),
    decreases a.len(),
{
    if a.len() > 0 && b.len() > 0 {
        text_order_is_total(a.skip(1), b.skip(1));
        if a[0] == b[0] && a.skip(1) == b.skip(1) {
            assert(a == seq![a[0]] + a.skip(1));
            assert(b == seq![b[0]] + b.skip(1));
        }
    } else if a.len() == 0 && b.len() == 0 {
        assert(a == b);
    }
}

/// A text that comes before one that comes before a third comes before the third.
pub proof fn text_order_is_transitive(a: Seq<char>, b: Seq<char>, c: Seq<char>)
    requires
        text_before(a, b),
        text_before(b, c),
    ensures
        text_before(a, c),
    decreases a.len(),
{
    if a.len() > 0 && a[0] == b[0] && b[0] == c[0] {
        text_order_is_transitive(a.skip(1), b.skip(1), c.skip(1));
    }
}

/// Whether `a` comes before `b`.
pub fn comes_before(a: &str, b: &str) -> (before: bool)
    ensures
        before == text_before(a@, b@),
{
    let x = chars_of(a);
    let y = chars_of(b);
    let mut i: usize = 0;
    assert(a@.skip(0) == a@ && b@.skip(0) == b@);
    while i < x.len() && i < y.len()
        invariant
            i <= x@.len(),
            i <= y@.len(),
            x@ == a@,
            y@ == b@,
            text_before(a@.skip(i as int), b@.skip(i as int)) == text_before(a@, b@),
        decreases x@.len() - i,
    {
        assert(a@.skip(i as int).skip(1) == a@.skip(i + 1));
        assert(b@.skip(i as int).skip(1) == b@.skip(i + 1));
        if x[i] != y[i] {
            return x[i] < y[i];
        }
        i = i + 1;
    }
    i < y.len()
}

/// Texts in ascending order with the text `s` in its place, once.
pub open spec fn with_name(names: Seq<Seq<char>>, s: Seq<char>) -> Seq<Seq<char>>
    decreases names.len(),
{
    if names.len() == 0 {
        seq![s]
    } else if names.last() == s {
        names
    } else if text_before(names.last(), s) {
        names.push(s)
    } else {
        with_name(names.drop_last(), s).push(names.last())
    }
}

/// Whether texts ascend; then none occurs twice.
pub open spec fn texts_ascend(names: Seq<Seq<char>>) -> bool {
    forall|i: int, j: int|
        0 <= i < j < names.len() ==> text_before(#[trigger] names[i], #[trigger] names[j])
}

/// `with_name` adds the text and nothing else, and the texts still ascend.
pub proof fn with_name_adds(names: Seq<Seq<char>>, s: Seq<char>)
    requires
        texts_ascend(names),
    ensures
        texts_ascend(with_name(names, s)),
        forall|t: Seq<char>| #[trigger]
            with_name(names, s).contains(t) <==> t == s || names.contains(t),
    decreases names.len(),
{
    let w = with_name(names, s);
    if names.len() == 0 {
        assert(w[0] == s);
    } else if names.last() == s {
        assert(names[names.len() - 1] == s);
    } else if text_before(names.last(), s) {
        assert forall|t: Seq<char>| #[trigger] w.contains(t) <==> t == s || names.contains(t) by {
            if names.contains(t) {
                let k = choose|k: int| 0 <= k < names.len() && names[k] == t;
                assert(w[k] == t);
            }
            if t == s {
                assert(w[names.len() as int] == t);
            }
        }
        assert forall|i: int, j: int| 0 <= i < j < w.len() implies text_before(
            #[trigger] w[i],
            #[trigger] w[j],
        ) by {
            assert(w[i] == names[i]);
            if j == names.len() && i < names.len() - 1 {
                assert(text_before(names[i], names[names.len() - 1]));
                text_order_is_transitive(names[i], names.last(), s);
            }
        }
    } else {
        let short = names.drop_last();
        let last = names.last();
        text_order_is_total(last, s);
        assert(texts_ascend(short)) by {
            assert forall|i: int, j: int| 0 <= i < j < short.len() implies text_before(
                #[trigger] short[i],
                #[trigger] short[j],
            ) by {
                assert(text_before(names[i], names[j]));
            }
        }
        with_name_adds(short, s);
        let q = with_name(short, s);
        assert forall|t: Seq<char>| #[trigger] w.contains(t) <==> t == s || names.contains(t) by {
            if w.contains(t) {
                let k = choose|k: int| 0 <= k < w.len() && w[k] == t;
                if k < q.len() {
                    assert(q[k] == t);
                    assert(q.contains(t));
                    if short.contains(t) {
                        let m = choose|m: int| 0 <= m < short.len() && short[m] == t;
                        assert(names[m] == t);
                    }
                } else {
                    assert(names[names.len() - 1] == t);
                }
            }
            if t == s || names.contains(t) {
                if t != s {
                    let m = choose|m: int| 0 <= m < names.len() && names[m] == t;
                    if m < short.len() {
                        assert(short[m] == t);
                        assert(short.contains(t));
                    } else {
                        assert(w[w.len() - 1] == t);
                    }
                }
                if q.contains(t) {
                    let k = choose|k: int| 0 <= k < q.len() && q[k] == t;
                    assert(w[k] == t);
                }
            }
        }
        assert forall|i: int, j: int| 0 <= i < j < w.len() implies text_before(
            #[trigger] w[i],
            #[trigger] w[j],
        ) by {
            assert(w[i] == q[i]);
            if j < q.len() {
                assert(w[j] == q[j]);
            } else {
                assert(w[j] == last);
                assert(q.contains(q[i]));
                if q[i] != s {
                    assert(short.contains(q[i]));
                    let m = choose|m: int| 0 <= m < short.len() && short[m] == q[i];
                    assert(text_before(names[m], names[names.len() - 1]));
                }
            }
        }
    }
}

proof fn with_name_is_insert(names: Seq<Seq<char>>, s: Seq<char>, p: int)
    requires
        0 <= p <= names.len(),
        p > 0 ==> names[p - 1] == s || text_before(names[p - 1], s),
        forall|a: int|
            p <= a < names.len() ==> #[trigger] names[a] != s && !text_before(names[a], s),
    ensures
        with_name(names, s) == if p > 0 && names[p - 1] == s {
            names
        } else {
            names.insert(p, s)
        },
    decreases names.len(),
{
    if p < names.len() {
        let short = names.drop_last();
        assert(names[names.len() - 1] != s);
        assert forall|a: int| p <= a < short.len() implies #[trigger] short[a] != s
            && !text_before(short[a], s) by {
            assert(short[a] == names[a]);
        }
        with_name_is_insert(short, s, p);
        if p > 0 && names[p - 1] == s {
            assert(short.push(names.last()) == names);
        } else {
            assert(short.insert(p, s).push(names.last()) == names.insert(p, s));
        }
    } else if names.len() > 0 {
        assert(names.last() == names[p - 1]);
        assert(names.push(s) == names.insert(p, s));
    } else {
        assert(seq![s] == names.insert(p, s));
    }
}

/// Puts a text in its place among ascending texts, once.
pub fn add_name(names: &mut Vec<String>, s: &String)
    ensures
        views(final(names)@) == with_name(views(old(names)@), s@),
{
    let mut p: usize = names.len();
    while p > 0 && names[p - 1] != *s && !comes_before(names[p - 1].as_str(), s.as_str())
        invariant
            p <= names@.len(),
            names@ == old(names)@,
            forall|a: int|
                p <= a < names@.len() ==> #[trigger] views(names@)[a] != s@ && !text_before(
                    views(names@)[a],
                    s@,
                ),
        decreases p,
    {
        p = p - 1;
    }
    proof {
        with_name_is_insert(views(names@), s@, p as int);
    }
    if p > 0 && names[p - 1] == *s {
        return;
    }
    let ghost before = names@;
    let item = s.clone();
    names.insert(p, item);
    assert(views(names@) =~= views(before).insert(p as int, s@));
}

// ---- Decimal numbers ----
/// The decimal digit for a number below ten.
pub open spec fn digit(d: nat) -> char {
    if d == 0 {
        '0'
    } else if d == 1 {
        '1'
    } else if d == 2 {
        '2'
    } else if d == 3 {
        '3'
    } else if d == 4 {
        '4'
    } else if d == 5 {
        '5'
    } else if d == 6 {
        '6'
    } else if d == 7 {
        '7'
    } else if d == 8 {
        '8'
    } else {
        '9'
    }
}

/// A number in decimal, without leading zeros.
pub open spec fn decimal(n: nat) -> Seq<char>
    decreases n,
{
    if n < 10 {
        seq![digit(n)]
    } else {
        decimal(n / 10).push(digit(n % 10))
    }
}

/// A number in decimal, with a minus sign where it is negative.
pub open spec fn signed_decimal(n: int) -> Seq<char> {
    if n < 0 {
        seq!['-'] + decimal((-n) as nat)
    } else {
        decimal(n as nat)
    }
}

/// The character for a decimal digit.
pub fn digit_char(d: u8) -> (c: char)
    requires
        d < 10,
    ensures
        c == digit(d as nat),
{
    match d {
        0 => '0',
        1 => '1',
        2 => '2',
        3 => '3',
        4 => '4',
        5 => '5',
        6 => '6',
        7 => '7',
        8 => '8',
        _ => '9',
    }
}

/// Appends a number in decimal.
pub fn push_decimal(out: &mut String, n: u128)
    ensures
        final(out)@ == old(out)@ + decimal(n as nat),
    decreases n,
{
    if n >= 10 {
        push_decimal(out, n / 10);
    }
    out.push(digit_char((n % 10) as u8));
    assert(out@ == old(out)@ + decimal(n as nat));
}

/// The text of a number in decimal.
pub fn decimal_text(n: u128) -> (text: String)
    ensures
        text@ == decimal(n as nat),
{
    let mut text = String::new();
    push_decimal(&mut text, n);
    text
}

/// The text of a signed number in decimal.
pub fn signed_text(n: i128) -> (text: String)
    requires
        n > i128::MIN,
    ensures
        text@ == signed_decimal(n as int),
{
    let mut text = String::new();
    if n < 0 {
        text.push('-');
        push_decimal(&mut text, (0 - n) as u128);
        assert(text@ == seq!['-'] + decimal((-n) as nat));
    } else {
        push_decimal(&mut text, n as u128);
    }
    text
}

/// The value of a text of decimal digits; `None` where another character occurs.
pub open spec fn digits_value(s: Seq<char>) -> Option<nat>
    decreases s.len(),
{
    if s.len() == 0 {
        Some(0)
    } else {
        match digits_value(s.drop_last()) {
            Some(v) if '0' <= s.last() && s.last() <= '9' => Some(
                v * 10 + (s.last() as nat - '0' as nat) as nat,
            ),
            _ => None,
        }
    }
}

/// The number that a text gives: decimal digits, at least one, behind an optional plus sign.
pub open spec fn number_in(s: Seq<char>, max: nat) -> Option<nat> {
    let body = if s.len() > 0 && s[0] == '+' {
        s.skip(1)
    } else {
        s
    };
    match digits_value(body) {
        Some(v) if body.len() > 0 && v <= max => Some(v),
        _ => None,
    }
}

/// The number that a text gives, or zero where it gives none of at most `max`.
pub open spec fn number_or_zero(s: Seq<char>, max: nat) -> nat {
    match number_in(s, max) {
        Some(v) => v,
        None => 0,
    }
}

/// What follows behind the digits `s[..i]` leaves no number of at most `max`, where they give none.
proof fn no_number_stays(s: Seq<char>, i: int, max: nat)
    requires
        0 <= i <= s.len(),
        match digits_value(s.take(i)) {
            Some(v) => v > max,
            None => true,
        },
    ensures
        match digits_value(s) {
            Some(v) => v > max,
            None => true,
        },
    decreases s.len() - i,
{
    if i < s.len() {
        assert(s.take(i + 1).drop_last() == s.take(i));
        no_number_stays(s, i + 1, max);
    } else {
        assert(s.take(i) == s);
    }
}

/// The number that a text gives, or zero where it gives none of at most `max`.
pub fn read_number(s: &str, max: u64) -> (n: u64)
    ensures
        n == number_or_zero(s@, max as nat),
        n <= max,
{
    let chars = chars_of(s);
    let start: usize = if chars.len() > 0 && chars[0] == '+' {
        1
    } else {
        0
    };
    let ghost body = s@.skip(start as int);
    assert(start == 0 ==> body == s@);
    if start == chars.len() {
        return 0;
    }
    let mut value: u64 = 0;
    let mut i = start;
    while i < chars.len()
        invariant
            start <= i <= chars@.len(),
            start <= 1,
            chars@ == s@,
            body == s@.skip(start as int),
            digits_value(body.take(i - start)) == Some(value as nat),
            value <= max,
            number_or_zero(s@, max as nat) == match digits_value(body) {
                Some(v) if v <= max => v,
                _ => 0,
            },
        decreases chars@.len() - i,
    {
        let c = chars[i];
        assert(body.take(i + 1 - start).drop_last() == body.take(i - start));
        assert(body[i - start] == c);
        if c < '0' || '9' < c {
            proof {
                no_number_stays(body, i + 1 - start, max as nat);
            }
            return 0;
        }
        let next: u128 = value as u128 * 10 + (c as u32 - '0' as u32) as u128;
        if next > max as u128 {
            proof {
                no_number_stays(body, i + 1 - start, max as nat);
            }
            return 0;
        }
        value = next as u64;
        i = i + 1;
    }
    assert(body.take(body.len() as int) == body);
    value
}

} // verus!
