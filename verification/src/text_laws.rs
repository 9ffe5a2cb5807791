//! What holds of texts: words in them, numbers written and read, lists.

use crate::text::{
    comma_fields, decimal, digits_value, is_white_space, list_items, number_or_zero, occurs_in,
    text_before, trimmed, trimmed_end, trimmed_items, trimmed_start, utf8_len, ELLIPSIS,
};
use vstd::prelude::*;

verus! {

// ---- Words ----
/// Words occur in a text where it is put together from some text, the words and some text.
pub proof fn words_occur_between(before: Seq<char>, words: Seq<char>, behind: Seq<char>)
    ensures
        occurs_in(words, before + words + behind),
{
    let text = before + words + behind;
    let i = before.len() as int;
    assert(text.subrange(i, i + words.len()) =~= words);
}

/// Where words occur in a text, it is put together in that way.
pub proof fn occurring_words_are_between(words: Seq<char>, text: Seq<char>)
    requires
        occurs_in(words, text),
    ensures
        exists|before: Seq<char>, behind: Seq<char>| #[trigger] (before + words + behind) == text,
{
    let i = choose|i: int|
        0 <= i && i + words.len() <= text.len() && #[trigger] text.subrange(i, i + words.len())
            == words;
    let before = text.take(i);
    let behind = text.skip(i + words.len());
    assert(before + words + behind =~= text);
}

// ---- Numbers ----
proof fn decimal_is_digits(n: nat)
    ensures
        digits_value(decimal(n)) == Some(n),
        decimal(n).len() > 0,
        forall|i: int| 0 <= i < decimal(n).len() ==> '0' <= #[trigger] decimal(n)[i] <= '9',
    decreases n,
{
    if n < 10 {
        assert(decimal(n).drop_last() =~= Seq::<char>::empty());
        assert(digits_value(decimal(n).drop_last()) == Some(0nat));
    } else {
        decimal_is_digits(n / 10);
        assert(decimal(n).drop_last() =~= decimal(n / 10));
    }
}

/// A number written in decimal is read again, where it is not above the limit.
pub proof fn number_reads_back(n: nat, max: nat)
    requires
        n <= max,
    ensures
        number_or_zero(decimal(n), max) == n,
{
    decimal_is_digits(n);
    assert('0' <= decimal(n)[0] <= '9');
}

/// A number above the limit, a text with something else than digits in it and an empty text are
/// read as zero.
pub proof fn other_texts_are_zero(s: Seq<char>, n: nat, max: nat)
    ensures
        n > max ==> number_or_zero(decimal(n), max) == 0,
        s.len() == 0 ==> number_or_zero(s, max) == 0,
        (exists|i: int| 0 < i < s.len() && !('0' <= #[trigger] s[i] <= '9')) ==> number_or_zero(
            s,
            max,
        ) == 0,
        s.len() > 0 && s[0] != '+' && !('0' <= s[0] <= '9') ==> number_or_zero(s, max) == 0,
{
    decimal_is_digits(n);
    assert('0' <= decimal(n)[0] <= '9');
    if exists|i: int| 0 < i < s.len() && !('0' <= #[trigger] s[i] <= '9') {
        let i = choose|i: int| 0 < i < s.len() && !('0' <= #[trigger] s[i] <= '9');
        other_chars_are_no_number(s, i);
        assert(s.skip(1)[i - 1] == s[i]);
        other_chars_are_no_number(s.skip(1), i - 1);
    }
    if s.len() > 0 && s[0] != '+' && !('0' <= s[0] <= '9') {
        other_chars_are_no_number(s, 0);
    }
}

proof fn other_chars_are_no_number(s: Seq<char>, i: int)
    requires
        0 <= i < s.len(),
        !('0' <= s[i] <= '9'),
    ensures
        digits_value(s) is None,
    decreases s.len(),
{
    if i < s.len() - 1 {
        assert(s.drop_last()[i] == s[i]);
        other_chars_are_no_number(s.drop_last(), i);
    }
}

// ---- Lengths ----
/// A text takes at least as many bytes as it has characters, and more where one is an ellipsis.
pub proof fn bytes_are_not_fewer(s: Seq<char>)
    ensures
        utf8_len(s) >= s.len(),
        s.contains(ELLIPSIS) ==> utf8_len(s) > s.len(),
    decreases s.len(),
{
    if s.len() > 0 {
        bytes_are_not_fewer(s.drop_last());
        if s.contains(ELLIPSIS) && s.last() != ELLIPSIS {
            let i = choose|i: int| 0 <= i < s.len() && s[i] == ELLIPSIS;
            assert(s.drop_last()[i] == ELLIPSIS);
        }
    }
}

// ---- White space and lists ----
/// Whether every character of a text is white space.
pub open spec fn is_blank(s: Seq<char>) -> bool {
    forall|i: int| 0 <= i < s.len() ==> is_white_space(#[trigger] s[i])
}

proof fn end_is_trimmed(s: Seq<char>)
    ensures
        trimmed_end(s).len() <= s.len(),
        s.take(trimmed_end(s).len() as int) == trimmed_end(s),
        is_blank(s.skip(trimmed_end(s).len() as int)),
        trimmed_end(s).len() > 0 ==> !is_white_space(trimmed_end(s).last()),
    decreases s.len(),
{
    let t = trimmed_end(s);
    if s.len() > 0 && is_white_space(s.last()) {
        end_is_trimmed(s.drop_last());
        assert(s.take(t.len() as int) =~= s.drop_last().take(t.len() as int));
        assert forall|i: int| 0 <= i < s.skip(t.len() as int).len() implies is_white_space(
            #[trigger] s.skip(t.len() as int)[i],
        ) by {
            if i < s.len() - t.len() - 1 {
                assert(s.drop_last().skip(t.len() as int)[i] == s.skip(t.len() as int)[i]);
            }
        }
    } else {
        assert(s.take(s.len() as int) =~= s);
    }
}

proof fn start_is_trimmed(s: Seq<char>)
    ensures
        trimmed_start(s).len() <= s.len(),
        s.skip(s.len() - trimmed_start(s).len()) == trimmed_start(s),
        is_blank(s.take(s.len() - trimmed_start(s).len())),
        trimmed_start(s).len() > 0 ==> !is_white_space(trimmed_start(s)[0]),
    decreases s.len(),
{
    let t = trimmed_start(s);
    let k = s.len() - t.len();
    if s.len() > 0 && is_white_space(s[0]) {
        let rest = s.skip(1);
        start_is_trimmed(rest);
        assert(trimmed_start(rest) == t);
        assert(s.skip(k) =~= rest.skip(k - 1));
        assert forall|i: int| 0 <= i < s.take(k).len() implies is_white_space(
            #[trigger] s.take(k)[i],
        ) by {
            if i > 0 {
                assert(rest.take(k - 1)[i - 1] == s.take(k)[i]);
            }
        }
    } else {
        assert(s.skip(0) =~= s);
    }
}

/// A text is white space, the trimmed text and white space; the trimmed text neither begins nor ends
/// with white space.
pub proof fn trimmed_is_between(s: Seq<char>)
    ensures
        exists|before: Seq<char>, behind: Seq<char>|
            #[trigger] (before + trimmed(s) + behind) == s && is_blank(before) && is_blank(behind),
        trimmed(s).len() > 0 ==> !is_white_space(trimmed(s)[0]) && !is_white_space(
            trimmed(s).last(),
        ),
{
    let u = trimmed_start(s);
    let v = trimmed_end(u);
    start_is_trimmed(s);
    end_is_trimmed(u);
    let before = s.take(s.len() - u.len());
    let behind = u.skip(v.len() as int);
    assert(before + trimmed(s) + behind =~= s);
    if v.len() > 0 {
        assert(v[0] == u[0]);
    }
}

proof fn comma_ends_field(a: Seq<char>, b: Seq<char>)
    ensures
        comma_fields(a + seq![','] + b) == (
            comma_fields(a).0.push(comma_fields(a).1) + comma_fields(b).0,
            comma_fields(b).1,
        ),
    decreases b.len(),
{
    let s = a + seq![','] + b;
    if b.len() == 0 {
        assert(s.drop_last() =~= a);
        assert(comma_fields(s).0 =~= comma_fields(a).0.push(comma_fields(a).1) + comma_fields(b).0);
    } else {
        comma_ends_field(a, b.drop_last());
        assert(s.drop_last() =~= a + seq![','] + b.drop_last());
        assert(s.last() == b.last());
        assert(comma_fields(s).0 =~= comma_fields(a).0.push(comma_fields(a).1) + comma_fields(b).0);
    }
}

proof fn one_field(s: Seq<char>)
    requires
        !s.contains(','),
    ensures
        comma_fields(s) == (Seq::<Seq<char>>::empty(), s),
    decreases s.len(),
{
    if s.len() > 0 {
        assert forall|i: int| 0 <= i < s.drop_last().len() implies s.drop_last()[i] != ',' by {
            assert(s[i] != ',');
        }
        one_field(s.drop_last());
        assert(s.last() != ',') by {
            assert(s[s.len() - 1] != ',');
        }
        assert(s.drop_last().push(s.last()) =~= s);
    } else {
        assert(s =~= Seq::<char>::empty());
    }
}

proof fn items_are_joined(a: Seq<Seq<char>>, b: Seq<Seq<char>>)
    ensures
        trimmed_items(a + b) == trimmed_items(a) + trimmed_items(b),
    decreases b.len(),
{
    if b.len() == 0 {
        assert(a + b =~= a);
        assert(trimmed_items(a) + trimmed_items(b) =~= trimmed_items(a));
    } else {
        items_are_joined(a, b.drop_last());
        assert((a + b).drop_last() =~= a + b.drop_last());
        assert(trimmed_items(a + b) =~= trimmed_items(a) + trimmed_items(b));
    }
}

/// The items of a list with a comma in it are those before the comma, then those behind it.
pub proof fn items_are_on_either_side(before: Seq<char>, behind: Seq<char>)
    ensures
        list_items(before + seq![','] + behind) == list_items(before) + list_items(behind),
{
    let (x, y) = (comma_fields(before), comma_fields(behind));
    comma_ends_field(before, behind);
    assert((x.0.push(x.1) + y.0).push(y.1) =~= x.0.push(x.1) + y.0.push(y.1));
    items_are_joined(x.0.push(x.1), y.0.push(y.1));
}

/// A list without a comma has one item, the text between white space, or none where there is none.
pub proof fn item_is_between_white_space(before: Seq<char>, item: Seq<char>, behind: Seq<char>)
    requires
        is_blank(before),
        is_blank(behind),
        !item.contains(','),
        item.len() > 0 ==> !is_white_space(item[0]) && !is_white_space(item.last()),
    ensures
        list_items(before + item + behind) == if item.len() == 0 {
            Seq::<Seq<char>>::empty()
        } else {
            seq![item]
        },
{
    let s = before + item + behind;
    assert(!s.contains(',')) by {
        if s.contains(',') {
            let i = choose|i: int| 0 <= i < s.len() && s[i] == ',';
            if i < before.len() {
                assert(is_white_space(before[i]));
            } else if i < before.len() + item.len() {
                assert(item[i - before.len()] == ',');
            } else {
                assert(is_white_space(behind[i - before.len() - item.len()]));
            }
        }
    }
    one_field(s);
    trimming_finds(before, item, behind);
    let fields = Seq::<Seq<char>>::empty().push(s);
    assert(fields.drop_last() =~= Seq::<Seq<char>>::empty());
    assert(trimmed_items(fields.drop_last()) =~= Seq::<Seq<char>>::empty());
    if item.len() > 0 {
        assert(trimmed_items(fields) =~= seq![item]);
    }
}

/// Trimming takes the white space away and nothing else.
pub proof fn trimming_finds(before: Seq<char>, item: Seq<char>, behind: Seq<char>)
    requires
        is_blank(before),
        is_blank(behind),
        item.len() > 0 ==> !is_white_space(item[0]) && !is_white_space(item.last()),
    ensures
        trimmed(before + item + behind) == item,
{
    let s = before + item + behind;
    let u = trimmed_start(s);
    let v = trimmed_end(u);
    start_is_trimmed(s);
    end_is_trimmed(u);
    let k = s.len() - u.len();
    if item.len() == 0 {
        if v.len() > 0 {
            let i = k + v.len() - 1;
            assert(v.last() == u[v.len() - 1]);
            assert(u[v.len() - 1] == s[i]);
            if i < before.len() {
                assert(is_white_space(before[i]));
            } else {
                assert(is_white_space(behind[i - before.len()]));
            }
        }
        assert(v =~= item);
    } else {
        let first = before.len() as int;
        let last = first + item.len() - 1;
        assert(s[first] == item[0] && s[last] == item.last());
        if k < first {
            assert(u[0] == s[k]);
            assert(is_white_space(before[k]));
        }
        if k > first {
            assert(s.take(k)[first] == s[first]);
        }
        assert(k == first);
        let end = k + v.len();
        if end <= last {
            assert(u.skip(v.len() as int)[last - end] == s[last]);
        }
        if end > last + 1 {
            assert(v.last() == u[v.len() - 1]);
            assert(u[v.len() - 1] == s[end - 1]);
            assert(is_white_space(behind[end - 1 - first - item.len()]));
        }
        assert(v =~= item);
    }
}

// ---- Order ----
/// A text comes before another where they are the same up to some place, and there it ends or has
/// the lesser character.
pub proof fn order_is_by_first_difference(a: Seq<char>, b: Seq<char>)
    ensures
        text_before(a, b) <==> exists|k: int| #[trigger] first_differ_at(a, b, k),
    decreases a.len(),
{
    if a.len() > 0 && b.len() > 0 && a[0] == b[0] {
        let (x, y) = (a.skip(1), b.skip(1));
        order_is_by_first_difference(x, y);
        if exists|k: int| #[trigger] first_differ_at(x, y, k) {
            let k = choose|k: int| #[trigger] first_differ_at(x, y, k);
            assert forall|i: int| 0 <= i < k + 1 implies a[i] == b[i] by {
                if i > 0 {
                    assert(x[i - 1] == y[i - 1]);
                }
            }
            assert(k < x.len() ==> x[k] == a[k + 1]);
            assert(y[k] == b[k + 1]);
            assert(first_differ_at(a, b, k + 1));
        }
        if exists|k: int| #[trigger] first_differ_at(a, b, k) {
            let k = choose|k: int| #[trigger] first_differ_at(a, b, k);
            assert forall|i: int| 0 <= i < k - 1 implies x[i] == y[i] by {
                assert(a[i + 1] == b[i + 1]);
            }
            assert(first_differ_at(x, y, k - 1));
        }
    } else {
        if text_before(a, b) {
            assert(first_differ_at(a, b, 0));
        }
        if exists|k: int| #[trigger] first_differ_at(a, b, k) {
            let k = choose|k: int| #[trigger] first_differ_at(a, b, k);
            if k > 0 {
                assert(a[0] == b[0]);
            }
        }
    }
}

/// Whether two texts are the same before place `k`, and there the first one ends or has the lesser
/// character.
pub open spec fn first_differ_at(a: Seq<char>, b: Seq<char>, k: int) -> bool {
    &&& 0 <= k <= a.len()
    &&& k < b.len()
    &&& forall|i: int| 0 <= i < k ==> a[i] == b[i]
    &&& k < a.len() ==> a[k] < b[k]
}

} // verus!
