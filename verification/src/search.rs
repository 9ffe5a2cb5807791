//! Searching, counting and ordering over index ranges: the vocabulary in which the analyses are
//! stated, and the executable orderings that go with it.

use vstd::prelude::*;

verus! {

/// The first index below `n` with the least key among those that satisfy `ok`.
pub open spec fn first_min(n: nat, ok: spec_fn(int) -> bool, key: spec_fn(int) -> int) -> Option<int>
    decreases n,
{
    if n == 0 {
        None
    } else {
        let i = n - 1;
        match first_min(i as nat, ok, key) {
            None => if ok(i) {
                Some(i)
            } else {
                None
            },
            Some(b) => if ok(i) && key(i) < key(b) {
                Some(i)
            } else {
                Some(b)
            },
        }
    }
}

/// `first_min` finds an index exactly where there is one; its key is the least, and any other index
/// with that key comes later.
pub proof fn first_min_is_least(n: nat, ok: spec_fn(int) -> bool, key: spec_fn(int) -> int)
    ensures
        match first_min(n, ok, key) {
            None => forall|i: int| 0 <= i < n ==> !(#[trigger] ok(i)),
            Some(b) => {
                &&& 0 <= b < n
                &&& ok(b)
                &&& forall|i: int| 0 <= i < n && #[trigger] ok(i) ==> key(b) <= key(i)
                &&& forall|i: int| 0 <= i < b && #[trigger] ok(i) ==> key(b) < key(i)
            },
        },
    decreases n,
{
    if n > 0 {
        first_min_is_least((n - 1) as nat, ok, key);
    }
}

/// The first index below `n` that satisfies `ok`.
pub open spec fn first_where(n: nat, ok: spec_fn(int) -> bool) -> Option<int>
    decreases n,
{
    if n == 0 {
        None
    } else {
        match first_where((n - 1) as nat, ok) {
            Some(b) => Some(b),
            None => if ok(n - 1) {
                Some(n - 1)
            } else {
                None
            },
        }
    }
}

/// `first_where` finds an index exactly where there is one, and no earlier index satisfies `ok`.
pub proof fn first_where_is_first(n: nat, ok: spec_fn(int) -> bool)
    ensures
        match first_where(n, ok) {
            None => forall|i: int| 0 <= i < n ==> !(#[trigger] ok(i)),
            Some(b) => 0 <= b < n && ok(b) && forall|i: int| 0 <= i < b ==> !(#[trigger] ok(i)),
        },
    decreases n,
{
    if n > 0 {
        first_where_is_first((n - 1) as nat, ok);
    }
}

/// The first index found stays the first where the range grows.
pub proof fn first_where_stays(n: nat, m: nat, ok: spec_fn(int) -> bool)
    requires
        m <= n,
        first_where(m, ok) is Some,
    ensures
        first_where(n, ok) == first_where(m, ok),
    decreases n,
{
    if m < n {
        first_where_stays((n - 1) as nat, m, ok);
    }
}

/// The last index below `n` that satisfies `ok`.
pub open spec fn last_where(n: nat, ok: spec_fn(int) -> bool) -> Option<int>
    decreases n,
{
    if n == 0 {
        None
    } else if ok(n - 1) {
        Some(n - 1)
    } else {
        last_where((n - 1) as nat, ok)
    }
}

/// `last_where` finds an index exactly where there is one, and no later index satisfies `ok`.
pub proof fn last_where_is_last(n: nat, ok: spec_fn(int) -> bool)
    ensures
        match last_where(n, ok) {
            None => forall|i: int| 0 <= i < n ==> !(#[trigger] ok(i)),
            Some(b) => 0 <= b < n && ok(b) && forall|i: int| b < i < n ==> !(#[trigger] ok(i)),
        },
    decreases n,
{
    if n > 0 {
        last_where_is_last((n - 1) as nat, ok);
    }
}

/// How many indices below `n` satisfy `ok`.
pub open spec fn count_where(n: nat, ok: spec_fn(int) -> bool) -> nat
    decreases n,
{
    if n == 0 {
        0
    } else {
        count_where((n - 1) as nat, ok) + if ok(n - 1) {
            1nat
        } else {
            0nat
        }
    }
}

/// No more are counted than there are.
pub proof fn count_where_bound(n: nat, ok: spec_fn(int) -> bool)
    ensures
        count_where(n, ok) <= n,
    decreases n,
{
    if n > 0 {
        count_where_bound((n - 1) as nat, ok);
    }
}

/// Indices that satisfy `ok` and those that do not add up to all of them.
pub proof fn count_where_complement(
    n: nat,
    ok: spec_fn(int) -> bool,
    other: spec_fn(int) -> bool,
)
    requires
        forall|i: int| 0 <= i < n ==> #[trigger] ok(i) == !other(i),
    ensures
        count_where(n, ok) + count_where(n, other) == n,
    decreases n,
{
    if n > 0 {
        count_where_complement((n - 1) as nat, ok, other);
        assert(ok(n - 1) == !other(n - 1));
    }
}

/// The sum of `value` over the indices below `n`.
pub open spec fn sum_of(n: nat, value: spec_fn(int) -> int) -> int
    decreases n,
{
    if n == 0 {
        0
    } else {
        sum_of((n - 1) as nat, value) + value(n - 1)
    }
}

/// The least of the values at the indices below `n`.
pub open spec fn least_of(n: nat, value: spec_fn(int) -> int) -> Option<int>
    decreases n,
{
    if n == 0 {
        None
    } else {
        match least_of((n - 1) as nat, value) {
            Some(m) if m <= value(n - 1) => Some(m),
            _ => Some(value(n - 1)),
        }
    }
}

/// `least_of` is one of the values, and no value is less.
pub proof fn least_of_is_least(n: nat, value: spec_fn(int) -> int)
    ensures
        match least_of(n, value) {
            None => n == 0,
            Some(m) => {
                &&& exists|i: int| 0 <= i < n && #[trigger] value(i) == m
                &&& forall|i: int| 0 <= i < n ==> m <= #[trigger] value(i)
            },
        },
    decreases n,
{
    if n > 0 {
        least_of_is_least((n - 1) as nat, value);
        let m = least_of(n, value)->0;
        if m == value(n - 1) {
            assert(0 <= n - 1 < n && value(n - 1) == m);
        } else {
            let i = choose|i: int| 0 <= i < n - 1 && #[trigger] value(i) == m;
            assert(0 <= i < n && value(i) == m);
        }
    }
}

/// The greatest of the values at the indices below `n`.
pub open spec fn greatest_of(n: nat, value: spec_fn(int) -> int) -> Option<int>
    decreases n,
{
    if n == 0 {
        None
    } else {
        match greatest_of((n - 1) as nat, value) {
            Some(m) if m >= value(n - 1) => Some(m),
            _ => Some(value(n - 1)),
        }
    }
}

/// `greatest_of` is one of the values, and no value is greater.
pub proof fn greatest_of_is_greatest(n: nat, value: spec_fn(int) -> int)
    ensures
        match greatest_of(n, value) {
            None => n == 0,
            Some(m) => {
                &&& exists|i: int| 0 <= i < n && #[trigger] value(i) == m
                &&& forall|i: int| 0 <= i < n ==> m >= #[trigger] value(i)
            },
        },
    decreases n,
{
    if n > 0 {
        greatest_of_is_greatest((n - 1) as nat, value);
        let m = greatest_of(n, value)->0;
        if m == value(n - 1) {
            assert(0 <= n - 1 < n && value(n - 1) == m);
        } else {
            let i = choose|i: int| 0 <= i < n - 1 && #[trigger] value(i) == m;
            assert(0 <= i < n && value(i) == m);
        }
    }
}

// ---- Stable ordering ----
/// `order` with the index `i` put behind every index whose key is not greater than its own.
pub open spec fn placed(order: Seq<int>, keys: Seq<int>, i: int) -> Seq<int>
    decreases order.len(),
{
    if order.len() > 0 && keys[order.last()] > keys[i] {
        placed(order.drop_last(), keys, i).push(order.last())
    } else {
        order.push(i)
    }
}

/// The first `n` indices of `keys`, ordered by key; equal keys keep their order.
pub open spec fn order_of_first(keys: Seq<int>, n: nat) -> Seq<int>
    decreases n,
{
    if n == 0 {
        Seq::empty()
    } else {
        placed(order_of_first(keys, (n - 1) as nat), keys, n - 1)
    }
}

/// The indices of `keys`, ordered by key; equal keys keep their order.
pub open spec fn sort_order(keys: Seq<int>) -> Seq<int> {
    order_of_first(keys, keys.len())
}

/// Whether `order` lists each index below `n` once, by key, and equal keys by index.
pub open spec fn is_stable_order(order: Seq<int>, keys: Seq<int>, n: nat) -> bool {
    &&& order.len() == n
    &&& forall|a: int| 0 <= a < n ==> 0 <= #[trigger] order[a] < n
    &&& forall|i: int| 0 <= i < n ==> #[trigger] order.contains(i)
    &&& forall|a: int, b: int|
        0 <= a < b < n ==> {
            ||| keys[#[trigger] order[a]] < keys[#[trigger] order[b]]
            ||| keys[order[a]] == keys[order[b]] && order[a] < order[b]
        }
}

proof fn placed_keeps_order(order: Seq<int>, keys: Seq<int>, i: int)
    requires
        forall|a: int| 0 <= a < order.len() ==> 0 <= #[trigger] order[a] < i,
        forall|a: int, b: int|
            0 <= a < b < order.len() ==> {
                ||| keys[#[trigger] order[a]] < keys[#[trigger] order[b]]
                ||| keys[order[a]] == keys[order[b]] && order[a] < order[b]
            },
        i >= 0,
    ensures
        placed(order, keys, i).len() == order.len() + 1,
        forall|a: int| 0 <= a <= order.len() ==> 0 <= #[trigger] placed(order, keys, i)[a] <= i,
        forall|x: int|
            #[trigger] placed(order, keys, i).contains(x) <==> x == i || order.contains(x),
        forall|a: int, b: int|
            0 <= a < b <= order.len() ==> {
                ||| keys[#[trigger] placed(order, keys, i)[a]] < keys[#[trigger] placed(
                    order,
                    keys,
                    i,
                )[b]]
                ||| keys[placed(order, keys, i)[a]] == keys[placed(order, keys, i)[b]] && placed(
                    order,
                    keys,
                    i,
                )[a] < placed(order, keys, i)[b]
            },
    decreases order.len(),
{
    let p = placed(order, keys, i);
    if order.len() > 0 && keys[order.last()] > keys[i] {
        let short = order.drop_last();
        let q = placed(short, keys, i);
        assert forall|a: int| 0 <= a < short.len() implies 0 <= #[trigger] short[a] < i by {
            assert(short[a] == order[a]);
        }
        placed_keeps_order(short, keys, i);
        assert forall|x: int| #[trigger] p.contains(x) <==> x == i || order.contains(x) by {
            if p.contains(x) {
                let k = choose|k: int| 0 <= k < p.len() && p[k] == x;
                if k < q.len() {
                    assert(q[k] == x);
                    assert(q.contains(x));
                    if short.contains(x) {
                        let m = choose|m: int| 0 <= m < short.len() && short[m] == x;
                        assert(order[m] == x);
                    }
                } else {
                    assert(order[order.len() - 1] == x);
                }
            }
            if x == i || order.contains(x) {
                if order.contains(x) && x != i {
                    let m = choose|m: int| 0 <= m < order.len() && order[m] == x;
                    if m < short.len() {
                        assert(short[m] == x);
                        assert(short.contains(x));
                        assert(q.contains(x));
                    } else {
                        assert(p[p.len() - 1] == x);
                    }
                } else {
                    assert(q.contains(i));
                }
                if q.contains(x) {
                    let k = choose|k: int| 0 <= k < q.len() && q[k] == x;
                    assert(p[k] == x);
                }
            }
        }
        assert forall|a: int, b: int| 0 <= a < b <= order.len() implies {
            ||| keys[#[trigger] p[a]] < keys[#[trigger] p[b]]
            ||| keys[p[a]] == keys[p[b]] && p[a] < p[b]
        } by {
            if b < order.len() {
                assert(p[a] == q[a] && p[b] == q[b]);
            } else {
                assert(p[b] == order.last());
                assert(p[a] == q[a]);
                assert(q.contains(q[a]));
                if q[a] != i {
                    let m = choose|m: int| 0 <= m < short.len() && short[m] == q[a];
                    assert(order[m] == q[a]);
                    assert(order[order.len() - 1] == order.last());
                }
            }
        }
    } else {
        assert(p == order.push(i));
        assert forall|x: int| #[trigger] p.contains(x) <==> x == i || order.contains(x) by {
            if order.contains(x) {
                let m = choose|m: int| 0 <= m < order.len() && order[m] == x;
                assert(p[m] == x);
            }
            if x == i {
                assert(p[order.len() as int] == x);
            }
        }
        assert forall|a: int, b: int| 0 <= a < b <= order.len() implies {
            ||| keys[#[trigger] p[a]] < keys[#[trigger] p[b]]
            ||| keys[p[a]] == keys[p[b]] && p[a] < p[b]
        } by {
            if b == order.len() {
                assert(p[a] == order[a]);
                let l = order.len() - 1;
                assert(order[l] == order.last());
                if a < l {
                    assert(keys[order[a]] <= keys[order[l]]);
                }
            } else {
                assert(p[a] == order[a] && p[b] == order[b]);
            }
        }
    }
}

/// `order_of_first` is the stable order by key.
pub proof fn order_of_first_is_stable(keys: Seq<int>, n: nat)
    ensures
        is_stable_order(order_of_first(keys, n), keys, n),
    decreases n,
{
    if n > 0 {
        let shorter = order_of_first(keys, (n - 1) as nat);
        order_of_first_is_stable(keys, (n - 1) as nat);
        placed_keeps_order(shorter, keys, n - 1);
        assert forall|i: int| 0 <= i < n implies #[trigger] order_of_first(keys, n).contains(i) by {
            if i < n - 1 {
                assert(shorter.contains(i));
            }
        }
    }
}

/// The order found by a stable sort: each index once, by key, and equal keys by index.
pub proof fn sort_order_is_stable(keys: Seq<int>)
    ensures
        is_stable_order(sort_order(keys), keys, keys.len()),
{
    order_of_first_is_stable(keys, keys.len());
}

proof fn placed_is_insert(order: Seq<int>, keys: Seq<int>, i: int, p: int)
    requires
        0 <= p <= order.len(),
        p > 0 ==> keys[order[p - 1]] <= keys[i],
        forall|a: int| p <= a < order.len() ==> keys[#[trigger] order[a]] > keys[i],
    ensures
        placed(order, keys, i) == order.insert(p, i),
    decreases order.len(),
{
    if p < order.len() {
        assert(keys[order[order.len() - 1]] > keys[i]);
        let short = order.drop_last();
        assert forall|a: int| p <= a < short.len() implies keys[#[trigger] short[a]] > keys[i] by {
            assert(short[a] == order[a]);
        }
        if p > 0 {
            assert(short[p - 1] == order[p - 1]);
        }
        placed_is_insert(short, keys, i, p);
        assert(short.insert(p, i).push(order.last()) == order.insert(p, i));
    } else {
        if order.len() > 0 {
            assert(order.last() == order[p - 1]);
        }
        assert(order.push(i) == order.insert(p, i));
    }
}

/// The elements as integers.
pub open spec fn ints(s: Seq<i128>) -> Seq<int> {
    Seq::new(s.len(), |i: int| s[i] as int)
}

/// The elements as integers.
pub open spec fn positions(s: Seq<usize>) -> Seq<int> {
    Seq::new(s.len(), |i: int| s[i] as int)
}

/// The indices of `keys`, ordered by key; equal keys keep their order.
pub fn stable_order(keys: &Vec<i128>) -> (order: Vec<usize>)
    ensures
        positions(order@) == sort_order(ints(keys@)),
        is_stable_order(positions(order@), ints(keys@), keys@.len()),
        order@.len() == keys@.len(),
        forall|a: int| 0 <= a < order@.len() ==> #[trigger] order@[a] < keys@.len(),
{
    let mut order: Vec<usize> = Vec::new();
    let mut i: usize = 0;
    let ghost all = ints(keys@);
    while i < keys.len()
        invariant
            i <= keys@.len(),
            all == ints(keys@),
            positions(order@) == order_of_first(all, i as nat),
            is_stable_order(positions(order@), all, i as nat),
        decreases keys@.len() - i,
    {
        let mut p: usize = order.len();
        assert forall|a: int| 0 <= a < order@.len() implies #[trigger] order@[a] < i by {
            assert(positions(order@)[a] < i);
        }
        while p > 0 && keys[order[p - 1]] > keys[i]
            invariant
                p <= order@.len() == i,
                i < keys@.len(),
                all == ints(keys@),
                forall|a: int| 0 <= a < order@.len() ==> #[trigger] order@[a] < i,
                forall|a: int|
                    p <= a < order@.len() ==> all[#[trigger] positions(order@)[a]] > all[i as int],
            decreases p,
        {
            assert(all[positions(order@)[p - 1]] > all[i as int]);
            p = p - 1;
        }
        proof {
            if p > 0 {
                assert(positions(order@)[p - 1] == order@[p - 1]);
            }
            placed_is_insert(positions(order@), all, i as int, p as int);
            assert(positions(order@.insert(p as int, i)) == positions(order@).insert(
                p as int,
                i as int,
            ));
            order_of_first_is_stable(all, (i + 1) as nat);
        }
        order.insert(p, i);
        i = i + 1;
    }
    assert forall|a: int| 0 <= a < order@.len() implies #[trigger] order@[a] < keys@.len() by {
        assert(positions(order@)[a] < keys@.len());
    }
    order
}

// ---- Ascending values without repetition ----
/// An ascending sequence with the value `x` in its place, once.
pub open spec fn with_value(s: Seq<u64>, x: u64) -> Seq<u64>
    decreases s.len(),
{
    if s.len() == 0 {
        seq![x]
    } else if s.last() < x {
        s.push(x)
    } else if s.last() == x {
        s
    } else {
        with_value(s.drop_last(), x).push(s.last())
    }
}

/// Each number is greater than those before it.
pub open spec fn strictly_ascending(s: Seq<u64>) -> bool {
    forall|i: int, j: int| 0 <= i < j < s.len() ==> s[i] < s[j]
}

/// `with_value` adds the value and nothing else, and the result is ascending without repetition.
pub proof fn with_value_adds(s: Seq<u64>, x: u64)
    requires
        strictly_ascending(s),
    ensures
        strictly_ascending(with_value(s, x)),
        forall|y: u64| #[trigger] with_value(s, x).contains(y) <==> y == x || s.contains(y),
    decreases s.len(),
{
    let w = with_value(s, x);
    if s.len() == 0 {
        assert(w[0] == x);
    } else if s.last() < x {
        assert forall|y: u64| #[trigger] w.contains(y) <==> y == x || s.contains(y) by {
            if s.contains(y) {
                let k = choose|k: int| 0 <= k < s.len() && s[k] == y;
                assert(w[k] == y);
            }
            if y == x {
                assert(w[s.len() as int] == y);
            }
        }
    } else if s.last() == x {
        assert(s[s.len() - 1] == x);
    } else {
        let short = s.drop_last();
        with_value_adds(short, x);
        let q = with_value(short, x);
        assert forall|y: u64| #[trigger] w.contains(y) <==> y == x || s.contains(y) by {
            if w.contains(y) {
                let k = choose|k: int| 0 <= k < w.len() && w[k] == y;
                if k < q.len() {
                    assert(q[k] == y);
                    assert(q.contains(y));
                    if short.contains(y) {
                        let m = choose|m: int| 0 <= m < short.len() && short[m] == y;
                        assert(s[m] == y);
                    }
                } else {
                    assert(s[s.len() - 1] == y);
                }
            }
            if y == x || s.contains(y) {
                if y != x {
                    let m = choose|m: int| 0 <= m < s.len() && s[m] == y;
                    if m < short.len() {
                        assert(short[m] == y);
                        assert(short.contains(y));
                    } else {
                        assert(w[w.len() - 1] == y);
                    }
                }
                if q.contains(y) {
                    let k = choose|k: int| 0 <= k < q.len() && q[k] == y;
                    assert(w[k] == y);
                }
            }
        }
        assert forall|i: int, j: int| 0 <= i < j < w.len() implies w[i] < w[j] by {
            if j == q.len() {
                assert(w[j] == s.last());
                assert(q.contains(q[i]));
                if q[i] != x {
                    let m = choose|m: int| 0 <= m < short.len() && short[m] == q[i];
                    assert(s[m] == q[i] && s[s.len() - 1] == s.last());
                }
            }
        }
    }
}

proof fn with_value_is_insert(s: Seq<u64>, x: u64, p: int)
    requires
        0 <= p <= s.len(),
        p > 0 ==> s[p - 1] <= x,
        forall|a: int| p <= a < s.len() ==> #[trigger] s[a] > x,
    ensures
        with_value(s, x) == if p > 0 && s[p - 1] == x {
            s
        } else {
            s.insert(p, x)
        },
    decreases s.len(),
{
    if p < s.len() {
        let short = s.drop_last();
        assert(s[s.len() - 1] > x);
        assert forall|a: int| p <= a < short.len() implies #[trigger] short[a] > x by {
            assert(short[a] == s[a]);
        }
        with_value_is_insert(short, x, p);
        if p > 0 && s[p - 1] == x {
            assert(short.push(s.last()) == s);
        } else {
            assert(short.insert(p, x).push(s.last()) == s.insert(p, x));
        }
    } else if s.len() > 0 {
        assert(s.last() == s[p - 1]);
        assert(s.push(x) == s.insert(p, x));
    } else {
        assert(seq![x] == s.insert(p, x));
    }
}

/// Puts the value `x` in its place in an ascending vector, once.
pub fn add_ascending(v: &mut Vec<u64>, x: u64)
    ensures
        final(v)@ == with_value(old(v)@, x),
{
    let mut p: usize = v.len();
    while p > 0 && v[p - 1] > x
        invariant
            p <= v@.len(),
            v@ == old(v)@,
            forall|a: int| p <= a < v@.len() ==> #[trigger] v@[a] > x,
        decreases p,
    {
        p = p - 1;
    }
    proof {
        with_value_is_insert(v@, x, p as int);
    }
    if p > 0 && v[p - 1] == x {
        return;
    }
    v.insert(p, x);
}

/// The values of `item` below `n`, ascending and without repetition, of the indices that satisfy
/// `ok`.
pub open spec fn distinct_values(
    n: nat,
    ok: spec_fn(int) -> bool,
    item: spec_fn(int) -> u64,
) -> Seq<u64>
    decreases n,
{
    if n == 0 {
        Seq::empty()
    } else {
        let s = distinct_values((n - 1) as nat, ok, item);
        if ok(n - 1) {
            with_value(s, item(n - 1))
        } else {
            s
        }
    }
}

/// `distinct_values` holds exactly the values asked for, ascending and without repetition.
pub proof fn distinct_values_are_all(n: nat, ok: spec_fn(int) -> bool, item: spec_fn(int) -> u64)
    ensures
        strictly_ascending(distinct_values(n, ok, item)),
        forall|y: u64| #[trigger]
            distinct_values(n, ok, item).contains(y) <==> exists|i: int|
                0 <= i < n && ok(i) && #[trigger] item(i) == y,
    decreases n,
{
    if n > 0 {
        distinct_values_are_all((n - 1) as nat, ok, item);
        let s = distinct_values((n - 1) as nat, ok, item);
        if ok(n - 1) {
            with_value_adds(s, item(n - 1));
        }
        assert forall|y: u64| #[trigger]
            distinct_values(n, ok, item).contains(y) <==> exists|i: int|
                0 <= i < n && ok(i) && #[trigger] item(i) == y by {
            if exists|i: int| 0 <= i < n && ok(i) && #[trigger] item(i) == y {
                let i = choose|i: int| 0 <= i < n && ok(i) && #[trigger] item(i) == y;
                if i < n - 1 {
                    assert(s.contains(y));
                }
            }
            if s.contains(y) {
                let i = choose|i: int| 0 <= i < n - 1 && ok(i) && #[trigger] item(i) == y;
                assert(0 <= i < n && ok(i) && item(i) == y);
            }
            if ok(n - 1) && item(n - 1) == y {
                assert(0 <= n - 1 < n && ok(n - 1) && item(n - 1) == y);
            }
        }
    }
}

} // verus!
