//! Selections from a range of indices: those that satisfy a condition, in order.

use vstd::prelude::*;

verus! {

/// Whether `at` holds exactly the indices below `n` that satisfy `ok`, each once and in order.
pub open spec fn selects(at: Seq<int>, n: nat, ok: spec_fn(int) -> bool) -> bool {
    &&& forall|a: int, b: int| 0 <= a < b < at.len() ==> at[a] < at[b]
    &&& forall|a: int| 0 <= a < at.len() ==> 0 <= #[trigger] at[a] < n && ok(at[a])
    &&& forall|i: int| 0 <= i < n && #[trigger] ok(i) ==> at.contains(i)
}

/// The indices below `n` that satisfy `ok`, in order.
pub open spec fn picked(n: nat, ok: spec_fn(int) -> bool) -> Seq<int>
    decreases n,
{
    if n == 0 {
        Seq::empty()
    } else if ok(n - 1) {
        picked((n - 1) as nat, ok).push(n - 1)
    } else {
        picked((n - 1) as nat, ok)
    }
}

/// `picked` is such a selection.
pub proof fn picked_selects(n: nat, ok: spec_fn(int) -> bool)
    ensures
        selects(picked(n, ok), n, ok),
    decreases n,
{
    if n > 0 {
        let before = picked((n - 1) as nat, ok);
        let at = picked(n, ok);
        picked_selects((n - 1) as nat, ok);
        assert forall|i: int| 0 <= i < n && #[trigger] ok(i) implies at.contains(i) by {
            if i < n - 1 {
                assert(before.contains(i));
                let a = choose|a: int| 0 <= a < before.len() && before[a] == i;
                assert(at[a] == i);
            } else {
                assert(at[before.len() as int] == i);
            }
        }
    }
}

/// There is only one such selection.
pub proof fn selection_is_unique(a: Seq<int>, b: Seq<int>, n: nat, ok: spec_fn(int) -> bool)
    requires
        selects(a, n, ok),
        selects(b, n, ok),
    ensures
        a == b,
    decreases n,
{
    if n == 0 {
        if a.len() > 0 {
            assert(0 <= a[0] < n && ok(a[0]));
        }
        if b.len() > 0 {
            assert(0 <= b[0] < n && ok(b[0]));
        }
    } else {
        let m = (n - 1) as nat;
        let a1 = without_last(a, m, ok);
        let b1 = without_last(b, m, ok);
        last_is_split(a, m, ok);
        last_is_split(b, m, ok);
        selection_is_unique(a1, b1, m, ok);
    }
    assert(a =~= b);
}

spec fn without_last(a: Seq<int>, m: nat, ok: spec_fn(int) -> bool) -> Seq<int> {
    if ok(m as int) {
        a.drop_last()
    } else {
        a
    }
}

proof fn last_is_split(a: Seq<int>, m: nat, ok: spec_fn(int) -> bool)
    requires
        selects(a, m + 1, ok),
    ensures
        selects(without_last(a, m, ok), m, ok),
        ok(m as int) ==> a.len() > 0 && a.last() == m,
{
    if ok(m as int) {
        assert(a.contains(m as int));
        let k = choose|k: int| 0 <= k < a.len() && a[k] == m;
        if k < a.len() - 1 {
            assert(a[k] < a[a.len() - 1]);
        }
        assert(k == a.len() - 1);
        let s = a.drop_last();
        assert forall|i: int| 0 <= i < m && #[trigger] ok(i) implies s.contains(i) by {
            assert(a.contains(i));
            let j = choose|j: int| 0 <= j < a.len() && a[j] == i;
            assert(s[j] == i);
        }
        assert forall|x: int| 0 <= x < s.len() implies 0 <= #[trigger] s[x] < m && ok(s[x]) by {
            assert(s[x] == a[x]);
            assert(a[x] < a[k]);
        }
    } else {
        assert forall|x: int| 0 <= x < a.len() implies 0 <= #[trigger] a[x] < m && ok(a[x]) by {
            assert(ok(a[x]));
        }
    }
}

/// As many indices are selected as there are in the set of those that satisfy the condition.
pub proof fn selection_counts(n: nat, ok: spec_fn(int) -> bool)
    ensures
        crate::search::count_where(n, ok) == picked(n, ok).len(),
    decreases n,
{
    if n > 0 {
        selection_counts((n - 1) as nat, ok);
    }
}

} // verus!
