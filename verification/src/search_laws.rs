//! What holds of sums and counts.

use crate::search::{count_where, sum_of};
use crate::selection::{picked, picked_selects, selection_counts, selection_is_unique, selects};
use vstd::prelude::*;

verus! {

/// The sum of values that are all zero but one is that one.
pub proof fn sum_of_one(n: nat, k: int, c: int)
    requires
        0 <= k < n,
    ensures
        sum_of(
            n,
            |i: int|
                if i == k {
                    c
                } else {
                    0
                },
        ) == c,
    decreases n,
{
    let f = |i: int|
        if i == k {
            c
        } else {
            0
        };
    if n - 1 == k {
        sum_of_none((n - 1) as nat, f);
    } else {
        sum_of_one((n - 1) as nat, k, c);
    }
}

proof fn sum_of_none(n: nat, f: spec_fn(int) -> int)
    requires
        forall|i: int| 0 <= i < n ==> #[trigger] f(i) == 0,
    ensures
        sum_of(n, f) == 0,
    decreases n,
{
    if n > 0 {
        sum_of_none((n - 1) as nat, f);
        assert(f(n - 1) == 0);
    }
}

/// The sum of sums is the sum of both.
pub proof fn sums_add_up(
    n: nat,
    f: spec_fn(int) -> int,
    g: spec_fn(int) -> int,
    both: spec_fn(int) -> int,
)
    requires
        forall|i: int| 0 <= i < n ==> #[trigger] both(i) == f(i) + g(i),
    ensures
        sum_of(n, both) == sum_of(n, f) + sum_of(n, g),
    decreases n,
{
    if n > 0 {
        sums_add_up((n - 1) as nat, f, g, both);
        assert(both(n - 1) == f(n - 1) + g(n - 1));
    }
}

/// As many are counted as are selected.
pub proof fn counts_are_of_selections(n: nat, ok: spec_fn(int) -> bool, at: Seq<int>)
    requires
        selects(at, n, ok),
    ensures
        count_where(n, ok) == at.len(),
{
    picked_selects(n, ok);
    selection_counts(n, ok);
    selection_is_unique(at, picked(n, ok), n, ok);
}

} // verus!
