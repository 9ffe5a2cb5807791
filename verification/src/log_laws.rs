//! What holds of whole logs: the counts of their imports, and the blocks and times that they cover.

use crate::logs::{
    best_count, confidence, import_time, log_time_range, max_relay, min_relay, non_best_count,
    relay_range_of, times_of,
};
use crate::search::{greatest_of_is_greatest, least_of_is_least};
use crate::selection::{picked, picked_selects, selection_counts, selection_is_unique, selects};
use crate::types::{CollatorLogView, ParsedLogView};
use vstd::prelude::*;

verus! {

// ---- Imports ----
/// Whether a relay block was imported.
pub open spec fn imported_relay(log: ParsedLogView, block: int) -> bool {
    exists|i: int|
        0 <= i < log.relay_imports.len() && (#[trigger] log.relay_imports[i]).block_number == block
}

/// Whether something was imported at a time, of the parachain or of the relay chain.
pub open spec fn imported_at(log: ParsedLogView, time: int) -> bool {
    ||| exists|i: int|
        0 <= i < log.para_imports.len() && (#[trigger] log.para_imports[i]).timestamp == time
    ||| exists|i: int|
        0 <= i < log.relay_imports.len() && (#[trigger] log.relay_imports[i]).timestamp == time
}

/// As many imports are best as there are trophies among them, and the others are not; the confidence
/// is the share of the best ones, and one where there are no imports.
pub proof fn best_imports_are_counted(log: ParsedLogView, at: Seq<int>)
    requires
        selects(at, log.para_imports.len(), |i: int| log.para_imports[i].is_best),
        log.para_imports.len() <= usize::MAX,
    ensures
        best_count(log) == at.len(),
        non_best_count(log) == log.para_imports.len() - at.len(),
        log.para_imports.len() > 0 ==> confidence(log).num == at.len() && confidence(log).den
            == log.para_imports.len(),
        log.para_imports.len() == 0 ==> confidence(log).num == confidence(log).den
            && confidence(log).den > 0,
{
    let n = log.para_imports.len();
    let best = |i: int| log.para_imports[i].is_best;
    let same = |i: int| log.para_imports[i].is_best == true;
    picked_selects(n, best);
    selection_counts(n, best);
    selection_is_unique(at, picked(n, best), n, best);
    same_counts(n, best, same);
    crate::logs::import_counts_add_up(log);
}

proof fn same_counts(n: nat, f: spec_fn(int) -> bool, g: spec_fn(int) -> bool)
    requires
        forall|k: int| 0 <= k < n ==> #[trigger] f(k) == g(k),
    ensures
        crate::search::count_where(n, f) == crate::search::count_where(n, g),
    decreases n,
{
    if n > 0 {
        same_counts((n - 1) as nat, f, g);
        assert(f(n - 1) == g(n - 1));
    }
}

/// The lowest and the highest relay block of a log are blocks imported, and no block imported is
/// below or above; there are none where no relay block was imported.
pub proof fn relay_blocks_are_between(log: ParsedLogView)
    ensures
        match (min_relay(log), max_relay(log)) {
            (Some(lo), Some(hi)) => imported_relay(log, lo) && imported_relay(log, hi) && forall|
                b: int,
            | #[trigger] imported_relay(log, b) ==> lo <= b <= hi,
            (None, None) => log.relay_imports.len() == 0,
            _ => false,
        },
{
    let n = log.relay_imports.len();
    let number = |i: int| log.relay_imports[i].block_number as int;
    least_of_is_least(n, number);
    greatest_of_is_greatest(n, number);
    if n > 0 {
        let lo = min_relay(log)->0;
        let hi = max_relay(log)->0;
        let a = choose|i: int| 0 <= i < n && #[trigger] number(i) == lo;
        let b = choose|i: int| 0 <= i < n && #[trigger] number(i) == hi;
        assert(log.relay_imports[a].block_number == lo);
        assert(log.relay_imports[b].block_number == hi);
        assert forall|x: int| #[trigger] imported_relay(log, x) implies lo <= x <= hi by {
            let i = choose|i: int| 0 <= i < n && (#[trigger] log.relay_imports[i]).block_number == x;
            assert(number(i) == x);
        }
    }
}

/// The first and the last time of a log are times of imports, and no import is before or after;
/// there are none where nothing was imported.
pub proof fn import_times_are_between(log: ParsedLogView)
    ensures
        match log_time_range(log) {
            Some((first, last)) => imported_at(log, first) && imported_at(log, last) && forall|
                t: int,
            | #[trigger] imported_at(log, t) ==> first <= t <= last,
            None => log.para_imports.len() == 0 && log.relay_imports.len() == 0,
        },
{
    let p = log.para_imports.len();
    let n = p + log.relay_imports.len();
    let time = |i: int| import_time(log, i);
    least_of_is_least(n, time);
    greatest_of_is_greatest(n, time);
    assert forall|i: int| 0 <= i < n implies imported_at(log, #[trigger] time(i)) by {
        if i < p {
            assert(log.para_imports[i].timestamp == time(i));
        } else {
            assert(log.relay_imports[i - p].timestamp == time(i));
        }
    }
    if n > 0 {
        let (first, last) = log_time_range(log)->0;
        let a = choose|i: int| 0 <= i < n && #[trigger] time(i) == first;
        let b = choose|i: int| 0 <= i < n && #[trigger] time(i) == last;
        assert(imported_at(log, time(a)) && imported_at(log, time(b)));
        assert forall|t: int| #[trigger] imported_at(log, t) implies first <= t <= last by {
            if exists|i: int| 0 <= i < p && (#[trigger] log.para_imports[i]).timestamp == t {
                let i = choose|i: int| 0 <= i < p && (#[trigger] log.para_imports[i]).timestamp == t;
                assert(time(i) == t);
            } else {
                let i = choose|i: int|
                    0 <= i < log.relay_imports.len() && (#[trigger] log.relay_imports[i]).timestamp
                        == t;
                assert(time(p + i) == t);
            }
        }
    }
}

// ---- Several logs ----
/// Whether one of the first `n` collators imported a relay block.
pub open spec fn some_imported_relay(logs: Seq<CollatorLogView>, n: nat, block: int) -> bool {
    exists|c: int| 0 <= c < n && imported_relay((#[trigger] logs[c]).log, block)
}

/// Whether one of the first `n` collators imported something at a time.
pub open spec fn some_imported_at(logs: Seq<CollatorLogView>, n: nat, time: int) -> bool {
    exists|c: int| 0 <= c < n && imported_at((#[trigger] logs[c]).log, time)
}

/// The range of relay blocks of several logs begins and ends with a block that one of them imported,
/// and no block that one imported is outside; there is none where none imported a relay block.
pub proof fn relay_range_covers_logs(logs: Seq<CollatorLogView>, n: nat)
    requires
        n <= logs.len(),
    ensures
        match relay_range_of(logs, n) {
            Some((lo, hi)) => some_imported_relay(logs, n, lo) && some_imported_relay(logs, n, hi)
                && forall|b: int| #[trigger] some_imported_relay(logs, n, b) ==> lo <= b <= hi,
            None => forall|b: int| !(#[trigger] some_imported_relay(logs, n, b)),
        },
    decreases n,
{
    if n > 0 {
        let m = (n - 1) as nat;
        relay_range_covers_logs(logs, m);
        relay_blocks_are_between(logs[n - 1].log);
        let before = relay_range_of(logs, m);
        let log = logs[n - 1].log;
        assert forall|b: int| #[trigger] some_imported_relay(logs, n, b) <==> some_imported_relay(
            logs,
            m,
            b,
        ) || imported_relay(log, b) by {
            if some_imported_relay(logs, n, b) {
                let c = choose|c: int| 0 <= c < n && imported_relay((#[trigger] logs[c]).log, b);
                assert(c < m ==> imported_relay(logs[c].log, b));
            }
            if some_imported_relay(logs, m, b) {
                let c = choose|c: int| 0 <= c < m && imported_relay((#[trigger] logs[c]).log, b);
                assert(imported_relay(logs[c].log, b));
            }
            if imported_relay(log, b) {
                assert(imported_relay(logs[n - 1].log, b));
            }
        }
        if let Some((lo, hi)) = before {
            assert(some_imported_relay(logs, n, lo) && some_imported_relay(logs, n, hi));
        }
        match (min_relay(log), max_relay(log)) {
            (Some(lo), Some(hi)) => {
                assert(some_imported_relay(logs, n, lo) && some_imported_relay(logs, n, hi));
            },
            _ => {
                assert forall|b: int| !imported_relay(log, b) by {}
            },
        }
    }
}

/// The range of times of several logs begins and ends with the time of an import of one of them, and
/// no import of one is outside; there is none where none imported anything.
pub proof fn time_range_covers_logs(logs: Seq<CollatorLogView>, n: nat)
    requires
        n <= logs.len(),
    ensures
        match times_of(logs, n) {
            Some((first, last)) => some_imported_at(logs, n, first) && some_imported_at(
                logs,
                n,
                last,
            ) && forall|t: int| #[trigger] some_imported_at(logs, n, t) ==> first <= t <= last,
            None => forall|t: int| !(#[trigger] some_imported_at(logs, n, t)),
        },
    decreases n,
{
    if n > 0 {
        let m = (n - 1) as nat;
        time_range_covers_logs(logs, m);
        import_times_are_between(logs[n - 1].log);
        let log = logs[n - 1].log;
        assert forall|t: int| #[trigger] some_imported_at(logs, n, t) <==> some_imported_at(
            logs,
            m,
            t,
        ) || imported_at(log, t) by {
            if some_imported_at(logs, n, t) {
                let c = choose|c: int| 0 <= c < n && imported_at((#[trigger] logs[c]).log, t);
                assert(c < m ==> imported_at(logs[c].log, t));
            }
            if some_imported_at(logs, m, t) {
                let c = choose|c: int| 0 <= c < m && imported_at((#[trigger] logs[c]).log, t);
                assert(imported_at(logs[c].log, t));
            }
            if imported_at(log, t) {
                assert(imported_at(logs[n - 1].log, t));
            }
        }
        if let Some((first, last)) = times_of(logs, m) {
            assert(some_imported_at(logs, n, first) && some_imported_at(logs, n, last));
        }
        if let Some((first, last)) = log_time_range(log) {
            assert(some_imported_at(logs, n, first) && some_imported_at(logs, n, last));
        }
    }
}

} // verus!
