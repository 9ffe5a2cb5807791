//! What a log, and the logs of several collators, say as a whole.

use crate::hash::HashRegistry;
use crate::model::views;
use crate::search::{count_where, first_where, greatest_of, least_of};
use crate::text::{comes_before, text_before};
use crate::time::{earlier_of, later_of, Timestamp};
use crate::types::{CollatorLog, CollatorLogView, ParsedLog, ParsedLogView, Ratio};
use vstd::prelude::*;

verus! {

/// A log without events.
pub open spec fn empty_log() -> ParsedLogView {
    ParsedLogView {
        para_imports: Seq::empty(),
        relay_imports: Seq::empty(),
        build_attempts: Seq::empty(),
        pre_sealed: Seq::empty(),
        collation_submissions: Seq::empty(),
        collation_fetches: Seq::empty(),
        candidates_generated: Seq::empty(),
        view_updates: Seq::empty(),
        collation_expired: Seq::empty(),
        advertising_peers: Seq::empty(),
        peer_connections: Seq::empty(),
        hash_registry: crate::hash::empty_registry(),
    }
}

/// The lowest relay block that the first `n` relay imports name.
pub open spec fn min_relay_of(log: ParsedLogView, n: nat) -> Option<int> {
    least_of(n, |i: int| log.relay_imports[i].block_number as int)
}

/// The highest relay block that the first `n` relay imports name.
pub open spec fn max_relay_of(log: ParsedLogView, n: nat) -> Option<int> {
    greatest_of(n, |i: int| log.relay_imports[i].block_number as int)
}

/// The lowest relay block imported.
pub open spec fn min_relay(log: ParsedLogView) -> Option<int> {
    min_relay_of(log, log.relay_imports.len())
}

/// The highest relay block imported.
pub open spec fn max_relay(log: ParsedLogView) -> Option<int> {
    max_relay_of(log, log.relay_imports.len())
}

/// The time of the `i`-th import: parachain imports first, then relay chain imports.
pub open spec fn import_time(log: ParsedLogView, i: int) -> int {
    if i < log.para_imports.len() {
        log.para_imports[i].timestamp
    } else {
        log.relay_imports[i - log.para_imports.len()].timestamp
    }
}

/// The earliest and the latest time of the first `n` imports.
pub open spec fn time_range_of(log: ParsedLogView, n: nat) -> Option<(int, int)> {
    match (
        least_of(n, |i: int| import_time(log, i)),
        greatest_of(n, |i: int| import_time(log, i)),
    ) {
        (Some(min), Some(max)) => Some((min, max)),
        _ => None,
    }
}

/// The earliest and the latest time of an import.
pub open spec fn log_time_range(log: ParsedLogView) -> Option<(int, int)> {
    time_range_of(log, log.para_imports.len() + log.relay_imports.len())
}

/// How many of the first `n` parachain imports are (or are not) best.
pub open spec fn imports_of(log: ParsedLogView, best: bool, n: nat) -> nat {
    count_where(n, |i: int| log.para_imports[i].is_best == best)
}

/// How many parachain imports are best.
pub open spec fn best_count(log: ParsedLogView) -> nat {
    imports_of(log, true, log.para_imports.len())
}

/// How many parachain imports are not best.
pub open spec fn non_best_count(log: ParsedLogView) -> nat {
    imports_of(log, false, log.para_imports.len())
}

/// A time range, as a pair of times.
pub open spec fn range_view(r: Option<(Timestamp, Timestamp)>) -> Option<(int, int)> {
    match r {
        Some((a, b)) => Some((a@, b@)),
        None => None,
    }
}

/// Best imports out of all imports; 1/1 where there are none.
pub open spec fn confidence(log: ParsedLogView) -> Ratio {
    if log.para_imports.len() == 0 {
        Ratio { num: 1, den: 1 }
    } else {
        Ratio { num: best_count(log) as i128, den: log.para_imports.len() as u128 }
    }
}

/// Every import is best or not: the two counts add up to all imports.
pub proof fn import_counts_add_up(log: ParsedLogView)
    ensures
        best_count(log) + non_best_count(log) == log.para_imports.len(),
{
    crate::search::count_where_complement(
        log.para_imports.len(),
        |i: int| log.para_imports[i].is_best == true,
        |i: int| log.para_imports[i].is_best == false,
    );
}

/// The confidence is a share: not below zero, and not above one.
pub proof fn confidence_is_share(log: ParsedLogView)
    requires
        log.para_imports.len() <= usize::MAX,
    ensures
        0 <= confidence(log).num <= confidence(log).den,
        confidence(log).den > 0,
{
    import_counts_add_up(log);
}

impl ParsedLog {
    /// A log without events.
    pub fn new() -> (log: Self)
        ensures
            log@ == empty_log(),
            log.hash_registry.wf(),
    {
        let log = ParsedLog {
            para_imports: Vec::new(),
            relay_imports: Vec::new(),
            build_attempts: Vec::new(),
            pre_sealed: Vec::new(),
            collation_submissions: Vec::new(),
            collation_fetches: Vec::new(),
            candidates_generated: Vec::new(),
            view_updates: Vec::new(),
            collation_expired: Vec::new(),
            advertising_peers: Vec::new(),
            peer_connections: Vec::new(),
            hash_registry: HashRegistry::new(),
        };
        assert(log@ =~= empty_log());
        log
    }

    /// The lowest relay block imported.
    pub fn min_relay_block(&self) -> (min: Option<u32>)
        ensures
            match min {
                Some(m) => min_relay(self@) == Some(m as int),
                None => min_relay(self@) is None,
            },
    {
        let mut min: Option<u32> = None;
        let mut i: usize = 0;
        while i < self.relay_imports.len()
            invariant
                i <= self.relay_imports@.len(),
                match min {
                    Some(m) => min_relay_of(self@, i as nat) == Some(m as int),
                    None => min_relay_of(self@, i as nat) is None,
                },
            decreases self.relay_imports@.len() - i,
        {
            let n = self.relay_imports[i].block_number;
            assert(self@.relay_imports[i as int].block_number == n);
            min = match min {
                Some(m) => if m <= n {
                    Some(m)
                } else {
                    Some(n)
                },
                None => Some(n),
            };
            i = i + 1;
        }
        min
    }

    /// The highest relay block imported.
    pub fn max_relay_block(&self) -> (max: Option<u32>)
        ensures
            match max {
                Some(m) => max_relay(self@) == Some(m as int),
                None => max_relay(self@) is None,
            },
    {
        let mut max: Option<u32> = None;
        let mut i: usize = 0;
        while i < self.relay_imports.len()
            invariant
                i <= self.relay_imports@.len(),
                match max {
                    Some(m) => max_relay_of(self@, i as nat) == Some(m as int),
                    None => max_relay_of(self@, i as nat) is None,
                },
            decreases self.relay_imports@.len() - i,
        {
            let n = self.relay_imports[i].block_number;
            assert(self@.relay_imports[i as int].block_number == n);
            max = match max {
                Some(m) => if m >= n {
                    Some(m)
                } else {
                    Some(n)
                },
                None => Some(n),
            };
            i = i + 1;
        }
        max
    }

    /// The earliest and the latest time of an import.
    pub fn time_range(&self) -> (range: Option<(Timestamp, Timestamp)>)
        ensures
            range_view(range) == log_time_range(self@),
    {
        let mut range: Option<(Timestamp, Timestamp)> = None;
        let mut i: usize = 0;
        while i < self.para_imports.len()
            invariant
                i <= self.para_imports@.len(),
                range_view(range) == time_range_of(self@, i as nat),
                range is None <==> i == 0,
            decreases self.para_imports@.len() - i,
        {
            let t = self.para_imports[i].timestamp;
            assert(import_time(self@, i as int) == t@);
            range = widened(range, t);
            i = i + 1;
        }
        let mut j: usize = 0;
        while j < self.relay_imports.len()
            invariant
                j <= self.relay_imports@.len(),
                range_view(range) == time_range_of(self@, self.para_imports@.len() + j as nat),
                range is None <==> self.para_imports@.len() + j == 0,
            decreases self.relay_imports@.len() - j,
        {
            let t = self.relay_imports[j].timestamp;
            assert(import_time(self@, self.para_imports@.len() + j) == t@);
            range = widened(range, t);
            j = j + 1;
        }
        range
    }

    /// 🏆 best block imports (blocks built)
    pub fn best_imports(&self) -> (n: usize)
        ensures
            n == best_count(self@),
    {
        self.count_imports(true)
    }

    /// 🆕 non-best block imports (blocks rebuilt / reorgs)
    pub fn non_best_imports(&self) -> (n: usize)
        ensures
            n == non_best_count(self@),
    {
        self.count_imports(false)
    }

    fn count_imports(&self, best: bool) -> (n: usize)
        ensures
            n == imports_of(self@, best, self@.para_imports.len()),
    {
        let mut n: usize = 0;
        let mut i: usize = 0;
        while i < self.para_imports.len()
            invariant
                i <= self.para_imports@.len(),
                n == imports_of(self@, best, i as nat),
                n <= i,
            decreases self.para_imports@.len() - i,
        {
            assert(self@.para_imports[i as int].is_best == self.para_imports@[i as int].is_best);
            if self.para_imports[i].is_best == best {
                n = n + 1;
            }
            i = i + 1;
        }
        n
    }

    /// Block confidence: best imports out of all imports, 1/1 where there are none.
    pub fn block_confidence(&self) -> (ratio: Ratio)
        ensures
            ratio == confidence(self@),
    {
        if self.para_imports.len() == 0 {
            return Ratio { num: 1, den: 1 };
        }
        Ratio { num: self.best_imports() as i128, den: self.para_imports.len() as u128 }
    }
}

impl Default for ParsedLog {
    fn default() -> (log: Self)
        ensures
            log@ == empty_log(),
            log.hash_registry.wf(),
    {
        ParsedLog::new()
    }
}

/// A time range that also covers the time `t`.
fn widened(range: Option<(Timestamp, Timestamp)>, t: Timestamp) -> (wider: Option<
    (Timestamp, Timestamp),
>)
    ensures
        range_view(wider) == Some(
            match range_view(range) {
                Some((a, b)) => (
                    if a <= t@ {
                        a
                    } else {
                        t@
                    },
                    if b >= t@ {
                        b
                    } else {
                        t@
                    },
                ),
                None => (t@, t@),
            },
        ),
{
    match range {
        Some((a, b)) => Some((earlier_of(a, t), later_of(b, t))),
        None => Some((t, t)),
    }
}

/// Parsed logs from multiple collators, in the order of their names.
pub struct MultiCollatorLogs {
    collators: Vec<CollatorLog>,
}

impl View for MultiCollatorLogs {
    type V = Seq<CollatorLogView>;

    closed spec fn view(&self) -> Seq<CollatorLogView> {
        views(self.collators@)
    }
}

/// Whether the names ascend; then no name occurs twice.
pub open spec fn names_ascend(logs: Seq<CollatorLogView>) -> bool {
    forall|i: int, j: int|
        0 <= i < j < logs.len() ==> text_before(#[trigger] logs[i].name, #[trigger] logs[j].name)
}

/// The position of a collator's log.
pub open spec fn position_of(logs: Seq<CollatorLogView>, name: Seq<char>) -> Option<int> {
    first_where(logs.len(), |i: int| logs[i].name == name)
}

/// The position of the first collator whose name comes behind `name`.
pub open spec fn place_for(logs: Seq<CollatorLogView>, name: Seq<char>) -> int {
    match first_where(logs.len(), |i: int| text_before(name, logs[i].name)) {
        Some(i) => i,
        None => logs.len() as int,
    }
}

/// The logs with the log of one more collator, in place of an earlier one of that name.
pub open spec fn with_log(
    logs: Seq<CollatorLogView>,
    name: Seq<char>,
    log: ParsedLogView,
) -> Seq<CollatorLogView> {
    let entry = CollatorLogView { name, log };
    match position_of(logs, name) {
        Some(i) => logs.update(i, entry),
        None => logs.insert(place_for(logs, name), entry),
    }
}

/// The lowest and highest relay block of the first `n` logs.
pub open spec fn relay_range_of(logs: Seq<CollatorLogView>, n: nat) -> Option<(int, int)>
    decreases n,
{
    if n == 0 {
        None
    } else {
        let before = relay_range_of(logs, (n - 1) as nat);
        match (min_relay(logs[n - 1].log), max_relay(logs[n - 1].log)) {
            (Some(lo), Some(hi)) => Some(joined(before, lo, hi)),
            _ => before,
        }
    }
}

/// The earliest and latest time of the first `n` logs.
pub open spec fn times_of(logs: Seq<CollatorLogView>, n: nat) -> Option<(int, int)>
    decreases n,
{
    if n == 0 {
        None
    } else {
        let before = times_of(logs, (n - 1) as nat);
        match log_time_range(logs[n - 1].log) {
            Some((lo, hi)) => Some(joined(before, lo, hi)),
            None => before,
        }
    }
}

/// The least range that covers another range, if there is one, and `lo` and `hi`.
pub open spec fn joined(range: Option<(int, int)>, lo: int, hi: int) -> (int, int) {
    match range {
        Some((a, b)) => (
            if a <= lo {
                a
            } else {
                lo
            },
            if b >= hi {
                b
            } else {
                hi
            },
        ),
        None => (lo, hi),
    }
}

/// A new log goes to its place: the names still ascend, the log is found under its name, and every
/// other log is as it was.
pub proof fn with_log_places(logs: Seq<CollatorLogView>, name: Seq<char>, log: ParsedLogView)
    requires
        names_ascend(logs),
    ensures
        names_ascend(with_log(logs, name, log)),
        position_of(with_log(logs, name, log), name) matches Some(i) && with_log(logs, name, log)[i]
            == (CollatorLogView { name, log }),
        forall|e: CollatorLogView|
            e.name != name ==> (#[trigger] with_log(logs, name, log).contains(e) <==> logs.contains(
                e,
            )),
{
    let entry = CollatorLogView { name, log };
    let out = with_log(logs, name, log);
    let same = |i: int| logs[i].name == name;
    let behind = |i: int| text_before(name, logs[i].name);
    crate::search::first_where_is_first(logs.len(), same);
    crate::search::first_where_is_first(logs.len(), behind);
    let at: int = match position_of(logs, name) {
        Some(i) => i,
        None => place_for(logs, name),
    };
    assert(out[at] == entry);
    match position_of(logs, name) {
        Some(i) => {
            assert(same(i));
            assert forall|a: int, b: int| 0 <= a < b < out.len() implies text_before(
                #[trigger] out[a].name,
                #[trigger] out[b].name,
            ) by {
                assert(out[a].name == logs[a].name && out[b].name == logs[b].name);
            }
            assert forall|e: CollatorLogView| e.name != name implies (#[trigger] out.contains(e)
                <==> logs.contains(e)) by {
                if out.contains(e) {
                    let k = choose|k: int| 0 <= k < out.len() && out[k] == e;
                    assert(logs[k] == e);
                }
                if logs.contains(e) {
                    let k = choose|k: int| 0 <= k < logs.len() && logs[k] == e;
                    assert(out[k] == e);
                }
            }
        },
        None => {
            assert forall|a: int| 0 <= a < at implies text_before(
                #[trigger] logs[a].name,
                name,
            ) by {
                assert(!behind(a) && !same(a));
                crate::text::text_order_is_total(name, logs[a].name);
            }
            assert forall|a: int| at <= a < logs.len() implies text_before(
                name,
                #[trigger] logs[a].name,
            ) by {
                assert(behind(at));
                if a > at {
                    crate::text::text_order_is_transitive(name, logs[at].name, logs[a].name);
                }
            }
            assert forall|a: int, b: int| 0 <= a < b < out.len() implies text_before(
                #[trigger] out[a].name,
                #[trigger] out[b].name,
            ) by {
                let x = if a < at {
                    a
                } else {
                    a - 1
                };
                let y = if b < at {
                    b
                } else {
                    b - 1
                };
                if a == at {
                    assert(out[b] == logs[y]);
                } else if b == at {
                    assert(out[a] == logs[x]);
                } else {
                    assert(out[a] == logs[x] && out[b] == logs[y]);
                }
            }
            assert forall|e: CollatorLogView| e.name != name implies (#[trigger] out.contains(e)
                <==> logs.contains(e)) by {
                if out.contains(e) {
                    let k = choose|k: int| 0 <= k < out.len() && out[k] == e;
                    if k < at {
                        assert(logs[k] == e);
                    } else {
                        assert(logs[k - 1] == e);
                    }
                }
                if logs.contains(e) {
                    let k = choose|k: int| 0 <= k < logs.len() && logs[k] == e;
                    if k < at {
                        assert(out[k] == e);
                    } else {
                        assert(out[k + 1] == e);
                    }
                }
            }
        },
    }
    let named = |i: int| out[i].name == name;
    crate::search::first_where_is_first(out.len(), named);
    assert(named(at));
    match position_of(out, name) {
        Some(k) => {
            assert(named(k));
            if k != at {
                crate::text::text_order_is_total(out[k].name, out[at].name);
                assert(text_before(out[k].name, out[at].name) || text_before(
                    out[at].name,
                    out[k].name,
                ));
            }
        },
        None => {
            assert(!named(at));
        },
    }
}

impl MultiCollatorLogs {
    /// The names ascend, and each registry is well formed.
    pub closed spec fn wf(&self) -> bool {
        &&& names_ascend(self@)
        &&& forall|i: int|
            0 <= i < self.collators@.len() ==> (
            #[trigger] self.collators@[i]).log.hash_registry.wf()
    }

    /// The collators stand in the order of their names, each name once.
    pub proof fn names_are_in_order(&self)
        requires
            self.wf(),
        ensures
            names_ascend(self@),
    {
    }

    /// No logs.
    pub fn new() -> (multi: Self)
        ensures
            multi@ == Seq::<CollatorLogView>::empty(),
            multi.wf(),
    {
        let multi = MultiCollatorLogs { collators: Vec::new() };
        assert(multi@ =~= Seq::<CollatorLogView>::empty());
        multi
    }

    /// How many collators there are.
    pub fn len(&self) -> (n: usize)
        ensures
            n == self@.len(),
    {
        self.collators.len()
    }

    /// The name of the `i`-th collator.
    pub fn name(&self, i: usize) -> (name: &String)
        requires
            i < self@.len(),
        ensures
            name@ == self@[i as int].name,
    {
        &self.collators[i].name
    }

    /// The log of the `i`-th collator.
    pub fn log(&self, i: usize) -> (log: &ParsedLog)
        requires
            i < self@.len(),
            self.wf(),
        ensures
            log@ == self@[i as int].log,
            log.hash_registry.wf(),
    {
        &self.collators[i].log
    }

    /// Adds the log of a collator, in place of an earlier one of that name.
    pub fn insert(&mut self, name: String, log: ParsedLog)
        requires
            old(self).wf(),
            log.hash_registry.wf(),
        ensures
            final(self)@ == with_log(old(self)@, name@, log@),
            final(self).wf(),
    {
        proof {
            with_log_places(self@, name@, log@);
            crate::search::first_where_is_first(
                self@.len(),
                |i: int| self@[i].name == name@,
            );
            crate::search::first_where_is_first(
                self@.len(),
                |i: int| text_before(name@, self@[i].name),
            );
        }
        let ghost before = self@;
        let ghost same = |i: int| before[i].name == name@;
        let ghost behind = |i: int| text_before(name@, before[i].name);
        let mut i: usize = 0;
        let mut place: Option<usize> = None;
        while i < self.collators.len()
            invariant
                i <= self.collators@.len(),
                self@ == before,
                *self == *old(self),
                match place {
                    Some(p) => first_where(i as nat, behind) == Some(p as int) && p < i,
                    None => first_where(i as nat, behind) is None,
                },
                first_where(i as nat, same) is None,
                same == (|i: int| before[i].name == name@),
                behind == (|i: int| text_before(name@, before[i].name)),
                position_of(before, name@) == first_where(before.len(), same),
                with_log(before, name@, log@) == with_log(old(self)@, name@, log@),
                old(self).wf(),
                log.hash_registry.wf(),
                names_ascend(with_log(before, name@, log@)),
                before == old(self)@,
            decreases self.collators@.len() - i,
        {
            assert(before[i as int] == self.collators@[i as int]@);
            if self.collators[i].name == name {
                let ghost entry = CollatorLogView { name: name@, log: log@ };
                proof {
                    crate::search::first_where_stays(before.len(), (i + 1) as nat, same);
                    assert(first_where(before.len(), same) == Some(i as int));
                }
                let item = CollatorLog { name, log };
                let ghost vec = self.collators@;
                self.collators[i] = item;
                proof {
                    assert(self.collators@ == vec.update(i as int, item));
                    assert(self@ =~= before.update(i as int, entry));
                }
                return;
            }
            if place.is_none() && comes_before(name.as_str(), self.collators[i].name.as_str()) {
                place = Some(i);
            }
            i = i + 1;
        }
        let p = match place {
            Some(p) => p,
            None => self.collators.len(),
        };
        let ghost entry = CollatorLogView { name: name@, log: log@ };
        let item = CollatorLog { name, log };
        let ghost vec = self.collators@;
        self.collators.insert(p, item);
        proof {
            assert(self.collators@ == vec.insert(p as int, item));
            assert(self@ =~= before.insert(p as int, entry));
            assert forall|k: int| 0 <= k < self.collators@.len() implies (
            #[trigger] self.collators@[k]).log.hash_registry.wf() by {
                if k < p {
                    assert(self.collators@[k] == vec[k]);
                } else if k > p {
                    assert(self.collators@[k] == vec[k - 1]);
                }
            }
        }
    }

    /// The names of the collators.
    pub fn collator_names(&self) -> (names: Vec<String>)
        ensures
            views(names@) == self@.map_values(|c: CollatorLogView| c.name),
    {
        let mut names: Vec<String> = Vec::new();
        let mut i: usize = 0;
        while i < self.collators.len()
            invariant
                i <= self.collators@.len(),
                names@.len() == i,
                forall|k: int| 0 <= k < i ==> #[trigger] names@[k]@ == self@[k].name,
            decreases self.collators@.len() - i,
        {
            names.push(self.collators[i].name.clone());
            i = i + 1;
        }
        assert(views(names@) =~= self@.map_values(|c: CollatorLogView| c.name));
        names
    }

    /// The lowest and highest relay block across all collators.
    pub fn relay_block_range(&self) -> (range: Option<(u32, u32)>)
        ensures
            match range {
                Some((lo, hi)) => relay_range_of(self@, self@.len()) == Some(
                    (lo as int, hi as int),
                ),
                None => relay_range_of(self@, self@.len()) is None,
            },
    {
        let mut range: Option<(u32, u32)> = None;
        let mut i: usize = 0;
        while i < self.collators.len()
            invariant
                i <= self.collators@.len(),
                match range {
                    Some((lo, hi)) => relay_range_of(self@, i as nat) == Some(
                        (lo as int, hi as int),
                    ),
                    None => relay_range_of(self@, i as nat) is None,
                },
            decreases self.collators@.len() - i,
        {
            let log = &self.collators[i].log;
            assert(self@[i as int].log == log@);
            if let (Some(lo), Some(hi)) = (log.min_relay_block(), log.max_relay_block()) {
                range = match range {
                    Some((a, b)) => Some(
                        (
                            if a <= lo {
                                a
                            } else {
                                lo
                            },
                            if b >= hi {
                                b
                            } else {
                                hi
                            },
                        ),
                    ),
                    None => Some((lo, hi)),
                };
            }
            i = i + 1;
        }
        range
    }

    /// The earliest and latest time across all collators.
    pub fn time_range(&self) -> (range: Option<(Timestamp, Timestamp)>)
        ensures
            range_view(range) == times_of(self@, self@.len()),
    {
        let mut range: Option<(Timestamp, Timestamp)> = None;
        let mut i: usize = 0;
        while i < self.collators.len()
            invariant
                i <= self.collators@.len(),
                range_view(range) == times_of(self@, i as nat),
            decreases self.collators@.len() - i,
        {
            let log = &self.collators[i].log;
            assert(self@[i as int].log == log@);
            if let Some((lo, hi)) = log.time_range() {
                range = match range {
                    Some((a, b)) => Some((earlier_of(a, lo), later_of(b, hi))),
                    None => Some((lo, hi)),
                };
            }
            i = i + 1;
        }
        range
    }
}

} // verus!
