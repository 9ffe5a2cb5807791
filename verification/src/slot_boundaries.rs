//! Slot boundaries: where one collator's slot ends and the next collator's slot begins.

use crate::logs::MultiCollatorLogs;
use crate::model::{opt_view, views, views_push};
use crate::search::{
    add_ascending, count_where, count_where_bound, distinct_values, first_min, first_where,
    first_where_stays, greatest_of, ints, least_of, positions, sort_order, stable_order, sum_of,
    with_value, with_value_adds,
};
use crate::time::{elapsed, Timestamp};
use crate::types::{
    BuildAttempt, BuildAttemptView, CollatorLogView, ParsedLog, ParsedLogView, PreSealedBlock,
    PreSealedBlockView, Ratio, SlotBoundaryAnalysis, SlotBoundaryAnalysisView, SlotBoundaryDetail,
    SlotBoundaryDetailView,
};
use vstd::prelude::*;

verus! {

/// How long, in milliseconds, a block may take from the decision to build to the seal.
pub const SEAL_WINDOW_MS: i64 = 5000;

/// The height of the block that a decision to build leads to.
pub open spec fn height_of(ba: BuildAttemptView) -> u64 {
    (ba.included_num + ba.unincluded_segment_len + 1) as u64
}

/// The height of the block that a decision to build leads to.
pub fn build_height(ba: &BuildAttempt) -> (height: u64)
    ensures
        height == height_of(ba@),
{
    ba.included_num as u64 + ba.unincluded_segment_len as u64 + 1
}

/// Whether a seal follows a decision to build within some milliseconds.
pub open spec fn follows(ps: PreSealedBlockView, ba: BuildAttemptView, within: int) -> bool {
    ba.building && 0 <= elapsed(ba.timestamp, ps.timestamp) < within
}

/// Whether decision `i` is one to build in a slot.
pub open spec fn in_slot(log: ParsedLogView, slot: u64, i: int) -> bool {
    log.build_attempts[i].building && log.build_attempts[i].slot == slot
}

/// By which the decision for a seal is chosen: the time from the decision, then the slot.
pub open spec fn seal_rank(ps: PreSealedBlockView, ba: BuildAttemptView) -> int {
    elapsed(ba.timestamp, ps.timestamp) * 0x1_0000_0000_0000_0000 + ba.slot
}

/// The slot that a seal belongs to: that of the nearest decision to build before it, the lower one
/// where two are equally near.
pub open spec fn slot_of_seal(log: ParsedLogView, ps: PreSealedBlockView) -> Option<u64> {
    match first_min(
        log.build_attempts.len(),
        |i: int| follows(ps, log.build_attempts[i], SEAL_WINDOW_MS as int),
        |i: int| seal_rank(ps, log.build_attempts[i]),
    ) {
        Some(i) => Some(log.build_attempts[i].slot),
        None => None,
    }
}

/// What a collator built in one slot.
#[verifier::ext_equal]
pub struct BurstView {
    pub slot: u64,
    pub collator: Seq<char>,
    pub rp: u32,
    pub first_build_time: int,
    pub last_seal_time: int,
    pub heights: Seq<u64>,
}

/// The relay parent of the first decision to build in a slot.
pub open spec fn slot_rp(log: ParsedLogView, slot: u64) -> u32 {
    log.build_attempts[first_where(
        log.build_attempts.len(),
        |i: int| in_slot(log, slot, i),
    )->0].relay_parent_num
}

/// The earliest time of a decision to build in a slot.
pub open spec fn slot_start(log: ParsedLogView, slot: u64) -> int {
    log.build_attempts[first_min(
        log.build_attempts.len(),
        |i: int| in_slot(log, slot, i),
        |i: int| log.build_attempts[i].timestamp,
    )->0].timestamp
}

/// The latest time of a seal that belongs to a slot; the start of the slot where there is none.
pub open spec fn slot_end(log: ParsedLogView, slot: u64) -> int {
    match first_min(
        log.pre_sealed.len(),
        |j: int| slot_of_seal(log, log.pre_sealed[j]) == Some(slot),
        |j: int| -log.pre_sealed[j].timestamp,
    ) {
        Some(j) => log.pre_sealed[j].timestamp,
        None => slot_start(log, slot),
    }
}

/// The heights that were built in a slot, ascending.
pub open spec fn slot_heights(log: ParsedLogView, slot: u64) -> Seq<u64> {
    distinct_values(
        log.build_attempts.len(),
        |i: int| in_slot(log, slot, i),
        |i: int| height_of(log.build_attempts[i]),
    )
}

/// What a collator built in one slot.
pub open spec fn burst_of(c: CollatorLogView, slot: u64) -> BurstView {
    BurstView {
        slot,
        collator: c.name,
        rp: slot_rp(c.log, slot),
        first_build_time: slot_start(c.log, slot),
        last_seal_time: slot_end(c.log, slot),
        heights: slot_heights(c.log, slot),
    }
}

/// Whether a collator decided to build in a slot.
pub open spec fn builds_in(log: ParsedLogView, slot: u64) -> bool {
    first_where(log.build_attempts.len(), |i: int| in_slot(log, slot, i)) is Some
}

/// The first collator that built in a slot.
pub open spec fn slot_owner(multi: Seq<CollatorLogView>, slot: u64) -> Option<int> {
    first_where(multi.len(), |c: int| builds_in(multi[c].log, slot))
}

/// `slots` with the slots of the first `n` decisions to build.
pub open spec fn with_slots(slots: Seq<u64>, log: ParsedLogView, n: nat) -> Seq<u64>
    decreases n,
{
    if n == 0 {
        slots
    } else {
        let before = with_slots(slots, log, (n - 1) as nat);
        if log.build_attempts[n - 1].building {
            with_value(before, log.build_attempts[n - 1].slot)
        } else {
            before
        }
    }
}

/// The slots that the first `n` collators built in, ascending.
pub open spec fn slots_among(multi: Seq<CollatorLogView>, n: nat) -> Seq<u64>
    decreases n,
{
    if n == 0 {
        Seq::empty()
    } else {
        with_slots(
            slots_among(multi, (n - 1) as nat),
            multi[n - 1].log,
            multi[n - 1].log.build_attempts.len(),
        )
    }
}

proof fn with_slots_adds(slots: Seq<u64>, log: ParsedLogView, n: nat)
    requires
        crate::search::strictly_ascending(slots),
    ensures
        crate::search::strictly_ascending(with_slots(slots, log, n)),
        forall|s: u64| #[trigger]
            with_slots(slots, log, n).contains(s) <==> slots.contains(s) || first_where(
                n,
                |i: int| in_slot(log, s, i),
            ) is Some,
    decreases n,
{
    if n > 0 {
        with_slots_adds(slots, log, (n - 1) as nat);
        let before = with_slots(slots, log, (n - 1) as nat);
        if log.build_attempts[n - 1].building {
            with_value_adds(before, log.build_attempts[n - 1].slot);
        }
    }
}

/// The slots are those that a collator built in, each once, in ascending order.
pub proof fn slots_are_built_in(multi: Seq<CollatorLogView>, n: nat)
    requires
        n <= multi.len(),
    ensures
        crate::search::strictly_ascending(slots_among(multi, n)),
        forall|s: u64| #[trigger]
            slots_among(multi, n).contains(s) <==> first_where(
                n,
                |c: int| builds_in(multi[c].log, s),
            ) is Some,
    decreases n,
{
    if n > 0 {
        slots_are_built_in(multi, (n - 1) as nat);
        with_slots_adds(
            slots_among(multi, (n - 1) as nat),
            multi[n - 1].log,
            multi[n - 1].log.build_attempts.len(),
        );
    }
}

/// What was built in each slot, by slot: by the first collator that built in it.
pub open spec fn bursts_of(multi: Seq<CollatorLogView>) -> Seq<BurstView> {
    let slots = slots_among(multi, multi.len());
    Seq::new(slots.len(), |k: int| burst_of(multi[slot_owner(multi, slots[k])->0], slots[k]))
}

/// How many heights are in both of two lists.
pub open spec fn overlap_of(a: Seq<u64>, b: Seq<u64>) -> nat {
    count_where(a.len(), |i: int| b.contains(a[i]))
}

/// The boundary between two slots.
pub open spec fn boundary_of(out: BurstView, inc: BurstView) -> SlotBoundaryDetailView {
    SlotBoundaryDetailView {
        outgoing_slot: out.slot,
        incoming_slot: inc.slot,
        outgoing_collator: out.collator,
        incoming_collator: inc.collator,
        outgoing_seal_time: out.last_seal_time,
        incoming_build_time: inc.first_build_time,
        propagation_gap_ms: elapsed(out.last_seal_time, inc.first_build_time) as i64,
        overlap_count: overlap_of(out.heights, inc.heights) as u32,
        outgoing_rp: out.rp,
        incoming_rp: inc.rp,
    }
}

/// The boundaries between different collators among the first `n` pairs of consecutive slots.
pub open spec fn boundaries_among(bursts: Seq<BurstView>, n: nat) -> Seq<SlotBoundaryDetailView>
    decreases n,
{
    if n == 0 {
        Seq::empty()
    } else {
        let before = boundaries_among(bursts, (n - 1) as nat);
        if bursts[n - 1].collator != bursts[n as int].collator {
            before.push(boundary_of(bursts[n - 1], bursts[n as int]))
        } else {
            before
        }
    }
}

/// The boundaries between different collators, by slot.
pub open spec fn boundaries_of(multi: Seq<CollatorLogView>) -> Seq<SlotBoundaryDetailView> {
    let bursts = bursts_of(multi);
    if bursts.len() == 0 {
        Seq::empty()
    } else {
        boundaries_among(bursts, (bursts.len() - 1) as nat)
    }
}

/// Every boundary is between two different collators, and from a lower to a higher slot.
pub proof fn boundaries_are_between_collators(multi: Seq<CollatorLogView>)
    ensures
        forall|k: int|
            0 <= k < boundaries_of(multi).len() ==> {
                let b = #[trigger] boundaries_of(multi)[k];
                b.outgoing_collator != b.incoming_collator && b.outgoing_slot < b.incoming_slot
            },
{
    let bursts = bursts_of(multi);
    slots_are_built_in(multi, multi.len());
    let slots = slots_among(multi, multi.len());
    assert forall|i: int, j: int| 0 <= i < j < bursts.len() implies (#[trigger] bursts[i]).slot < (
    #[trigger] bursts[j]).slot by {
        assert(slots[i] < slots[j]);
    }
    if bursts.len() > 0 {
        boundaries_ascend(bursts, (bursts.len() - 1) as nat);
    }
}

proof fn boundaries_ascend(bursts: Seq<BurstView>, n: nat)
    requires
        n < bursts.len(),
        forall|i: int, j: int|
            0 <= i < j < bursts.len() ==> (#[trigger] bursts[i]).slot < (#[trigger] bursts[j]).slot,
    ensures
        forall|k: int|
            0 <= k < boundaries_among(bursts, n).len() ==> {
                let b = #[trigger] boundaries_among(bursts, n)[k];
                b.outgoing_collator != b.incoming_collator && b.outgoing_slot < b.incoming_slot
            },
    decreases n,
{
    if n > 0 {
        boundaries_ascend(bursts, (n - 1) as nat);
        assert(bursts[n - 1].slot < bursts[n as int].slot);
        let before = boundaries_among(bursts, (n - 1) as nat);
        assert forall|k: int| 0 <= k < boundaries_among(bursts, n).len() implies {
            let b = #[trigger] boundaries_among(bursts, n)[k];
            b.outgoing_collator != b.incoming_collator && b.outgoing_slot < b.incoming_slot
        } by {
            if k < before.len() {
                assert(boundaries_among(bursts, n)[k] == before[k]);
            }
        }
    }
}

// ---- Aggregates ----
/// How many boundaries have an overlap.
pub open spec fn overlapping(b: Seq<SlotBoundaryDetailView>, n: nat) -> nat {
    count_where(n, |i: int| b[i].overlap_count > 0)
}

/// How many boundaries have relay parents more than one block apart.
pub open spec fn rp_jumps(b: Seq<SlotBoundaryDetailView>, n: nat) -> nat {
    count_where(n, |i: int| b[i].incoming_rp - b[i].outgoing_rp > 1 || b[i].outgoing_rp
        - b[i].incoming_rp > 1)
}

/// The propagation gaps.
pub open spec fn gaps_of(b: Seq<SlotBoundaryDetailView>) -> Seq<int> {
    Seq::new(b.len(), |i: int| b[i].propagation_gap_ms as int)
}

/// Counts, averages and extremes of boundaries; the median is the gap in the middle of the
/// ordered gaps.
pub open spec fn aggregate(b: Seq<SlotBoundaryDetailView>) -> SlotBoundaryAnalysisView {
    let n = b.len();
    let gaps = gaps_of(b);
    let gap = |i: int| b[i].propagation_gap_ms as int;
    let overlap = |i: int| b[i].overlap_count as int;
    SlotBoundaryAnalysisView {
        boundaries: b,
        boundaries_with_overlap: overlapping(b, n) as usize,
        boundaries_without_overlap: (n - overlapping(b, n)) as usize,
        avg_propagation_gap_ms: if n == 0 {
            Ratio { num: 0, den: 1 }
        } else {
            Ratio { num: sum_of(n, gap) as i128, den: n as u128 }
        },
        median_propagation_gap_ms: if n == 0 {
            0
        } else {
            gaps[sort_order(gaps)[n as int / 2]] as i64
        },
        min_propagation_gap_ms: match least_of(n, gap) {
            Some(m) => m as i64,
            None => 0,
        },
        max_propagation_gap_ms: match greatest_of(n, gap) {
            Some(m) => m as i64,
            None => 0,
        },
        avg_overlap_count: if overlapping(b, n) == 0 {
            Ratio { num: 0, den: 1 }
        } else {
            Ratio { num: sum_of(n, overlap) as i128, den: overlapping(b, n) as u128 }
        },
        max_overlap_count: match greatest_of(n, overlap) {
            Some(m) => m as u32,
            None => 0,
        },
        relay_parent_gaps: rp_jumps(b, n) as usize,
    }
}

/// The analysis of the slot boundaries.
pub open spec fn slot_analysis(multi: Seq<CollatorLogView>) -> SlotBoundaryAnalysisView {
    aggregate(boundaries_of(multi))
}

/// Every boundary is with or without overlap; the two counts add up.
pub proof fn overlap_counts_add_up(multi: Seq<CollatorLogView>)
    requires
        boundaries_of(multi).len() <= usize::MAX,
    ensures
        slot_analysis(multi).boundaries_with_overlap + slot_analysis(
            multi,
        ).boundaries_without_overlap == slot_analysis(multi).boundaries.len(),
{
    let b = boundaries_of(multi);
    count_where_bound(b.len(), |i: int| b[i].overlap_count > 0);
}

// ---- Reading the logs ----
struct Burst {
    slot: u64,
    collator: String,
    rp: u32,
    first_build_time: Timestamp,
    last_seal_time: Timestamp,
    heights: Vec<u64>,
}

impl View for Burst {
    type V = BurstView;

    closed spec fn view(&self) -> BurstView {
        BurstView {
            slot: self.slot,
            collator: self.collator@,
            rp: self.rp,
            first_build_time: self.first_build_time@,
            last_seal_time: self.last_seal_time@,
            heights: self.heights@,
        }
    }
}

fn find_slot_of_seal(log: &ParsedLog, seal: &PreSealedBlock) -> (slot: Option<u64>)
    ensures
        slot == slot_of_seal(log@, seal@),
{
    let ghost ps = seal@;
    let ghost ok = |i: int| follows(ps, log@.build_attempts[i], SEAL_WINDOW_MS as int);
    let ghost rank = |i: int| seal_rank(ps, log@.build_attempts[i]);
    let mut best: Option<(u64, i64)> = None;
    let mut i: usize = 0;
    while i < log.build_attempts.len()
        invariant
            i <= log.build_attempts@.len(),
            ps == seal@,
            ok == (|i: int| follows(ps, log@.build_attempts[i], SEAL_WINDOW_MS as int)),
            rank == (|i: int| seal_rank(ps, log@.build_attempts[i])),
            match first_min(i as nat, ok, rank) {
                Some(b) => 0 <= b < i && best == Some(
                    (
                        log@.build_attempts[b].slot,
                        elapsed(log@.build_attempts[b].timestamp, ps.timestamp) as i64,
                    ),
                ) && ok(b),
                None => best is None,
            },
        decreases log.build_attempts@.len() - i,
    {
        let attempt = &log.build_attempts[i];
        assert(log@.build_attempts[i as int] == attempt@);
        if attempt.building {
            let dt = seal.timestamp.since(&attempt.timestamp);
            if dt >= 0 && dt < SEAL_WINDOW_MS {
                best = match best {
                    Some((slot, d)) => if dt < d || (dt == d && attempt.slot < slot) {
                        Some((attempt.slot, dt))
                    } else {
                        Some((slot, d))
                    },
                    None => Some((attempt.slot, dt)),
                };
            }
        }
        i = i + 1;
    }
    match best {
        Some((slot, _)) => Some(slot),
        None => None,
    }
}

/// The slots that the seals of a log belong to.
pub open spec fn seal_slots(log: ParsedLogView) -> Seq<Option<u64>> {
    Seq::new(log.pre_sealed.len(), |j: int| slot_of_seal(log, log.pre_sealed[j]))
}

fn slots_of_seals(log: &ParsedLog) -> (slots: Vec<Option<u64>>)
    ensures
        slots@ == seal_slots(log@),
{
    let mut slots: Vec<Option<u64>> = Vec::new();
    let mut j: usize = 0;
    while j < log.pre_sealed.len()
        invariant
            j <= log.pre_sealed@.len(),
            slots@ == seal_slots(log@).take(j as int),
        decreases log.pre_sealed@.len() - j,
    {
        let slot = find_slot_of_seal(log, &log.pre_sealed[j]);
        assert(log@.pre_sealed[j as int] == log.pre_sealed@[j as int]@);
        assert(seal_slots(log@).take(j + 1) =~= seal_slots(log@).take(j as int).push(slot));
        slots.push(slot);
        j = j + 1;
    }
    assert(seal_slots(log@).take(j as int) =~= seal_slots(log@));
    slots
}

fn builds_in_slot(log: &ParsedLog, slot: u64) -> (yes: bool)
    ensures
        yes == builds_in(log@, slot),
{
    let ghost ok = |i: int| in_slot(log@, slot, i);
    let mut i: usize = 0;
    while i < log.build_attempts.len()
        invariant
            i <= log.build_attempts@.len(),
            ok == (|i: int| in_slot(log@, slot, i)),
            first_where(i as nat, ok) is None,
        decreases log.build_attempts@.len() - i,
    {
        assert(log@.build_attempts[i as int] == log.build_attempts@[i as int]@);
        if log.build_attempts[i].building && log.build_attempts[i].slot == slot {
            proof {
                first_where_stays(log@.build_attempts.len(), (i + 1) as nat, ok);
            }
            return true;
        }
        i = i + 1;
    }
    false
}

fn find_slot_end(log: &ParsedLog, seals: &Vec<Option<u64>>, slot: u64, start: Timestamp) -> (end:
    Timestamp)
    requires
        seals@ == seal_slots(log@),
        start@ == slot_start(log@, slot),
    ensures
        end@ == slot_end(log@, slot),
{
    let ghost ok = |j: int| slot_of_seal(log@, log@.pre_sealed[j]) == Some(slot);
    let ghost key = |j: int| -log@.pre_sealed[j].timestamp;
    let mut end: Option<Timestamp> = None;
    let mut j: usize = 0;
    while j < log.pre_sealed.len()
        invariant
            j <= log.pre_sealed@.len(),
            seals@ == seal_slots(log@),
            ok == (|j: int| slot_of_seal(log@, log@.pre_sealed[j]) == Some(slot)),
            key == (|j: int| -log@.pre_sealed[j].timestamp),
            match first_min(j as nat, ok, key) {
                Some(b) => 0 <= b < j && opt_view(end) == Some(log@.pre_sealed[b].timestamp),
                None => end is None,
            },
        decreases log.pre_sealed@.len() - j,
    {
        assert(log@.pre_sealed[j as int] == log.pre_sealed@[j as int]@);
        if seals[j] == Some(slot) {
            let t = log.pre_sealed[j].timestamp;
            end = match end {
                Some(e) => if t.rank() > e.rank() {
                    Some(t)
                } else {
                    Some(e)
                },
                None => Some(t),
            };
        }
        j = j + 1;
    }
    match end {
        Some(e) => e,
        None => start,
    }
}

fn read_burst(name: &String, log: &ParsedLog, seals: &Vec<Option<u64>>, slot: u64) -> (burst: Burst)
    requires
        builds_in(log@, slot),
        seals@ == seal_slots(log@),
    ensures
        burst@ == burst_of(CollatorLogView { name: name@, log: log@ }, slot),
{
    let ghost ok = |i: int| in_slot(log@, slot, i);
    let ghost time = |i: int| log@.build_attempts[i].timestamp;
    let ghost height = |i: int| height_of(log@.build_attempts[i]);
    let mut found: Option<(u32, Timestamp)> = None;
    let mut heights: Vec<u64> = Vec::new();
    let mut i: usize = 0;
    while i < log.build_attempts.len()
        invariant
            i <= log.build_attempts@.len(),
            ok == (|i: int| in_slot(log@, slot, i)),
            time == (|i: int| log@.build_attempts[i].timestamp),
            height == (|i: int| height_of(log@.build_attempts[i])),
            heights@ == distinct_values(i as nat, ok, height),
            match found {
                Some((rp, t)) => first_where(i as nat, ok) is Some && first_min(
                    i as nat,
                    ok,
                    time,
                ) is Some && rp
                    == log@.build_attempts[first_where(i as nat, ok)->0].relay_parent_num && t@
                    == log@.build_attempts[first_min(i as nat, ok, time)->0].timestamp,
                None => first_where(i as nat, ok) is None && first_min(i as nat, ok, time) is None,
            },
        decreases log.build_attempts@.len() - i,
    {
        let attempt = &log.build_attempts[i];
        assert(log@.build_attempts[i as int] == attempt@);
        if attempt.building && attempt.slot == slot {
            add_ascending(&mut heights, build_height(attempt));
            found = match found {
                Some((rp, t)) => if attempt.timestamp.rank() < t.rank() {
                    Some((rp, attempt.timestamp))
                } else {
                    Some((rp, t))
                },
                None => Some((attempt.relay_parent_num, attempt.timestamp)),
            };
        }
        i = i + 1;
    }
    let (rp, first_build_time) = match found {
        Some((rp, t)) => (rp, t),
        None => {
            assert(false);
            (0, Timestamp::epoch())
        },
    };
    let last_seal_time = find_slot_end(log, seals, slot, first_build_time);
    Burst { slot, collator: name.clone(), rp, first_build_time, last_seal_time, heights }
}

fn add_slots(slots: &mut Vec<u64>, log: &ParsedLog)
    ensures
        final(slots)@ == with_slots(old(slots)@, log@, log@.build_attempts.len()),
{
    let mut i: usize = 0;
    while i < log.build_attempts.len()
        invariant
            i <= log.build_attempts@.len(),
            slots@ == with_slots(old(slots)@, log@, i as nat),
        decreases log.build_attempts@.len() - i,
    {
        assert(log@.build_attempts[i as int] == log.build_attempts@[i as int]@);
        if log.build_attempts[i].building {
            add_ascending(slots, log.build_attempts[i].slot);
        }
        i = i + 1;
    }
}

fn find_owner(multi: &MultiCollatorLogs, slot: u64) -> (owner: Option<usize>)
    requires
        multi.wf(),
    ensures
        match owner {
            Some(c) => slot_owner(multi@, slot) == Some(c as int) && c < multi@.len() && builds_in(
                multi@[c as int].log,
                slot,
            ),
            None => slot_owner(multi@, slot) is None,
        },
{
    let ghost ok = |c: int| builds_in(multi@[c].log, slot);
    let mut c: usize = 0;
    while c < multi.len()
        invariant
            c <= multi@.len(),
            multi.wf(),
            ok == (|c: int| builds_in(multi@[c].log, slot)),
            first_where(c as nat, ok) is None,
        decreases multi@.len() - c,
    {
        if builds_in_slot(multi.log(c), slot) {
            proof {
                first_where_stays(multi@.len(), (c + 1) as nat, ok);
            }
            return Some(c);
        }
        c = c + 1;
    }
    None
}

fn read_bursts(multi: &MultiCollatorLogs) -> (bursts: Vec<Burst>)
    requires
        multi.wf(),
    ensures
        views(bursts@) == bursts_of(multi@),
{
    let mut slots: Vec<u64> = Vec::new();
    let mut seals: Vec<Vec<Option<u64>>> = Vec::new();
    let mut c: usize = 0;
    while c < multi.len()
        invariant
            c <= multi@.len(),
            multi.wf(),
            slots@ == slots_among(multi@, c as nat),
            seals@.len() == c,
            forall|k: int| 0 <= k < c ==> (#[trigger] seals@[k])@ == seal_slots(multi@[k].log),
        decreases multi@.len() - c,
    {
        add_slots(&mut slots, multi.log(c));
        seals.push(slots_of_seals(multi.log(c)));
        c = c + 1;
    }
    let mut bursts: Vec<Burst> = Vec::new();
    let ghost all = bursts_of(multi@);
    assert(views(bursts@) =~= all.take(0));
    let mut k: usize = 0;
    while k < slots.len()
        invariant
            k <= slots@.len(),
            multi.wf(),
            slots@ == slots_among(multi@, multi@.len()),
            seals@.len() == multi@.len(),
            forall|k: int|
                0 <= k < multi@.len() ==> (#[trigger] seals@[k])@ == seal_slots(multi@[k].log),
            all == bursts_of(multi@),
            views(bursts@) == all.take(k as int),
        decreases slots@.len() - k,
    {
        let slot = slots[k];
        proof {
            slots_are_built_in(multi@, multi@.len());
            assert(slots@.contains(slot));
        }
        if let Some(c) = find_owner(multi, slot) {
            let burst = read_burst(multi.name(c), multi.log(c), &seals[c], slot);
            proof {
                assert(CollatorLogView { name: multi@[c as int].name, log: multi@[c as int].log }
                    == multi@[c as int]);
                views_push(bursts@, burst);
                assert(all.take(k + 1) =~= all.take(k as int).push(burst@));
            }
            bursts.push(burst);
        }
        k = k + 1;
    }
    assert(all.take(k as int) =~= all);
    bursts
}

fn has_value(v: &Vec<u64>, x: u64) -> (found: bool)
    ensures
        found == v@.contains(x),
{
    let mut i: usize = 0;
    while i < v.len()
        invariant
            i <= v@.len(),
            forall|k: int| 0 <= k < i ==> v@[k] != x,
        decreases v@.len() - i,
    {
        if v[i] == x {
            return true;
        }
        i = i + 1;
    }
    false
}

fn count_overlap(a: &Vec<u64>, b: &Vec<u64>) -> (n: usize)
    ensures
        n == overlap_of(a@, b@),
{
    let ghost ok = |i: int| b@.contains(a@[i]);
    let mut n: usize = 0;
    let mut i: usize = 0;
    while i < a.len()
        invariant
            i <= a@.len(),
            ok == (|i: int| b@.contains(a@[i])),
            n == count_where(i as nat, ok),
            n <= i,
        decreases a@.len() - i,
    {
        if has_value(b, a[i]) {
            n = n + 1;
        }
        i = i + 1;
    }
    n
}

fn read_boundaries(bursts: &Vec<Burst>) -> (boundaries: Vec<SlotBoundaryDetail>)
    ensures
        views(boundaries@) == if bursts@.len() == 0 {
            Seq::empty()
        } else {
            boundaries_among(views(bursts@), (bursts@.len() - 1) as nat)
        },
{
    let mut boundaries: Vec<SlotBoundaryDetail> = Vec::new();
    assert(views(boundaries@) =~= Seq::<SlotBoundaryDetailView>::empty());
    if bursts.len() == 0 {
        return boundaries;
    }
    let mut k: usize = 1;
    while k < bursts.len()
        invariant
            1 <= k <= bursts@.len(),
            views(boundaries@) == boundaries_among(views(bursts@), (k - 1) as nat),
        decreases bursts@.len() - k,
    {
        let out = &bursts[k - 1];
        let inc = &bursts[k];
        assert(views(bursts@)[k - 1] == out@ && views(bursts@)[k as int] == inc@);
        if out.collator != inc.collator {
            let detail = SlotBoundaryDetail {
                outgoing_slot: out.slot,
                incoming_slot: inc.slot,
                outgoing_collator: out.collator.clone(),
                incoming_collator: inc.collator.clone(),
                outgoing_seal_time: out.last_seal_time,
                incoming_build_time: inc.first_build_time,
                propagation_gap_ms: inc.first_build_time.since(&out.last_seal_time),
                overlap_count: count_overlap(&out.heights, &inc.heights) as u32,
                outgoing_rp: out.rp,
                incoming_rp: inc.rp,
            };
            proof {
                assert(detail@ =~= boundary_of(out@, inc@));
                views_push(boundaries@, detail);
            }
            boundaries.push(detail);
        }
        k = k + 1;
    }
    boundaries
}

/// A sum of fewer than 2^64 numbers of 64 bits fits into 128 bits.
proof fn sum_fits(i: int, n: int)
    requires
        0 <= i < n <= u64::MAX,
    ensures
        (i + 1) * 0x8000_0000_0000_0000 == i * 0x8000_0000_0000_0000 + 0x8000_0000_0000_0000,
        (i + 1) * 0x8000_0000_0000_0000 <= i128::MAX,
        0 <= i * 0x8000_0000_0000_0000,
{
}

/// Counts, averages and extremes of boundaries.
fn aggregate_boundaries(boundaries: Vec<SlotBoundaryDetail>) -> (analysis: SlotBoundaryAnalysis)
    ensures
        analysis@ == aggregate(views(boundaries@)),
{
    let ghost b = views(boundaries@);
    let ghost gap = |i: int| b[i].propagation_gap_ms as int;
    let ghost overlap = |i: int| b[i].overlap_count as int;
    let n = boundaries.len();
    let mut keys: Vec<i128> = Vec::new();
    let mut gap_sum: i128 = 0;
    let mut min_gap: i64 = 0;
    let mut max_gap: i64 = 0;
    let mut overlap_sum: i128 = 0;
    let mut max_overlap: u32 = 0;
    let mut with_overlap: usize = 0;
    let mut jumps: usize = 0;
    let mut i: usize = 0;
    while i < n
        invariant
            i <= n == boundaries@.len(),
            b == views(boundaries@),
            gap == (|i: int| b[i].propagation_gap_ms as int),
            overlap == (|i: int| b[i].overlap_count as int),
            keys@.len() == i,
            forall|k: int| 0 <= k < i ==> #[trigger] keys@[k] == b[k].propagation_gap_ms,
            gap_sum == sum_of(i as nat, gap),
            -(i * 0x8000_0000_0000_0000) <= gap_sum <= i * 0x8000_0000_0000_0000,
            overlap_sum == sum_of(i as nat, overlap),
            0 <= overlap_sum <= i * 0x8000_0000_0000_0000,
            i == 0 ==> min_gap == 0 && max_gap == 0 && max_overlap == 0,
            i > 0 ==> least_of(i as nat, gap) == Some(min_gap as int),
            i > 0 ==> greatest_of(i as nat, gap) == Some(max_gap as int),
            i > 0 ==> greatest_of(i as nat, overlap) == Some(max_overlap as int),
            with_overlap == overlapping(b, i as nat),
            with_overlap <= i,
            jumps == rp_jumps(b, i as nat),
            jumps <= i,
        decreases n - i,
    {
        let d = &boundaries[i];
        assert(b[i as int] == d@);
        proof {
            sum_fits(i as int, n as int);
        }
        keys.push(d.propagation_gap_ms as i128);
        gap_sum = gap_sum + d.propagation_gap_ms as i128;
        overlap_sum = overlap_sum + d.overlap_count as i128;
        if i == 0 || d.propagation_gap_ms < min_gap {
            min_gap = d.propagation_gap_ms;
        }
        if i == 0 || d.propagation_gap_ms > max_gap {
            max_gap = d.propagation_gap_ms;
        }
        if i == 0 || d.overlap_count > max_overlap {
            max_overlap = d.overlap_count;
        }
        if d.overlap_count > 0 {
            with_overlap = with_overlap + 1;
        }
        let step = d.incoming_rp as i64 - d.outgoing_rp as i64;
        if step > 1 || step < -1 {
            jumps = jumps + 1;
        }
        i = i + 1;
    }
    assert(ints(keys@) =~= gaps_of(b));
    let order = stable_order(&keys);
    let median_propagation_gap_ms = if n == 0 {
        0
    } else {
        assert(positions(order@)[n as int / 2] == order@[n as int / 2]);
        boundaries[order[n / 2]].propagation_gap_ms
    };
    let analysis = SlotBoundaryAnalysis {
        boundaries,
        boundaries_with_overlap: with_overlap,
        boundaries_without_overlap: n - with_overlap,
        avg_propagation_gap_ms: if n == 0 {
            Ratio { num: 0, den: 1 }
        } else {
            Ratio { num: gap_sum, den: n as u128 }
        },
        median_propagation_gap_ms,
        min_propagation_gap_ms: min_gap,
        max_propagation_gap_ms: max_gap,
        avg_overlap_count: if with_overlap == 0 {
            Ratio { num: 0, den: 1 }
        } else {
            Ratio { num: overlap_sum, den: with_overlap as u128 }
        },
        max_overlap_count: max_overlap,
        relay_parent_gaps: jumps,
    };
    assert(analysis@ =~= aggregate(b));
    analysis
}

/// Analyzes slot boundary transitions across all collators.
///
/// For each consecutive pair of slots of different collators, measures:
/// 1. Propagation delay: time between outgoing seal and incoming build start
/// 2. Overlap size: how many heights both collators built at
/// 3. Relay parent gap: whether the relay parent jumped by more than 1 (possible relay fork)
pub fn analyze_slot_boundaries(multi: &MultiCollatorLogs) -> (analysis: SlotBoundaryAnalysis)
    requires
        multi.wf(),
    ensures
        analysis@ == slot_analysis(multi@),
{
    let bursts = read_bursts(multi);
    aggregate_boundaries(read_boundaries(&bursts))
}

} // verus!
