//! What holds of slot boundaries, said of the decisions and seals of the collators themselves.

use crate::authorship_laws::precedes_seal;
use crate::search::{
    count_where, distinct_values_are_all, first_min, first_min_is_least, first_where,
    first_where_is_first, greatest_of_is_greatest, least_of_is_least, sort_order,
    sort_order_is_stable, strictly_ascending, sum_of,
};
use crate::selection::{picked, picked_selects, selection_counts, selects};
use crate::slot_boundaries::{
    boundaries_among, boundary_of, builds_in, burst_of, bursts_of, follows, gaps_of, height_of,
    in_slot, overlap_of, seal_rank, slot_analysis, slot_end, slot_heights, slot_of_seal, slot_owner,
    slot_rp, slot_start, slots_among, slots_are_built_in,
};
use crate::time::elapsed;
use crate::types::{CollatorLogView, ParsedLogView, PreSealedBlockView, SlotBoundaryDetailView};
use vstd::prelude::*;

verus! {

// ---- Slots ----
/// Whether decision `i` of a log is one to build in a slot.
pub open spec fn builds_at(log: ParsedLogView, slot: u64, i: int) -> bool {
    &&& 0 <= i < log.build_attempts.len()
    &&& log.build_attempts[i].building
    &&& log.build_attempts[i].slot == slot
}

/// Whether a collator built in a slot.
pub open spec fn used_slot(multi: Seq<CollatorLogView>, c: int, slot: u64) -> bool {
    0 <= c < multi.len() && exists|i: int| #[trigger] builds_at(multi[c].log, slot, i)
}

/// Whether a slot is told to be of a collator: the first one that built in it.
pub open spec fn owns_slot(multi: Seq<CollatorLogView>, c: int, slot: u64) -> bool {
    &&& used_slot(multi, c, slot)
    &&& forall|d: int| d < c ==> !(#[trigger] used_slot(multi, d, slot))
}

/// Whether `slots` are all the slots that a collator built in, each once, ascending.
pub open spec fn are_used_slots(multi: Seq<CollatorLogView>, slots: Seq<u64>) -> bool {
    &&& forall|a: int, b: int| 0 <= a < b < slots.len() ==> slots[a] < slots[b]
    &&& forall|s: u64| #[trigger]
        slots.contains(s) <==> exists|c: int| #[trigger] used_slot(multi, c, s)
}

/// Whether a relay parent is that of the first decision to build in a slot.
pub open spec fn is_slot_rp(log: ParsedLogView, slot: u64, rp: u32) -> bool {
    exists|i: int| #[trigger]
        builds_at(log, slot, i) && log.build_attempts[i].relay_parent_num == rp && forall|k: int|
            #[trigger] builds_at(log, slot, k) ==> i <= k
}

/// Whether a time is that of the earliest decision to build in a slot.
pub open spec fn is_slot_start(log: ParsedLogView, slot: u64, time: int) -> bool {
    &&& exists|i: int| #[trigger]
        builds_at(log, slot, i) && log.build_attempts[i].timestamp == time
    &&& forall|k: int| #[trigger]
        builds_at(log, slot, k) ==> time <= log.build_attempts[k].timestamp
}

/// Whether a seal belongs to a slot: that of the latest decision to build that precedes it by less
/// than five seconds, the lowest one where several are equally late.
pub open spec fn belongs_to(log: ParsedLogView, ps: PreSealedBlockView, slot: u64) -> bool {
    exists|i: int|
        #![trigger log.build_attempts[i]]
        {
            &&& 0 <= i < log.build_attempts.len()
            &&& precedes_seal(log.build_attempts[i], ps, 5000)
            &&& log.build_attempts[i].slot == slot
            &&& forall|k: int|
                0 <= k < log.build_attempts.len() && precedes_seal(
                    #[trigger] log.build_attempts[k],
                    ps,
                    5000,
                ) ==> {
                    let mine = elapsed(log.build_attempts[i].timestamp, ps.timestamp);
                    let other = elapsed(log.build_attempts[k].timestamp, ps.timestamp);
                    mine < other || (mine == other && slot <= log.build_attempts[k].slot)
                }
        }
}

/// Whether a time is that of the last seal that belongs to a slot, or of the start of the slot where
/// no seal does.
pub open spec fn is_slot_end(log: ParsedLogView, slot: u64, time: int) -> bool {
    ||| {
        &&& exists|j: int|
            0 <= j < log.pre_sealed.len() && belongs_to(log, #[trigger] log.pre_sealed[j], slot)
                && log.pre_sealed[j].timestamp == time
        &&& forall|j: int|
            0 <= j < log.pre_sealed.len() && belongs_to(log, #[trigger] log.pre_sealed[j], slot)
                ==> log.pre_sealed[j].timestamp <= time
    }
    ||| {
        &&& forall|j: int|
            0 <= j < log.pre_sealed.len() ==> !belongs_to(
                log,
                #[trigger] log.pre_sealed[j],
                slot,
            )
        &&& is_slot_start(log, slot, time)
    }
}

/// Whether a height was built at in a slot: one more than the included block and the blocks not yet
/// included, of a decision to build.
pub open spec fn built_height(log: ParsedLogView, slot: u64, height: int) -> bool {
    exists|i: int| #[trigger]
        builds_at(log, slot, i) && height == log.build_attempts[i].included_num
            + log.build_attempts[i].unincluded_segment_len + 1
}

/// Whether a boundary tells of the end of one collator's slot and the start of another one's.
pub open spec fn tells_of_slots(
    out: CollatorLogView,
    s: u64,
    inc: CollatorLogView,
    t: u64,
    b: SlotBoundaryDetailView,
) -> bool {
    &&& b.outgoing_slot == s
    &&& b.incoming_slot == t
    &&& b.outgoing_collator == out.name
    &&& b.incoming_collator == inc.name
    &&& is_slot_rp(out.log, s, b.outgoing_rp)
    &&& is_slot_rp(inc.log, t, b.incoming_rp)
    &&& is_slot_end(out.log, s, b.outgoing_seal_time)
    &&& is_slot_start(inc.log, t, b.incoming_build_time)
    &&& b.propagation_gap_ms == elapsed(b.outgoing_seal_time, b.incoming_build_time) as i64
    &&& forall|common: Set<u64>|
        (forall|h: u64| #[trigger]
            common.contains(h) <==> built_height(out.log, s, h as int) && built_height(
                inc.log,
                t,
                h as int,
            )) ==> #[trigger] common.finite() && b.overlap_count == common.len() as u32
}

proof fn use_means(multi: Seq<CollatorLogView>, c: int, slot: u64)
    requires
        0 <= c < multi.len(),
    ensures
        builds_in(multi[c].log, slot) == used_slot(multi, c, slot),
{
    let log = multi[c].log;
    let ok = |i: int| in_slot(log, slot, i);
    first_where_is_first(log.build_attempts.len(), ok);
    match first_where(log.build_attempts.len(), ok) {
        Some(i) => {
            assert(ok(i));
            assert(builds_at(log, slot, i));
        },
        None => {
            assert forall|i: int| !(#[trigger] builds_at(log, slot, i)) by {
                if builds_at(log, slot, i) {
                    assert(ok(i));
                }
            }
        },
    }
}

proof fn slots_mean(multi: Seq<CollatorLogView>)
    ensures
        are_used_slots(multi, slots_among(multi, multi.len())),
        forall|s: u64| #[trigger]
            slots_among(multi, multi.len()).contains(s) ==> slot_owner(multi, s) is Some
                && owns_slot(multi, slot_owner(multi, s)->0, s),
{
    let slots = slots_among(multi, multi.len());
    slots_are_built_in(multi, multi.len());
    assert forall|s: u64| #[trigger]
        slots.contains(s) <==> exists|c: int| #[trigger] used_slot(multi, c, s) by {
        let ok = |c: int| builds_in(multi[c].log, s);
        first_where_is_first(multi.len(), ok);
        if slots.contains(s) {
            let c = first_where(multi.len(), ok)->0;
            assert(ok(c));
            use_means(multi, c, s);
            assert(used_slot(multi, c, s));
        }
        if exists|c: int| #[trigger] used_slot(multi, c, s) {
            let c = choose|c: int| #[trigger] used_slot(multi, c, s);
            use_means(multi, c, s);
            assert(ok(c));
        }
    }
    assert forall|s: u64| #[trigger] slots.contains(s) implies slot_owner(multi, s) is Some
        && owns_slot(multi, slot_owner(multi, s)->0, s) by {
        let ok = |c: int| builds_in(multi[c].log, s);
        first_where_is_first(multi.len(), ok);
        let c = slot_owner(multi, s)->0;
        assert(ok(c));
        use_means(multi, c, s);
        assert forall|d: int| d < c implies !(#[trigger] used_slot(multi, d, s)) by {
            if used_slot(multi, d, s) {
                use_means(multi, d, s);
                assert(ok(d));
            }
        }
    }
}

proof fn rp_and_start_are_found(log: ParsedLogView, slot: u64)
    requires
        exists|i: int| #[trigger] builds_at(log, slot, i),
    ensures
        is_slot_rp(log, slot, slot_rp(log, slot)),
        is_slot_start(log, slot, slot_start(log, slot)),
{
    let n = log.build_attempts.len();
    let ok = |i: int| in_slot(log, slot, i);
    let time = |i: int| log.build_attempts[i].timestamp;
    let w = choose|i: int| #[trigger] builds_at(log, slot, i);
    assert(ok(w));
    first_where_is_first(n, ok);
    first_min_is_least(n, ok, time);
    let f = first_where(n, ok)->0;
    assert(ok(f));
    assert(builds_at(log, slot, f));
    assert forall|k: int| #[trigger] builds_at(log, slot, k) implies f <= k by {
        assert(ok(k));
    }
    let m = first_min(n, ok, time)->0;
    assert(ok(m));
    assert(builds_at(log, slot, m));
    assert forall|k: int| #[trigger] builds_at(log, slot, k) implies slot_start(log, slot)
        <= log.build_attempts[k].timestamp by {
        assert(ok(k));
        assert(time(m) <= time(k));
    }
}

proof fn ranks_order(d: int, s: u64, e: int, t: u64)
    ensures
        d * 0x1_0000_0000_0000_0000 + s <= e * 0x1_0000_0000_0000_0000 + t <==> d < e || (d == e
            && s <= t),
{
}

proof fn belonging_means(log: ParsedLogView, ps: PreSealedBlockView, slot: u64)
    ensures
        slot_of_seal(log, ps) == Some(slot) <==> belongs_to(log, ps, slot),
{
    let n = log.build_attempts.len();
    let ok = |i: int|
        follows(ps, log.build_attempts[i], crate::slot_boundaries::SEAL_WINDOW_MS as int);
    let rank = |i: int| seal_rank(ps, log.build_attempts[i]);
    first_min_is_least(n, ok, rank);
    assert forall|i: int| 0 <= i < n implies #[trigger] ok(i) == precedes_seal(
        log.build_attempts[i],
        ps,
        5000,
    ) by {}
    assert forall|i: int, k: int| 0 <= i < n && 0 <= k < n implies (#[trigger] rank(i)
        <= #[trigger] rank(k) <==> {
        let mine = elapsed(log.build_attempts[i].timestamp, ps.timestamp);
        let other = elapsed(log.build_attempts[k].timestamp, ps.timestamp);
        mine < other || (mine == other && log.build_attempts[i].slot <= log.build_attempts[k].slot)
    }) by {
        ranks_order(
            elapsed(log.build_attempts[i].timestamp, ps.timestamp),
            log.build_attempts[i].slot,
            elapsed(log.build_attempts[k].timestamp, ps.timestamp),
            log.build_attempts[k].slot,
        );
    }
    match first_min(n, ok, rank) {
        Some(b) => {
            assert(ok(b));
            if slot_of_seal(log, ps) == Some(slot) {
                assert forall|k: int|
                    0 <= k < n && precedes_seal(
                        #[trigger] log.build_attempts[k],
                        ps,
                        5000,
                    ) implies {
                    let mine = elapsed(log.build_attempts[b].timestamp, ps.timestamp);
                    let other = elapsed(log.build_attempts[k].timestamp, ps.timestamp);
                    mine < other || (mine == other && slot <= log.build_attempts[k].slot)
                } by {
                    assert(ok(k));
                    assert(rank(b) <= rank(k));
                }
                assert(log.build_attempts[b].slot == slot);
            }
            if belongs_to(log, ps, slot) {
                let i = choose|i: int|
                    #![trigger log.build_attempts[i]]
                    {
                        &&& 0 <= i < log.build_attempts.len()
                        &&& precedes_seal(log.build_attempts[i], ps, 5000)
                        &&& log.build_attempts[i].slot == slot
                        &&& forall|k: int|
                            0 <= k < log.build_attempts.len() && precedes_seal(
                                #[trigger] log.build_attempts[k],
                                ps,
                                5000,
                            ) ==> {
                                let mine = elapsed(log.build_attempts[i].timestamp, ps.timestamp);
                                let other = elapsed(log.build_attempts[k].timestamp, ps.timestamp);
                                mine < other || (mine == other && slot
                                    <= log.build_attempts[k].slot)
                            }
                    };
                assert(ok(i));
                assert(rank(b) <= rank(i));
                assert(precedes_seal(log.build_attempts[b], ps, 5000));
            }
        },
        None => {
            assert forall|i: int| 0 <= i < n implies !precedes_seal(
                #[trigger] log.build_attempts[i],
                ps,
                5000,
            ) by {
                assert(!ok(i));
            }
        },
    }
}

proof fn end_is_found(log: ParsedLogView, slot: u64)
    requires
        exists|i: int| #[trigger] builds_at(log, slot, i),
    ensures
        is_slot_end(log, slot, slot_end(log, slot)),
{
    let n = log.pre_sealed.len();
    let ok = |j: int| slot_of_seal(log, log.pre_sealed[j]) == Some(slot);
    let key = |j: int| -log.pre_sealed[j].timestamp;
    first_min_is_least(n, ok, key);
    rp_and_start_are_found(log, slot);
    assert forall|j: int| 0 <= j < n implies #[trigger] ok(j) == belongs_to(
        log,
        log.pre_sealed[j],
        slot,
    ) by {
        belonging_means(log, log.pre_sealed[j], slot);
    }
    match first_min(n, ok, key) {
        Some(m) => {
            assert(ok(m));
            assert(belongs_to(log, log.pre_sealed[m], slot));
            assert forall|j: int|
                0 <= j < n && belongs_to(
                    log,
                    #[trigger] log.pre_sealed[j],
                    slot,
                ) implies log.pre_sealed[j].timestamp <= slot_end(log, slot) by {
                assert(ok(j));
                assert(key(m) <= key(j));
            }
        },
        None => {
            assert forall|j: int| 0 <= j < n implies !belongs_to(
                log,
                #[trigger] log.pre_sealed[j],
                slot,
            ) by {
                assert(!ok(j));
            }
        },
    }
}

proof fn heights_are_found(log: ParsedLogView, slot: u64)
    ensures
        strictly_ascending(slot_heights(log, slot)),
        forall|h: u64| #[trigger]
            slot_heights(log, slot).contains(h) <==> built_height(log, slot, h as int),
{
    let n = log.build_attempts.len();
    let ok = |i: int| in_slot(log, slot, i);
    let height = |i: int| height_of(log.build_attempts[i]);
    distinct_values_are_all(n, ok, height);
    assert forall|h: u64| #[trigger]
        slot_heights(log, slot).contains(h) <==> built_height(log, slot, h as int) by {
        if slot_heights(log, slot).contains(h) {
            let i = choose|i: int| 0 <= i < n && ok(i) && #[trigger] height(i) == h;
            assert(builds_at(log, slot, i));
        }
        if built_height(log, slot, h as int) {
            let i = choose|i: int| #[trigger]
                builds_at(log, slot, i) && h as int == log.build_attempts[i].included_num
                    + log.build_attempts[i].unincluded_segment_len + 1;
            assert(0 <= i < n && ok(i) && height(i) == h);
        }
    }
}

proof fn overlap_is_common(a: Seq<u64>, b: Seq<u64>, common: Set<u64>)
    requires
        strictly_ascending(a),
        forall|h: u64| #[trigger] common.contains(h) <==> a.contains(h) && b.contains(h),
    ensures
        common.finite(),
        overlap_of(a, b) == common.len(),
{
    let ok = |i: int| b.contains(a[i]);
    let at = picked(a.len(), ok);
    picked_selects(a.len(), ok);
    selection_counts(a.len(), ok);
    let both = Seq::new(at.len(), |k: int| a[at[k]]);
    assert forall|i: int, j: int| 0 <= i < both.len() && 0 <= j < both.len() && i
        != j implies both[i] != both[j] by {
        assert(0 <= at[i] < a.len() && 0 <= at[j] < a.len());
        if i < j {
            assert(at[i] < at[j]);
            assert(a[at[i]] < a[at[j]]);
        } else {
            assert(at[j] < at[i]);
            assert(a[at[j]] < a[at[i]]);
        }
    }
    assert(both.no_duplicates());
    assert(both.to_set() =~= common) by {
        assert forall|h: u64| both.to_set().contains(h) <==> common.contains(h) by {
            if both.contains(h) {
                let k = choose|k: int| 0 <= k < both.len() && both[k] == h;
                assert(0 <= at[k] < a.len() && ok(at[k]));
                assert(a.contains(h));
            }
            if common.contains(h) {
                let i = choose|i: int| 0 <= i < a.len() && a[i] == h;
                assert(ok(i));
                assert(at.contains(i));
                let k = choose|k: int| 0 <= k < at.len() && at[k] == i;
                assert(both[k] == h);
            }
        }
    }
    both.unique_seq_to_set();
}

proof fn boundary_tells(multi: Seq<CollatorLogView>, c: int, s: u64, d: int, t: u64)
    requires
        used_slot(multi, c, s),
        used_slot(multi, d, t),
    ensures
        tells_of_slots(
            multi[c],
            s,
            multi[d],
            t,
            boundary_of(burst_of(multi[c], s), burst_of(multi[d], t)),
        ),
{
    let b = boundary_of(burst_of(multi[c], s), burst_of(multi[d], t));
    let (out, inc) = (multi[c], multi[d]);
    rp_and_start_are_found(out.log, s);
    rp_and_start_are_found(inc.log, t);
    end_is_found(out.log, s);
    heights_are_found(out.log, s);
    heights_are_found(inc.log, t);
    assert forall|common: Set<u64>|
        (forall|h: u64| #[trigger]
            common.contains(h) <==> built_height(out.log, s, h as int) && built_height(
                inc.log,
                t,
                h as int,
            )) implies #[trigger] common.finite() && b.overlap_count == common.len() as u32 by {
        overlap_is_common(slot_heights(out.log, s), slot_heights(inc.log, t), common);
    }
}

// The collator that a slot is told to be of.
spec fn owner(multi: Seq<CollatorLogView>, slot: u64) -> CollatorLogView {
    multi[slot_owner(multi, slot)->0]
}

proof fn boundaries_are_picked(
    multi: Seq<CollatorLogView>,
    slots: Seq<u64>,
    ok: spec_fn(int) -> bool,
    n: nat,
)
    requires
        n < bursts_of(multi).len(),
        slots == slots_among(multi, multi.len()),
        forall|k: int|
            0 <= k < n ==> #[trigger] ok(k) == (owner(multi, slots[k]).name != owner(
                multi,
                slots[k + 1],
            ).name),
    ensures
        ({
            let at = picked(n, ok);
            let b = boundaries_among(bursts_of(multi), n);
            &&& at.len() == b.len()
            &&& forall|j: int|
                0 <= j < at.len() ==> #[trigger] b[j] == boundary_of(
                    burst_of(owner(multi, slots[at[j]]), slots[at[j]]),
                    burst_of(owner(multi, slots[at[j] + 1]), slots[at[j] + 1]),
                )
        }),
    decreases n,
{
    if n > 0 {
        boundaries_are_picked(multi, slots, ok, (n - 1) as nat);
        assert(ok(n - 1) == (owner(multi, slots[n - 1]).name != owner(multi, slots[n as int]).name));
        assert(bursts_of(multi)[n - 1].collator == owner(multi, slots[n - 1]).name);
        assert(bursts_of(multi)[n as int].collator == owner(multi, slots[n as int]).name);
    }
}

/// How many pairs of neighbours a list of slots has.
pub open spec fn pairs_among(slots: Seq<u64>) -> nat {
    if slots.len() == 0 {
        0
    } else {
        (slots.len() - 1) as nat
    }
}

/// Whether the slots at `k` and `k + 1` are of different collators.
pub open spec fn changes_hands(multi: Seq<CollatorLogView>, slots: Seq<u64>, k: int) -> bool {
    exists|c: int, d: int| #[trigger]
        owns_slot(multi, c, slots[k]) && #[trigger] owns_slot(multi, d, slots[k + 1])
            && multi[c].name != multi[d].name
}

/// Whether a boundary tells of the slots at `k` and `k + 1` and of their two collators.
pub open spec fn tells_of_change(
    multi: Seq<CollatorLogView>,
    slots: Seq<u64>,
    k: int,
    b: SlotBoundaryDetailView,
) -> bool {
    exists|c: int, d: int| #[trigger]
        owns_slot(multi, c, slots[k]) && #[trigger] owns_slot(multi, d, slots[k + 1])
            && multi[c].name != multi[d].name && tells_of_slots(
            multi[c],
            slots[k],
            multi[d],
            slots[k + 1],
            b,
        )
}

proof fn owner_is_unique(multi: Seq<CollatorLogView>, c: int, d: int, slot: u64)
    requires
        owns_slot(multi, c, slot),
        owns_slot(multi, d, slot),
    ensures
        c == d,
{
    assert(used_slot(multi, c, slot) && used_slot(multi, d, slot));
}

/// There is a boundary for each two consecutive slots of different collators, and no other, in the
/// order of the slots; each tells of those two slots and collators.
pub proof fn boundaries_tell_of_slots(multi: Seq<CollatorLogView>, slots: Seq<u64>)
    requires
        are_used_slots(multi, slots),
    ensures
        ({
            let n = pairs_among(slots);
            let ok = |k: int| changes_hands(multi, slots, k);
            let b = slot_analysis(multi).boundaries;
            exists|at: Seq<int>| #[trigger]
                selects(at, n, ok) && at.len() == b.len() && forall|j: int|
                    0 <= j < at.len() ==> tells_of_change(multi, slots, at[j], #[trigger] b[j])
        }),
{
    slots_mean(multi);
    let mine = slots_among(multi, multi.len());
    same_slots(multi, slots, mine);
    let b = slot_analysis(multi).boundaries;
    let n = pairs_among(slots);
    let ok = |k: int| changes_hands(multi, slots, k);
    assert forall|k: int| 0 <= k < slots.len() implies owns_slot(
        multi,
        slot_owner(multi, #[trigger] slots[k])->0,
        slots[k],
    ) by {
        assert(mine.contains(slots[k]));
    }
    assert forall|k: int| 0 <= k < n implies #[trigger] ok(k) == (
        owner(multi, slots[k]).name != owner
    (
        multi,
        slots[k + 1],
    ).name) by {
        let c = slot_owner(multi, slots[k])->0;
        let d = slot_owner(multi, slots[k + 1])->0;
        assert(owns_slot(multi, c, slots[k]) && owns_slot(multi, d, slots[k + 1]));
        if ok(k) {
            let (x, y) = choose|x: int, y: int| #[trigger]
                owns_slot(multi, x, slots[k]) && #[trigger] owns_slot(multi, y, slots[k + 1])
                    && multi[x].name != multi[y].name;
            owner_is_unique(multi, c, x, slots[k]);
            owner_is_unique(multi, d, y, slots[k + 1]);
        }
    }
    let at = picked(n, ok);
    picked_selects(n, ok);
    if slots.len() > 0 {
        boundaries_are_picked(multi, slots, ok, n);
        assert forall|j: int| 0 <= j < at.len() implies tells_of_change(
            multi,
            slots,
            at[j],
            #[trigger] b[j],
        ) by {
            let k = at[j];
            assert(0 <= k < n && ok(k));
            let c = slot_owner(multi, slots[k])->0;
            let d = slot_owner(multi, slots[k + 1])->0;
            assert(owns_slot(multi, c, slots[k]) && owns_slot(multi, d, slots[k + 1]));
            assert(owner(multi, slots[k]).name != owner(multi, slots[k + 1]).name);
            boundary_tells(multi, c, slots[k], d, slots[k + 1]);
        }
    }
    assert(selects(at, n, ok));
}

proof fn same_slots(multi: Seq<CollatorLogView>, a: Seq<u64>, b: Seq<u64>)
    requires
        are_used_slots(multi, a),
        are_used_slots(multi, b),
    ensures
        a == b,
{
    assert forall|s: u64| a.contains(s) <==> b.contains(s) by {
        assert(a.contains(s) <==> exists|c: int| #[trigger] used_slot(multi, c, s));
        assert(b.contains(s) <==> exists|c: int| #[trigger] used_slot(multi, c, s));
    }
    same_ascending(a, b);
}

proof fn same_ascending(a: Seq<u64>, b: Seq<u64>)
    requires
        strictly_ascending(a),
        strictly_ascending(b),
        forall|s: u64| a.contains(s) <==> b.contains(s),
    ensures
        a == b,
    decreases a.len(),
{
    if a.len() == 0 {
        if b.len() > 0 {
            assert(b.contains(b[0]));
            assert(a.contains(b[0]));
        }
        assert(a =~= b);
    } else {
        assert(a.contains(a[0]));
        assert(b.contains(a[0]));
        let x = a.last();
        assert(a[a.len() - 1] == x);
        assert(a.contains(x));
        assert(b.contains(x));
        let y = b.last();
        assert(b[b.len() - 1] == y);
        assert(b.contains(y));
        assert(a.contains(y));
        let i = choose|i: int| 0 <= i < a.len() && a[i] == y;
        let j = choose|j: int| 0 <= j < b.len() && b[j] == x;
        assert(x == y) by {
            if i < a.len() - 1 {
                assert(a[i] < a[a.len() - 1]);
            }
            if j < b.len() - 1 {
                assert(b[j] < b[b.len() - 1]);
            }
        }
        let (p, q) = (a.drop_last(), b.drop_last());
        assert forall|s: u64| p.contains(s) <==> q.contains(s) by {
            if p.contains(s) {
                let k = choose|k: int| 0 <= k < p.len() && p[k] == s;
                assert(a[k] == s && a[k] < a[a.len() - 1]);
                assert(a.contains(s));
                assert(b.contains(s));
                let l = choose|l: int| 0 <= l < b.len() && b[l] == s;
                assert(q[l] == s);
            }
            if q.contains(s) {
                let k = choose|k: int| 0 <= k < q.len() && q[k] == s;
                assert(b[k] == s && b[k] < b[b.len() - 1]);
                assert(b.contains(s));
                assert(a.contains(s));
                let l = choose|l: int| 0 <= l < a.len() && a[l] == s;
                assert(p[l] == s);
            }
        }
        same_ascending(p, q);
        assert(a =~= p.push(x));
        assert(b =~= q.push(y));
    }
}

/// There are such slots for every set of collators.
pub proof fn used_slots_exist(multi: Seq<CollatorLogView>)
    ensures
        are_used_slots(multi, slots_among(multi, multi.len())),
{
    slots_mean(multi);
}

// ---- Aggregates ----
/// Whether `order` has the position of each boundary once, and the gaps do not descend along it.
pub open spec fn is_by_gap(order: Seq<int>, b: Seq<SlotBoundaryDetailView>) -> bool {
    &&& order.len() == b.len()
    &&& forall|i: int| 0 <= i < b.len() ==> order.contains(i)
    &&& forall|k: int| 0 <= k < order.len() ==> 0 <= #[trigger] order[k] < b.len()
    &&& forall|x: int, y: int|
        0 <= x < y < order.len() ==> (#[trigger] b[order[x]]).propagation_gap_ms <= (
        #[trigger] b[order[y]]).propagation_gap_ms
}

/// The counts, averages and extremes are those of the boundaries: how many have an overlap and how
/// many have none; the sum of the gaps over their number, the one in the middle of their order, the
/// least and the greatest; the sum of the overlaps over the number of boundaries with one, and the
/// greatest; how many have relay parents more than one apart.
pub proof fn aggregates_are_of_boundaries(multi: Seq<CollatorLogView>)
    requires
        slot_analysis(multi).boundaries.len() <= u32::MAX,
    ensures
        ({
            let a = slot_analysis(multi);
            let b = a.boundaries;
            let n = b.len();
            let with = count_where(n, |i: int| b[i].overlap_count > 0);
            &&& a.boundaries_with_overlap == with
            &&& a.boundaries_without_overlap == count_where(n, |i: int| b[i].overlap_count == 0)
            &&& a.relay_parent_gaps == count_where(
                n,
                |i: int|
                    {
                        let gap = b[i].incoming_rp - b[i].outgoing_rp;
                        gap < -1 || gap > 1
                    },
            )
            &&& n > 0 ==> {
                &&& a.avg_propagation_gap_ms.den == n
                &&& a.avg_propagation_gap_ms.num == sum_of(
                    n,
                    |i: int| b[i].propagation_gap_ms as int,
                )
                &&& exists|order: Seq<int>| #[trigger]
                    is_by_gap(order, b) && a.median_propagation_gap_ms == b[order[n as int
                        / 2]].propagation_gap_ms
                &&& forall|i: int|
                    0 <= i < n ==> a.min_propagation_gap_ms <= (
                    #[trigger] b[i]).propagation_gap_ms <= a.max_propagation_gap_ms
                        && b[i].overlap_count <= a.max_overlap_count
                &&& exists|i: int|
                    0 <= i < n && (#[trigger] b[i]).propagation_gap_ms == a.min_propagation_gap_ms
                &&& exists|i: int|
                    0 <= i < n && (#[trigger] b[i]).propagation_gap_ms == a.max_propagation_gap_ms
                &&& exists|i: int|
                    0 <= i < n && (#[trigger] b[i]).overlap_count == a.max_overlap_count
            }
            &&& with > 0 ==> {
                &&& a.avg_overlap_count.den == with
                &&& a.avg_overlap_count.num == sum_of(n, |i: int| b[i].overlap_count as int)
            }
            &&& with == 0 ==> a.avg_overlap_count.num == 0 && a.avg_overlap_count.den > 0
            &&& n == 0 ==> {
                &&& a.avg_propagation_gap_ms.num == 0 && a.avg_propagation_gap_ms.den > 0
                &&& a.median_propagation_gap_ms == 0
                &&& a.min_propagation_gap_ms == 0 && a.max_propagation_gap_ms == 0
                &&& a.max_overlap_count == 0
            }
        }),
{
    let a = slot_analysis(multi);
    let b = a.boundaries;
    let n = b.len();
    let gap = |i: int| b[i].propagation_gap_ms as int;
    let overlap = |i: int| b[i].overlap_count as int;
    let some = |i: int| b[i].overlap_count > 0;
    let none = |i: int| b[i].overlap_count == 0;
    let jump = |i: int|
        b[i].incoming_rp - b[i].outgoing_rp > 1 || b[i].outgoing_rp - b[i].incoming_rp > 1;
    let far = |i: int|
        {
            let gap = b[i].incoming_rp - b[i].outgoing_rp;
            gap < -1 || gap > 1
        };
    crate::search::count_where_complement(n, some, none);
    crate::search::count_where_bound(n, some);
    crate::search::count_where_bound(n, jump);
    same_counts(n, jump, far);
    least_of_is_least(n, gap);
    greatest_of_is_greatest(n, gap);
    greatest_of_is_greatest(n, overlap);
    gaps_are_bounded(b, n);
    if n > 0 {
        let gaps = gaps_of(b);
        let order = sort_order(gaps);
        sort_order_is_stable(gaps);
        assert(is_by_gap(order, b)) by {
            assert forall|x: int, y: int| 0 <= x < y < order.len() implies (
            #[trigger] b[order[x]]).propagation_gap_ms <= (
            #[trigger] b[order[y]]).propagation_gap_ms by {
                assert(gaps[order[x]] <= gaps[order[y]]);
            }
            assert forall|i: int| 0 <= i < b.len() implies order.contains(i) by {}
        }
        let m = n as int / 2;
        assert(0 <= order[m] < n);
        assert(a.median_propagation_gap_ms == b[order[m]].propagation_gap_ms);
        let x = choose|i: int|
            0 <= i < n && #[trigger] gap(i) == crate::search::least_of(n, gap)->0;
        let y = choose|i: int|
            0 <= i < n && #[trigger] gap(i) == crate::search::greatest_of(n, gap)->0;
        let z = choose|i: int|
            0 <= i < n && #[trigger] overlap(i) == crate::search::greatest_of(n, overlap)->0;
        assert(b[x].propagation_gap_ms == a.min_propagation_gap_ms);
        assert(b[y].propagation_gap_ms == a.max_propagation_gap_ms);
        assert(b[z].overlap_count == a.max_overlap_count);
        assert forall|i: int| 0 <= i < n implies a.min_propagation_gap_ms <= (
        #[trigger] b[i]).propagation_gap_ms <= a.max_propagation_gap_ms && b[i].overlap_count
            <= a.max_overlap_count by {
            assert(gap(i) == b[i].propagation_gap_ms);
            assert(overlap(i) == b[i].overlap_count);
        }
    }
}

proof fn same_counts(n: nat, f: spec_fn(int) -> bool, g: spec_fn(int) -> bool)
    requires
        forall|k: int| 0 <= k < n ==> #[trigger] f(k) == g(k),
    ensures
        count_where(n, f) == count_where(n, g),
    decreases n,
{
    if n > 0 {
        same_counts((n - 1) as nat, f, g);
        assert(f(n - 1) == g(n - 1));
    }
}

proof fn gaps_are_bounded(b: Seq<SlotBoundaryDetailView>, n: nat)
    requires
        n <= b.len(),
    ensures
        -0x8000_0000_0000_0000 * n <= sum_of(n, |i: int| b[i].propagation_gap_ms as int)
            <= 0x8000_0000_0000_0000 * n,
        0 <= sum_of(n, |i: int| b[i].overlap_count as int) <= 0x1_0000_0000 * n,
    decreases n,
{
    if n > 0 {
        gaps_are_bounded(b, (n - 1) as nat);
    }
}

} // verus!
