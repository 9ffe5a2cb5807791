//! What holds of dropped blocks, said of the built blocks, the relay blocks and the log themselves.

use crate::built_blocks::BuiltBlockView;
use crate::chain_client::para_number;
use crate::collations::{
    enriched, expired_among, expired_on, fetched_at, peers_of, sealed_at, submitted_at,
};
use crate::drops::{
    analysis_of, blocks_between, boundary_in_window, class_of, cores_of, drop_of, drops_of,
    first_boundary, included_among, includes_number, is_included, is_wanted, near_boundary,
    near_edge, on_wrong_fork, reason_of, session_stats, window_is_known, DropClass,
};
use crate::hash::{hash_key, resolved, stands_for, LogHashView, RegistryView};
use crate::logs::{import_time, log_time_range, max_relay, min_relay};
use crate::search::{
    count_where, distinct_values, distinct_values_are_all, first_where, first_where_is_first,
    greatest_of_is_greatest, least_of_is_least, strictly_ascending, sum_of,
};
use crate::selection::{picked, picked_selects, selects};
use crate::types::{
    AnalysisView, CollationExpiredView, DropReasonView, DroppedBlockView, OnChainBlockInfoView,
    ParaCandidateEventView, ParsedLogView,
};
use vstd::prelude::*;

verus! {

// ---- Inclusion ----
/// Whether the head data of a candidate holds a parachain block number.
pub open spec fn head_holds(c: ParaCandidateEventView, number: u32) -> bool {
    match c.para_head_data {
        Some(head) => para_number(head) == Some(number),
        None => false,
    }
}

/// Whether a candidate that one of the relay blocks includes holds a parachain block number. What
/// the relay blocks back does not matter.
pub open spec fn included_somewhere(chain: Map<u32, OnChainBlockInfoView>, number: u32) -> bool {
    exists|n: u32, i: int|
        #![trigger chain[n].included_para_candidates[i]]
        chain.contains_key(n) && 0 <= i < chain[n].included_para_candidates.len() && head_holds(
            chain[n].included_para_candidates[i],
            number,
        )
}

proof fn inclusion_means(chain: Map<u32, OnChainBlockInfoView>, number: u32)
    ensures
        is_included(chain, number) == included_somewhere(chain, number),
{
    if is_included(chain, number) {
        let n = choose|n: u32| #[trigger]
            chain.contains_key(n) && includes_number(chain[n], number);
        assert(chain.contains_key(n));
        let i = choose|i: int|
            0 <= i < chain[n].included_para_candidates.len() && crate::drops::candidate_number(
                #[trigger] chain[n].included_para_candidates[i],
            ) == Some(number);
        assert(head_holds(chain[n].included_para_candidates[i], number));
    }
    if included_somewhere(chain, number) {
        let (n, i) = choose|n: u32, i: int|
            #![trigger chain[n].included_para_candidates[i]]
            chain.contains_key(n) && 0 <= i < chain[n].included_para_candidates.len()
                && head_holds(chain[n].included_para_candidates[i], number);
        assert(crate::drops::candidate_number(chain[n].included_para_candidates[i]) == Some(
            number,
        ));
        assert(includes_number(chain[n], number));
    }
}

// ---- Reasons ----
/// Whether boundary `k` is the first one behind a relay parent and not more than one block beyond
/// the viability window.
pub open spec fn is_first_boundary(
    boundaries: Seq<(u32, u32, u32)>,
    rp: u32,
    window: u32,
    k: int,
) -> bool {
    &&& 0 <= k < boundaries.len()
    &&& rp < boundaries[k].0 <= rp + window + 1
    &&& forall|j: int|
        0 <= j < k ==> !(rp < (#[trigger] boundaries[j]).0 <= rp + window + 1)
}

/// Whether a session boundary is behind a relay parent and not more than one block beyond the
/// viability window.
pub open spec fn boundary_follows(boundaries: Seq<(u32, u32, u32)>, rp: u32, window: u32) -> bool {
    exists|k: int|
        0 <= k < boundaries.len() && rp < (#[trigger] boundaries[k]).0 <= rp + window + 1
}

/// Whether the chain has another block at the number of a relay parent: by the whole hash where it
/// is known; else by the whole hash that the registry finds, where the logged text does not fit.
pub open spec fn chain_differs(
    b: BuiltBlockView,
    chain: Map<u32, OnChainBlockInfoView>,
    registry: RegistryView,
) -> bool {
    &&& chain.contains_key(b.relay_parent_num)
    &&& match b.relay_parent_hash.full {
        Some(full) => full != chain[b.relay_parent_num].block_hash,
        None => !stands_for(b.relay_parent_hash, chain[b.relay_parent_num].block_hash) && (
        resolved(registry, b.relay_parent_hash.raw) matches Some(found) && found
            != chain[b.relay_parent_num].block_hash),
    }
}

/// Whether a relay block from a relay parent to the end of the viability window is known.
pub open spec fn window_has_block(
    chain: Map<u32, OnChainBlockInfoView>,
    rp: u32,
    window: u32,
) -> bool {
    exists|n: u32| rp <= n <= rp + window && #[trigger] chain.contains_key(n)
}

/// Whether a reason is the right one for a block that was not included.
pub open spec fn reason_fits(
    b: BuiltBlockView,
    chain: Map<u32, OnChainBlockInfoView>,
    boundaries: Seq<(u32, u32, u32)>,
    window: u32,
    registry: RegistryView,
    reason: DropReasonView,
) -> bool {
    let rp = b.relay_parent_num;
    match reason {
        DropReasonView::SessionBoundary { session_before, session_after, boundary_relay_block } => {
            exists|k: int| #[trigger]
                is_first_boundary(boundaries, rp, window, k) && boundaries[k] == (
                    boundary_relay_block,
                    session_before,
                    session_after,
                )
        },
        DropReasonView::WrongFork { relay_parent_num, relay_parent_hash } => {
            &&& !boundary_follows(boundaries, rp, window)
            &&& chain_differs(b, chain, registry)
            &&& relay_parent_num == rp
            &&& relay_parent_hash == b.relay_parent_hash
        },
        DropReasonView::RelayParentExpired { relay_parent_num, viability_window } => {
            &&& !boundary_follows(boundaries, rp, window)
            &&& !chain_differs(b, chain, registry)
            &&& window_has_block(chain, rp, window)
            &&& relay_parent_num == rp
            &&& viability_window == window
        },
        DropReasonView::Unknown => {
            &&& !boundary_follows(boundaries, rp, window)
            &&& !window_has_block(chain, rp, window)
        },
    }
}

/// The reason given is the right one: a session boundary where one follows in time, else a wrong
/// fork where the chain has another block, else an expired relay parent where anything is known of
/// the window, and else it is unknown.
pub proof fn reasons_fit(
    b: BuiltBlockView,
    chain: Map<u32, OnChainBlockInfoView>,
    boundaries: Seq<(u32, u32, u32)>,
    window: u32,
    registry: RegistryView,
)
    ensures
        reason_fits(
            b,
            chain,
            boundaries,
            window,
            registry,
            reason_of(b, chain, boundaries, window, registry),
        ),
        reason_of(b, chain, boundaries, window, registry) is SessionBoundary <==> boundary_follows(
            boundaries,
            b.relay_parent_num,
            window,
        ),
{
    let rp = b.relay_parent_num;
    let ok = |i: int| boundary_in_window(boundaries[i], rp, window);
    first_where_is_first(boundaries.len(), ok);
    match first_boundary(boundaries, rp, window) {
        Some(k) => {
            assert(ok(k));
            assert forall|j: int| 0 <= j < k implies !(rp < (#[trigger] boundaries[j]).0 <= rp
                + window + 1) by {
                assert(!ok(j));
            }
            assert(is_first_boundary(boundaries, rp, window, k));
            assert(rp < boundaries[k].0 <= rp + window + 1);
        },
        None => {
            assert forall|j: int| 0 <= j < boundaries.len() implies !(rp < (
            #[trigger] boundaries[j]).0 <= rp + window + 1) by {
                assert(!ok(j));
            }
            assert(on_wrong_fork(b, chain, registry) == chain_differs(b, chain, registry));
            assert(window_is_known(chain, rp, window) == window_has_block(chain, rp, window)) by {
                if window_is_known(chain, rp, window) {
                    let n = choose|n: u32| #[trigger]
                        chain.contains_key(n) && rp <= n <= rp + window;
                    assert(rp <= n <= rp + window && chain.contains_key(n));
                }
                if window_has_block(chain, rp, window) {
                    let n = choose|n: u32|
                        rp <= n <= rp + window && #[trigger] chain.contains_key(n);
                    assert(chain.contains_key(n) && rp <= n <= rp + window);
                }
            }
        },
    }
}

// ---- Relay blocks ----
/// Whether `blocks` are the known blocks with a number from `from` to `to`, in order, each once.
pub open spec fn are_known_blocks(
    chain: Map<u32, OnChainBlockInfoView>,
    from: int,
    to: int,
    blocks: Seq<OnChainBlockInfoView>,
) -> bool {
    exists|at: Seq<u32>|
        {
            &&& #[trigger] at.len() == blocks.len()
            &&& forall|a: int, b: int| 0 <= a < b < at.len() ==> at[a] < at[b]
            &&& forall|a: int|
                0 <= a < at.len() ==> from <= #[trigger] at[a] <= to && chain.contains_key(at[a])
                    && blocks[a] == chain[at[a]]
            &&& forall|n: u32|
                from <= n <= to && #[trigger] chain.contains_key(n) ==> at.contains(n)
        }
}

spec fn known_numbers(chain: Map<u32, OnChainBlockInfoView>, from: int, to: int) -> Seq<u32>
    decreases to + 1 - from,
{
    if to < from {
        Seq::empty()
    } else {
        let before = known_numbers(chain, from, to - 1);
        if 0 <= to <= u32::MAX && chain.contains_key(to as u32) {
            before.push(to as u32)
        } else {
            before
        }
    }
}

/// The blocks between two numbers are all the known ones, and no others, in order.
pub proof fn blocks_between_are_known(chain: Map<u32, OnChainBlockInfoView>, from: int, to: int)
    ensures
        are_known_blocks(chain, from, to, blocks_between(chain, from, to)),
{
    known_numbers_fit(chain, from, to);
    let at = known_numbers(chain, from, to);
    assert(at.len() == blocks_between(chain, from, to).len());
}

proof fn known_numbers_fit(chain: Map<u32, OnChainBlockInfoView>, from: int, to: int)
    ensures
        ({
            let at = known_numbers(chain, from, to);
            let blocks = blocks_between(chain, from, to);
            &&& at.len() == blocks.len()
            &&& forall|a: int, b: int| 0 <= a < b < at.len() ==> at[a] < at[b]
            &&& forall|a: int|
                0 <= a < at.len() ==> from <= #[trigger] at[a] <= to && chain.contains_key(at[a])
                    && blocks[a] == chain[at[a]]
            &&& forall|n: u32|
                from <= n <= to && #[trigger] chain.contains_key(n) ==> at.contains(n)
        }),
    decreases to + 1 - from,
{
    if from <= to {
        known_numbers_fit(chain, from, to - 1);
        let before = known_numbers(chain, from, to - 1);
        let at = known_numbers(chain, from, to);
        assert forall|n: u32| from <= n <= to && #[trigger] chain.contains_key(n) implies at.contains(
            n,
        ) by {
            if n < to {
                assert(before.contains(n));
                let a = choose|a: int| 0 <= a < before.len() && before[a] == n;
                assert(at[a] == n);
            } else {
                assert(at[before.len() as int] == n);
            }
        }
    }
}

/// Every relay block that is looked at for a built block is asked for: those of the window, those
/// shown with a drop, and the one before the relay parent. No other is.
pub proof fn looked_at_blocks_are_asked_for(b: BuiltBlockView, window: u32, n: int)
    ensures
        is_wanted(b, window, n) <==> exists|k: int|
            -1 <= k <= window + 2 && n == #[trigger] (b.relay_parent_num + k),
{
    if is_wanted(b, window, n) {
        let k = n - b.relay_parent_num;
        assert(n == b.relay_parent_num + k);
    }
}

// ---- Expired collations ----
/// Whether `time` is that of the first seal of a block, or none is told because there is none.
pub open spec fn is_seal_time(log: ParsedLogView, head: LogHashView, time: Option<int>) -> bool {
    ||| exists|i: int|
        #![trigger log.pre_sealed[i]]
        {
            &&& 0 <= i < log.pre_sealed.len()
            &&& hash_key(log.pre_sealed[i].post_hash) == hash_key(head)
            &&& time == Some(log.pre_sealed[i].timestamp)
            &&& forall|k: int|
                0 <= k < i ==> hash_key((#[trigger] log.pre_sealed[k]).post_hash) != hash_key(head)
        }
    ||| time is None && forall|k: int|
        0 <= k < log.pre_sealed.len() ==> hash_key((#[trigger] log.pre_sealed[k]).post_hash)
            != hash_key(head)
}

/// Whether `time` is that of the first submission of a block, or none is told because there is none.
pub open spec fn is_submission_time(
    log: ParsedLogView,
    head: LogHashView,
    time: Option<int>,
) -> bool {
    ||| exists|i: int|
        #![trigger log.collation_submissions[i]]
        {
            &&& 0 <= i < log.collation_submissions.len()
            &&& hash_key(log.collation_submissions[i].hash) == hash_key(head)
            &&& time == Some(log.collation_submissions[i].timestamp)
            &&& forall|k: int|
                0 <= k < i ==> hash_key((#[trigger] log.collation_submissions[k]).hash)
                    != hash_key(head)
        }
    ||| time is None && forall|k: int|
        0 <= k < log.collation_submissions.len() ==> hash_key(
            (#[trigger] log.collation_submissions[k]).hash,
        ) != hash_key(head)
}

/// Whether `time` is that of the first fetch of a block, or none is told because there is none.
pub open spec fn is_fetch_time(log: ParsedLogView, head: LogHashView, time: Option<int>) -> bool {
    ||| exists|i: int|
        #![trigger log.collation_fetches[i]]
        {
            &&& 0 <= i < log.collation_fetches.len()
            &&& hash_key(log.collation_fetches[i].para_head) == hash_key(head)
            &&& time == Some(log.collation_fetches[i].timestamp)
            &&& forall|k: int|
                0 <= k < i ==> hash_key((#[trigger] log.collation_fetches[k]).para_head)
                    != hash_key(head)
        }
    ||| time is None && forall|k: int|
        0 <= k < log.collation_fetches.len() ==> hash_key(
            (#[trigger] log.collation_fetches[k]).para_head,
        ) != hash_key(head)
}

/// Whether `peers` are those that a candidate was advertised to.
pub open spec fn are_peers(
    log: ParsedLogView,
    candidate: Seq<char>,
    peers: Seq<Seq<char>>,
) -> bool {
    ||| exists|i: int|
        #![trigger log.advertising_peers[i]]
        {
            &&& 0 <= i < log.advertising_peers.len()
            &&& log.advertising_peers[i].candidate_hash == candidate
            &&& peers == log.advertising_peers[i].peers
            &&& forall|k: int|
                0 <= k < i ==> (#[trigger] log.advertising_peers[k]).candidate_hash != candidate
        }
    ||| peers.len() == 0 && forall|k: int|
        0 <= k < log.advertising_peers.len() ==> (
        #[trigger] log.advertising_peers[k]).candidate_hash != candidate
}

/// Whether `e` tells of the logged entry `x`, with the times at which its own block was sealed,
/// submitted and fetched, and with the peers that its own candidate was advertised to.
pub open spec fn tells_of_expired(
    log: ParsedLogView,
    x: CollationExpiredView,
    e: CollationExpiredView,
) -> bool {
    &&& e.collation_state == x.collation_state
    &&& e.relay_parent_num == x.relay_parent_num
    &&& e.relay_parent_hash == x.relay_parent_hash
    &&& e.age == x.age
    &&& e.head == x.head
    &&& e.candidate_hash == x.candidate_hash
    &&& e.timestamp == x.timestamp
    &&& match x.head {
        Some(head) => is_seal_time(log, head, e.produced_at) && is_submission_time(
            log,
            head,
            e.advertised_at,
        ) && is_fetch_time(log, head, e.fetched_at),
        None => e.produced_at is None && e.advertised_at is None && e.fetched_at is None,
    }
    &&& match x.candidate_hash {
        Some(candidate) => are_peers(log, candidate.raw, e.advertised_to_peers),
        None => e.advertised_to_peers.len() == 0,
    }
}

/// Whether `expired` are the entries of the log for a relay parent, in order.
pub open spec fn are_expired_on(
    log: ParsedLogView,
    rp: u32,
    expired: Seq<CollationExpiredView>,
) -> bool {
    let ok = |i: int| log.collation_expired[i].relay_parent_num == rp;
    exists|at: Seq<int>| #[trigger]
        selects(at, log.collation_expired.len(), ok) && at.len() == expired.len() && forall|k: int|
            0 <= k < at.len() ==> tells_of_expired(
                log,
                log.collation_expired[at[k]],
                #[trigger] expired[k],
            )
}

proof fn enriched_tells(log: ParsedLogView, x: CollationExpiredView)
    ensures
        tells_of_expired(log, x, enriched(log, x)),
{
    let e = enriched(log, x);
    if let Some(head) = x.head {
        let n = log.pre_sealed.len();
        let ok = |i: int| hash_key(log.pre_sealed[i].post_hash) == hash_key(head);
        first_where_is_first(n, ok);
        assert(e.produced_at == sealed_at(log, head));
        assert(is_seal_time(log, head, e.produced_at)) by {
            match first_where(n, ok) {
                Some(i) => {
                    assert(ok(i));
                    assert forall|k: int| 0 <= k < i implies hash_key(
                        (#[trigger] log.pre_sealed[k]).post_hash,
                    ) != hash_key(head) by {
                        assert(!ok(k));
                    }
                    assert(e.produced_at == Some(log.pre_sealed[i].timestamp));
                },
                None => {
                    assert forall|k: int| 0 <= k < n implies hash_key(
                        (#[trigger] log.pre_sealed[k]).post_hash,
                    ) != hash_key(head) by {
                        assert(!ok(k));
                    }
                },
            }
        }
        let n = log.collation_submissions.len();
        let ok = |i: int| hash_key(log.collation_submissions[i].hash) == hash_key(head);
        first_where_is_first(n, ok);
        assert(e.advertised_at == submitted_at(log, head));
        assert(is_submission_time(log, head, e.advertised_at)) by {
            match first_where(n, ok) {
                Some(i) => {
                    assert(ok(i));
                    assert forall|k: int| 0 <= k < i implies hash_key(
                        (#[trigger] log.collation_submissions[k]).hash,
                    ) != hash_key(head) by {
                        assert(!ok(k));
                    }
                    assert(e.advertised_at == Some(log.collation_submissions[i].timestamp));
                },
                None => {
                    assert forall|k: int| 0 <= k < n implies hash_key(
                        (#[trigger] log.collation_submissions[k]).hash,
                    ) != hash_key(head) by {
                        assert(!ok(k));
                    }
                },
            }
        }
        let n = log.collation_fetches.len();
        let ok = |i: int| hash_key(log.collation_fetches[i].para_head) == hash_key(head);
        first_where_is_first(n, ok);
        assert(e.fetched_at == fetched_at(log, head));
        assert(is_fetch_time(log, head, e.fetched_at)) by {
            match first_where(n, ok) {
                Some(i) => {
                    assert(ok(i));
                    assert forall|k: int| 0 <= k < i implies hash_key(
                        (#[trigger] log.collation_fetches[k]).para_head,
                    ) != hash_key(head) by {
                        assert(!ok(k));
                    }
                    assert(e.fetched_at == Some(log.collation_fetches[i].timestamp));
                },
                None => {
                    assert forall|k: int| 0 <= k < n implies hash_key(
                        (#[trigger] log.collation_fetches[k]).para_head,
                    ) != hash_key(head) by {
                        assert(!ok(k));
                    }
                },
            }
        }
    }
    if let Some(candidate) = x.candidate_hash {
        let n = log.advertising_peers.len();
        let raw = candidate.raw;
        let ok = |i: int| log.advertising_peers[i].candidate_hash == raw;
        first_where_is_first(n, ok);
        assert(e.advertised_to_peers == peers_of(log, raw));
        assert(are_peers(log, raw, e.advertised_to_peers)) by {
            match first_where(n, ok) {
                Some(i) => {
                    assert(ok(i));
                    assert forall|k: int| 0 <= k < i implies (
                    #[trigger] log.advertising_peers[k]).candidate_hash != raw by {
                        assert(!ok(k));
                    }
                    assert(e.advertised_to_peers == log.advertising_peers[i].peers);
                },
                None => {
                    assert forall|k: int| 0 <= k < n implies (
                    #[trigger] log.advertising_peers[k]).candidate_hash != raw by {
                        assert(!ok(k));
                    }
                },
            }
        }
    }
}

proof fn expired_are_picked(log: ParsedLogView, rp: u32, n: nat)
    ensures
        ({
            let ok = |i: int| log.collation_expired[i].relay_parent_num == rp;
            let at = picked(n, ok);
            let expired = expired_among(log, rp, n);
            &&& at.len() == expired.len()
            &&& forall|k: int|
                0 <= k < at.len() ==> #[trigger] expired[k] == enriched(
                    log,
                    log.collation_expired[at[k]],
                )
        }),
    decreases n,
{
    if n > 0 {
        expired_are_picked(log, rp, (n - 1) as nat);
    }
}

/// The entries for a relay parent are those of the log with its number, in the order of the log,
/// each with the times and peers of its own block and candidate.
pub proof fn expired_entries_are_told(log: ParsedLogView, rp: u32)
    ensures
        are_expired_on(log, rp, expired_on(log, rp)),
{
    let ok = |i: int| log.collation_expired[i].relay_parent_num == rp;
    let n = log.collation_expired.len();
    let at = picked(n, ok);
    let expired = expired_on(log, rp);
    picked_selects(n, ok);
    expired_are_picked(log, rp, n);
    assert forall|k: int| 0 <= k < at.len() implies tells_of_expired(
        log,
        log.collation_expired[at[k]],
        #[trigger] expired[k],
    ) by {
        enriched_tells(log, log.collation_expired[at[k]]);
    }
    assert(selects(at, n, ok));
}

// ---- Drops ----
/// Whether a drop tells of a built block.
pub open spec fn tells_of_drop(
    b: BuiltBlockView,
    log: ParsedLogView,
    chain: Map<u32, OnChainBlockInfoView>,
    boundaries: Seq<(u32, u32, u32)>,
    window: u32,
    d: DroppedBlockView,
) -> bool {
    &&& d.para_block_number == b.block_number
    &&& d.para_block_hash == b.block_hash
    &&& d.parent_hash == b.parent_hash
    &&& d.relay_parent_num == b.relay_parent_num
    &&& d.relay_parent_hash == b.relay_parent_hash
    &&& d.built_at == b.built_at
    &&& d.collation_fetch_latency_ms == b.collation_fetch_latency_ms
    &&& reason_fits(b, chain, boundaries, window, log.hash_registry, d.reason)
    &&& are_known_blocks(
        chain,
        b.relay_parent_num as int,
        b.relay_parent_num + window + 2,
        d.nearby_relay_blocks,
    )
    &&& are_expired_on(log, b.relay_parent_num, d.collation_expired)
}

/// Whether a relay parent is at an edge of the relay blocks that a log shows: no relay import is
/// more than two blocks and the window below it, or none is more than that above it.
pub open spec fn at_edge(log: ParsedLogView, window: u32, rp: u32) -> bool {
    ||| log.relay_imports.len() > 0 && forall|k: int|
        0 <= k < log.relay_imports.len() ==> rp <= (#[trigger] log.relay_imports[k]).block_number
            + window + 2
    ||| forall|k: int|
        0 <= k < log.relay_imports.len() ==> (#[trigger] log.relay_imports[k]).block_number <= rp
            + window + 2
}

proof fn edge_means(log: ParsedLogView, window: u32, rp: u32)
    ensures
        near_edge(log, window, rp) == at_edge(log, window, rp),
{
    let n = log.relay_imports.len();
    let value = |i: int| log.relay_imports[i].block_number as int;
    least_of_is_least(n, value);
    greatest_of_is_greatest(n, value);
    assert(min_relay(log) == crate::search::least_of(n, value));
    assert(max_relay(log) == crate::search::greatest_of(n, value));
    if n > 0 {
        let low = min_relay(log)->0;
        let high = max_relay(log)->0;
        let a = choose|i: int| 0 <= i < n && #[trigger] value(i) == low;
        let b = choose|i: int| 0 <= i < n && #[trigger] value(i) == high;
        assert(log.relay_imports[a].block_number == low);
        assert(log.relay_imports[b].block_number == high);
        assert forall|k: int| 0 <= k < n implies low <= (
        #[trigger] log.relay_imports[k]).block_number <= high by {
            assert(value(k) == log.relay_imports[k].block_number);
        }
    }
}

/// The list that a built block goes to where it was not included.
pub open spec fn list_for(
    b: BuiltBlockView,
    log: ParsedLogView,
    chain: Map<u32, OnChainBlockInfoView>,
    boundaries: Seq<(u32, u32, u32)>,
    window: u32,
) -> DropClass {
    if at_edge(log, window, b.relay_parent_num) {
        DropClass::EdgeOfWindow
    } else if boundary_follows(boundaries, b.relay_parent_num, window) {
        DropClass::SessionBoundary
    } else if chain_differs(b, chain, log.hash_registry) {
        DropClass::WrongFork
    } else if window_has_block(chain, b.relay_parent_num, window) {
        DropClass::RelayParentExpired
    } else {
        DropClass::Unknown
    }
}

/// Whether a list of drops is that of a class: one drop for each built block that was not included
/// and belongs there, in the order of the blocks.
pub open spec fn is_list_of(
    built: Seq<BuiltBlockView>,
    log: ParsedLogView,
    chain: Map<u32, OnChainBlockInfoView>,
    boundaries: Seq<(u32, u32, u32)>,
    window: u32,
    class: DropClass,
    drops: Seq<DroppedBlockView>,
) -> bool {
    let ok = |i: int|
        !included_somewhere(chain, built[i].block_number) && list_for(
            built[i],
            log,
            chain,
            boundaries,
            window,
        ) == class;
    exists|at: Seq<int>| #[trigger]
        selects(at, built.len(), ok) && at.len() == drops.len() && forall|k: int|
            0 <= k < at.len() ==> tells_of_drop(
                built[at[k]],
                log,
                chain,
                boundaries,
                window,
                #[trigger] drops[k],
            )
}

proof fn class_means(
    b: BuiltBlockView,
    log: ParsedLogView,
    chain: Map<u32, OnChainBlockInfoView>,
    boundaries: Seq<(u32, u32, u32)>,
    window: u32,
)
    ensures
        class_of(log, window, drop_of(b, log, chain, boundaries, window)) == list_for(
            b,
            log,
            chain,
            boundaries,
            window,
        ),
        tells_of_drop(
            b,
            log,
            chain,
            boundaries,
            window,
            drop_of(b, log, chain, boundaries, window),
        ),
{
    edge_means(log, window, b.relay_parent_num);
    reasons_fit(b, chain, boundaries, window, log.hash_registry);
    blocks_between_are_known(
        chain,
        b.relay_parent_num as int,
        b.relay_parent_num + window + 2,
    );
    expired_entries_are_told(log, b.relay_parent_num);
    if chain.contains_key(b.relay_parent_num) {
        assert(b.relay_parent_num <= b.relay_parent_num <= b.relay_parent_num + window);
        assert(window_has_block(chain, b.relay_parent_num, window));
    }
}

proof fn drops_are_picked(
    built: Seq<BuiltBlockView>,
    n: nat,
    log: ParsedLogView,
    chain: Map<u32, OnChainBlockInfoView>,
    boundaries: Seq<(u32, u32, u32)>,
    window: u32,
    class: DropClass,
)
    ensures
        ({
            let ok = |i: int|
                !included_somewhere(chain, built[i].block_number) && list_for(
                    built[i],
                    log,
                    chain,
                    boundaries,
                    window,
                ) == class;
            let at = picked(n, ok);
            let drops = drops_of(built, n, log, chain, boundaries, window, class);
            &&& at.len() == drops.len()
            &&& forall|k: int|
                0 <= k < at.len() ==> #[trigger] drops[k] == drop_of(
                    built[at[k]],
                    log,
                    chain,
                    boundaries,
                    window,
                )
        }),
    decreases n,
{
    if n > 0 {
        drops_are_picked(built, (n - 1) as nat, log, chain, boundaries, window, class);
        inclusion_means(chain, built[n - 1].block_number);
        class_means(built[n - 1], log, chain, boundaries, window);
    }
}

proof fn list_is_right(
    built: Seq<BuiltBlockView>,
    log: ParsedLogView,
    chain: Map<u32, OnChainBlockInfoView>,
    boundaries: Seq<(u32, u32, u32)>,
    window: u32,
    class: DropClass,
)
    ensures
        is_list_of(
            built,
            log,
            chain,
            boundaries,
            window,
            class,
            drops_of(built, built.len(), log, chain, boundaries, window, class),
        ),
{
    let ok = |i: int|
        !included_somewhere(chain, built[i].block_number) && list_for(
            built[i],
            log,
            chain,
            boundaries,
            window,
        ) == class;
    let n = built.len();
    let at = picked(n, ok);
    let drops = drops_of(built, n, log, chain, boundaries, window, class);
    picked_selects(n, ok);
    drops_are_picked(built, n, log, chain, boundaries, window, class);
    assert forall|k: int| 0 <= k < at.len() implies tells_of_drop(
        built[at[k]],
        log,
        chain,
        boundaries,
        window,
        #[trigger] drops[k],
    ) by {
        class_means(built[at[k]], log, chain, boundaries, window);
    }
    assert(selects(at, n, ok));
}

/// A built block is told of as dropped exactly where no included candidate holds its number,
/// whatever was backed: once, in the list of its reason or of the edge, with that reason, the relay
/// blocks from its relay parent on, and the expired collations on it.
pub proof fn drops_are_those_not_included(
    built: Seq<BuiltBlockView>,
    log: ParsedLogView,
    chain: Map<u32, OnChainBlockInfoView>,
    boundaries: Seq<(u32, u32, u32)>,
    window: u32,
)
    ensures
        ({
            let a = analysis_of(built, log, chain, boundaries, window);
            let fits = |class: DropClass, drops: Seq<DroppedBlockView>|
                is_list_of(built, log, chain, boundaries, window, class, drops);
            &&& fits(DropClass::EdgeOfWindow, a.edge_of_window_drops)
            &&& fits(DropClass::SessionBoundary, a.session_boundary_drops)
            &&& fits(DropClass::WrongFork, a.wrong_fork_drops)
            &&& fits(DropClass::RelayParentExpired, a.relay_parent_expired_drops)
            &&& fits(DropClass::Unknown, a.unknown_drops)
        }),
{
    list_is_right(built, log, chain, boundaries, window, DropClass::EdgeOfWindow);
    list_is_right(built, log, chain, boundaries, window, DropClass::SessionBoundary);
    list_is_right(built, log, chain, boundaries, window, DropClass::WrongFork);
    list_is_right(built, log, chain, boundaries, window, DropClass::RelayParentExpired);
    list_is_right(built, log, chain, boundaries, window, DropClass::Unknown);
}

proof fn included_means(built: Seq<BuiltBlockView>, n: nat, chain: Map<u32, OnChainBlockInfoView>)
    ensures
        included_among(built, n, chain) == count_where(
            n,
            |i: int| included_somewhere(chain, built[i].block_number),
        ),
    decreases n,
{
    if n > 0 {
        included_means(built, (n - 1) as nat, chain);
        inclusion_means(chain, built[n - 1].block_number);
    }
}

/// As many blocks count as included as there are built blocks whose number an included candidate
/// holds.
pub proof fn included_blocks_are_counted(
    built: Seq<BuiltBlockView>,
    log: ParsedLogView,
    chain: Map<u32, OnChainBlockInfoView>,
    boundaries: Seq<(u32, u32, u32)>,
    window: u32,
)
    requires
        built.len() <= usize::MAX,
    ensures
        analysis_of(built, log, chain, boundaries, window).total_included == count_where(
            built.len(),
            |i: int| included_somewhere(chain, built[i].block_number),
        ),
{
    included_means(built, built.len(), chain);
    crate::search::count_where_bound(
        built.len(),
        |i: int| included_somewhere(chain, built[i].block_number),
    );
}

/// What is backed does not matter for what counts as included: two chains whose blocks include the
/// same candidates give the same count.
pub proof fn backing_does_not_include(
    chain: Map<u32, OnChainBlockInfoView>,
    other: Map<u32, OnChainBlockInfoView>,
    number: u32,
)
    requires
        chain.dom() == other.dom(),
        forall|n: u32| #[trigger]
            chain.contains_key(n) ==> chain[n].included_para_candidates
                == other[n].included_para_candidates,
    ensures
        is_included(chain, number) == is_included(other, number),
{
    inclusion_means(chain, number);
    inclusion_means(other, number);
    if included_somewhere(chain, number) {
        let (n, i) = choose|n: u32, i: int|
            #![trigger chain[n].included_para_candidates[i]]
            chain.contains_key(n) && 0 <= i < chain[n].included_para_candidates.len()
                && head_holds(chain[n].included_para_candidates[i], number);
        assert(other.contains_key(n));
        assert(head_holds(other[n].included_para_candidates[i], number));
    }
    if included_somewhere(other, number) {
        let (n, i) = choose|n: u32, i: int|
            #![trigger other[n].included_para_candidates[i]]
            other.contains_key(n) && 0 <= i < other[n].included_para_candidates.len()
                && head_holds(other[n].included_para_candidates[i], number);
        assert(other.dom().contains(n));
        assert(chain.contains_key(n));
        assert(head_holds(chain[n].included_para_candidates[i], number));
    }
}

// ---- The rest of the analysis ----
/// The time window runs from the earliest to the latest import of either chain; without imports it
/// is empty.
pub proof fn time_window_covers_imports(log: ParsedLogView)
    ensures
        match log_time_range(log) {
            Some((min, max)) => {
                &&& forall|k: int|
                    0 <= k < log.para_imports.len() ==> min <= (
                    #[trigger] log.para_imports[k]).timestamp <= max
                &&& forall|k: int|
                    0 <= k < log.relay_imports.len() ==> min <= (
                    #[trigger] log.relay_imports[k]).timestamp <= max
                &&& is_import_time(log, min)
                &&& is_import_time(log, max)
            },
            None => log.para_imports.len() == 0 && log.relay_imports.len() == 0,
        },
{
    let n = log.para_imports.len() + log.relay_imports.len();
    let value = |i: int| import_time(log, i);
    least_of_is_least(n, value);
    greatest_of_is_greatest(n, value);
    if let Some((min, max)) = log_time_range(log) {
        assert forall|k: int| 0 <= k < log.para_imports.len() implies min <= (
        #[trigger] log.para_imports[k]).timestamp <= max by {
            assert(value(k) == log.para_imports[k].timestamp);
        }
        assert forall|k: int| 0 <= k < log.relay_imports.len() implies min <= (
        #[trigger] log.relay_imports[k]).timestamp <= max by {
            assert(value(log.para_imports.len() + k) == log.relay_imports[k].timestamp);
        }
        let a = choose|i: int| 0 <= i < n && #[trigger] value(i) == min;
        let b = choose|i: int| 0 <= i < n && #[trigger] value(i) == max;
        import_has_time(log, a);
        import_has_time(log, b);
    }
}

/// Whether an import of either chain has a time.
pub open spec fn is_import_time(log: ParsedLogView, time: int) -> bool {
    ||| exists|k: int|
        0 <= k < log.para_imports.len() && (#[trigger] log.para_imports[k]).timestamp == time
    ||| exists|k: int|
        0 <= k < log.relay_imports.len() && (#[trigger] log.relay_imports[k]).timestamp == time
}

proof fn import_has_time(log: ParsedLogView, i: int)
    requires
        0 <= i < log.para_imports.len() + log.relay_imports.len(),
    ensures
        is_import_time(log, import_time(log, i)),
{
    if i < log.para_imports.len() {
        assert(log.para_imports[i].timestamp == import_time(log, i));
    } else {
        let k = i - log.para_imports.len();
        assert(log.relay_imports[k].timestamp == import_time(log, i));
    }
}

/// Whether a number is that of a relay import.
pub open spec fn is_relay_number(log: ParsedLogView, number: int) -> bool {
    exists|k: int|
        0 <= k < log.relay_imports.len() && (#[trigger] log.relay_imports[k]).block_number
            == number
}

/// The analysis carries over the totals, the boundaries, the times of the imports and the relay
/// block range of the log.
pub proof fn analysis_describes_the_log(
    built: Seq<BuiltBlockView>,
    log: ParsedLogView,
    chain: Map<u32, OnChainBlockInfoView>,
    boundaries: Seq<(u32, u32, u32)>,
    window: u32,
)
    requires
        built.len() <= usize::MAX,
    ensures
        ({
            let a = analysis_of(built, log, chain, boundaries, window);
            &&& a.total_built == built.len()
            &&& a.session_boundaries == boundaries
            &&& log.para_imports.len() + log.relay_imports.len() > 0 ==> Some(a.time_window)
                == log_time_range(log)
            &&& log.para_imports.len() + log.relay_imports.len() == 0 ==> a.time_window == (0int, 0int)
            &&& match (a.min_relay_block, a.max_relay_block) {
                (Some(min), Some(max)) => {
                    &&& is_relay_number(log, min as int)
                    &&& is_relay_number(log, max as int)
                    &&& forall|k: int|
                        0 <= k < log.relay_imports.len() ==> min <= (
                        #[trigger] log.relay_imports[k]).block_number <= max
                },
                (None, None) => log.relay_imports.len() == 0,
                _ => false,
            }
        }),
{
    time_window_covers_imports(log);
    let n = log.relay_imports.len();
    let value = |i: int| log.relay_imports[i].block_number as int;
    least_of_is_least(n, value);
    greatest_of_is_greatest(n, value);
    if n > 0 {
        let low = min_relay(log)->0;
        let high = max_relay(log)->0;
        let a = choose|i: int| 0 <= i < n && #[trigger] value(i) == low;
        let b = choose|i: int| 0 <= i < n && #[trigger] value(i) == high;
        assert(log.relay_imports[a].block_number == low);
        assert(log.relay_imports[b].block_number == high);
        assert forall|k: int| 0 <= k < n implies low <= (
        #[trigger] log.relay_imports[k]).block_number <= high by {
            assert(value(k) == log.relay_imports[k].block_number);
        }
    }
}

/// The number of cores is that of the different cores that collations were submitted for, or one
/// where there are none.
pub proof fn cores_are_counted(log: ParsedLogView, cores: Set<u32>)
    requires
        forall|c: u32| #[trigger]
            cores.contains(c) <==> exists|i: int|
                0 <= i < log.collation_submissions.len() && (
                #[trigger] log.collation_submissions[i]).core_index == c,
    ensures
        cores.finite(),
        cores.len() <= u32::MAX ==> cores_of(log) == if cores.len() == 0 {
            1
        } else {
            cores.len()
        },
{
    let n = log.collation_submissions.len();
    let all = |i: int| true;
    let core = |i: int| log.collation_submissions[i].core_index as u64;
    let list = distinct_values(n, all, core);
    distinct_values_are_all(n, all, core);
    assert(strictly_ascending(list));
    assert forall|i: int, j: int| 0 <= i < list.len() && 0 <= j < list.len() && i != j implies list[i]
        != list[j] by {
        if i < j {
            assert(list[i] < list[j]);
        } else {
            assert(list[j] < list[i]);
        }
    }
    assert(list.no_duplicates());
    let narrow = list.map_values(|x: u64| x as u32);
    assert forall|k: int| 0 <= k < list.len() implies #[trigger] list[k] <= u32::MAX by {
        assert(list.contains(list[k]));
        let i = choose|i: int| 0 <= i < n && all(i) && #[trigger] core(i) == list[k];
    }
    assert forall|i: int, j: int| 0 <= i < narrow.len() && 0 <= j < narrow.len() && i
        != j implies narrow[i] != narrow[j] by {
        assert(list[i] <= u32::MAX && list[j] <= u32::MAX);
        assert(list[i] != list[j]);
    }
    assert(narrow.no_duplicates());
    assert(narrow.to_set() =~= cores) by {
        assert forall|c: u32| narrow.to_set().contains(c) <==> cores.contains(c) by {
            if narrow.contains(c) {
                let k = choose|k: int| 0 <= k < narrow.len() && narrow[k] == c;
                assert(list.contains(list[k]));
                let i = choose|i: int| 0 <= i < n && all(i) && #[trigger] core(i) == list[k];
                assert(log.collation_submissions[i].core_index == c);
            }
            if cores.contains(c) {
                let i = choose|i: int|
                    0 <= i < n && (#[trigger] log.collation_submissions[i]).core_index == c;
                assert(0 <= i < n && all(i) && core(i) == c as u64);
                assert(list.contains(c as u64));
                let k = choose|k: int| 0 <= k < list.len() && list[k] == c as u64;
                assert(narrow[k] == c);
            }
        }
    }
    narrow.unique_seq_to_set();
}

/// How many of the session boundary drops have a relay parent at most five blocks from boundary `i`.
pub open spec fn drops_at(a: AnalysisView, i: int) -> nat {
    count_where(
        a.session_boundary_drops.len(),
        |k: int|
            {
                let gap = a.session_boundary_drops[k].relay_parent_num - a.session_boundaries[i].0;
                -5 <= gap <= 5
            },
    )
}

proof fn drops_near_means(a: AnalysisView, i: int, n: nat)
    ensures
        count_where(
            n,
            |k: int|
                near_boundary(
                    a.session_boundaries[i].0,
                    a.session_boundary_drops[k].relay_parent_num,
                ),
        ) == count_where(
            n,
            |k: int|
                {
                    let gap = a.session_boundary_drops[k].relay_parent_num
                        - a.session_boundaries[i].0;
                    -5 <= gap <= 5
                },
        ),
    decreases n,
{
    if n > 0 {
        drops_near_means(a, i, (n - 1) as nat);
    }
}

proof fn sums_agree(n: nat, f: spec_fn(int) -> int, g: spec_fn(int) -> int)
    requires
        forall|i: int| 0 <= i < n ==> #[trigger] f(i) == g(i),
    ensures
        sum_of(n, f) == sum_of(n, g),
    decreases n,
{
    if n > 0 {
        sums_agree((n - 1) as nat, f, g);
        assert(f(n - 1) == g(n - 1));
    }
}

/// The statistics per session change are those of the counts of drops at each boundary: their sum
/// over the number of boundaries, the least and the greatest of them.
pub proof fn session_stats_are_of_counts(a: AnalysisView)
    requires
        a.session_boundaries.len() > 0,
        a.session_boundary_drops.len() <= u32::MAX,
    ensures
        ({
            let (num, den, min, max) = session_stats(a);
            let n = a.session_boundaries.len();
            &&& den == n
            &&& num == sum_of(n, |i: int| drops_at(a, i) as int)
            &&& forall|i: int| 0 <= i < n ==> min <= #[trigger] drops_at(a, i) <= max
            &&& exists|i: int| 0 <= i < n && #[trigger] drops_at(a, i) == min
            &&& exists|i: int| 0 <= i < n && #[trigger] drops_at(a, i) == max
        }),
{
    let n = a.session_boundaries.len();
    let drops = |i: int| crate::drops::drops_near(a, i) as int;
    let mine = |i: int| drops_at(a, i) as int;
    let (num, den, min, max) = session_stats(a);
    assert forall|i: int| 0 <= i < n implies #[trigger] drops(i) == drops_at(a, i) && drops(i)
        == mine(i) by {
        drops_near_means(a, i, a.session_boundary_drops.len());
        crate::search::count_where_bound(
            a.session_boundary_drops.len(),
            |k: int|
                near_boundary(
                    a.session_boundaries[i].0,
                    a.session_boundary_drops[k].relay_parent_num,
                ),
        );
    }
    sums_agree(n, drops, mine);
    least_of_is_least(n, drops);
    greatest_of_is_greatest(n, drops);
    let x = choose|i: int|
        0 <= i < n && #[trigger] drops(i) == crate::search::least_of(n, drops)->0;
    let y = choose|i: int|
        0 <= i < n && #[trigger] drops(i) == crate::search::greatest_of(n, drops)->0;
    assert(drops_at(a, x) == drops(x));
    assert(drops_at(a, y) == drops(y));
    assert(0 <= drops(x) <= u32::MAX && 0 <= drops(y) <= u32::MAX);
    assert forall|i: int| 0 <= i < n implies min <= #[trigger] drops_at(a, i) <= max by {
        assert(drops(i) == drops_at(a, i));
    }
}

} // verus!
