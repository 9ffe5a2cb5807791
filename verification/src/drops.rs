//! Which built blocks were included on-chain, which were dropped, and why.

use crate::built_blocks::{BuiltBlock, BuiltBlockView};
use crate::chain_client::{chain_view, decode_para_block_number, para_number};
use crate::collations::{collations_expired_on, expired_on};
use crate::hash::{resolved, same_hash, stands_for, RegistryView};
use crate::logs::{log_time_range, max_relay, min_relay};
use crate::model::{views, views_push};
use crate::search::{
    add_ascending, count_where, distinct_values, first_where, first_where_is_first,
    first_where_stays, strictly_ascending, sum_of, with_value_adds,
};
use crate::time::{moment, Timestamp};
use crate::types::{
    Analysis, AnalysisView, DropReason, DropReasonView, DroppedBlock, DroppedBlockView,
    OnChainBlockInfo, OnChainBlockInfoView, ParaCandidateEvent, ParaCandidateEventView, ParsedLog,
    ParsedLogView, Ratio,
};
use std::collections::{BTreeMap, HashSet};
use vstd::prelude::*;

verus! {

broadcast use vstd::std_specs::hash::group_hash_axioms;

// ---- The relay blocks to look at ----
/// Whether a relay block is of interest for a built block: from the one before its relay parent to
/// two beyond the viability window.
pub open spec fn is_wanted(b: BuiltBlockView, window: u32, n: int) -> bool {
    b.relay_parent_num - 1 <= n <= b.relay_parent_num + window + 2
}

/// The relay blocks of interest for the built blocks.
pub fn relay_blocks_to_query(built: &Vec<BuiltBlock>, viability_window: u32) -> (blocks: Vec<u32>)
    ensures
        forall|i: int, j: int| 0 <= i < j < blocks@.len() ==> blocks@[i] < blocks@[j],
        forall|n: u32| #[trigger]
            blocks@.contains(n) <==> exists|i: int|
                0 <= i < built@.len() && is_wanted(
                    #[trigger] views(built@)[i],
                    viability_window,
                    n as int,
                ),
{
    let mut wanted: Vec<u64> = Vec::new();
    let mut i: usize = 0;
    while i < built.len()
        invariant
            i <= built@.len(),
            strictly_ascending(wanted@),
            forall|n: u64| #[trigger]
                wanted@.contains(n) <==> n <= u32::MAX && exists|k: int|
                    0 <= k < i && is_wanted(
                        #[trigger] views(built@)[k],
                        viability_window,
                        n as int,
                    ),
        decreases built@.len() - i,
    {
        let rp = built[i].relay_parent_num as u64;
        let ghost b = views(built@)[i as int];
        assert(b == built@[i as int]@);
        let ghost before = wanted@;
        let from: u64 = if rp > 0 {
            rp - 1
        } else {
            rp
        };
        let end: u64 = rp + viability_window as u64 + 2;
        let last: u64 = if end <= u32::MAX as u64 {
            end
        } else {
            u32::MAX as u64
        };
        let mut n = from;
        while n <= last
            invariant
                from <= n <= last + 1,
                last <= u32::MAX,
                strictly_ascending(wanted@),
                forall|m: u64| #[trigger]
                    wanted@.contains(m) <==> before.contains(m) || from <= m < n,
            decreases last + 1 - n,
        {
            proof {
                with_value_adds(wanted@, n);
            }
            add_ascending(&mut wanted, n);
            n = n + 1;
        }
        proof {
            assert forall|m: u64| #[trigger]
                wanted@.contains(m) <==> m <= u32::MAX && exists|k: int|
                    0 <= k < i + 1 && is_wanted(
                        #[trigger] views(built@)[k],
                        viability_window,
                        m as int,
                    ) by {
                if before.contains(m) {
                    let k = choose|k: int|
                        0 <= k < i && is_wanted(
                            #[trigger] views(built@)[k],
                            viability_window,
                            m as int,
                        );
                    assert(0 <= k < i + 1 && is_wanted(
                        views(built@)[k],
                        viability_window,
                        m as int,
                    ));
                }
                if from <= m <= last {
                    assert(is_wanted(views(built@)[i as int], viability_window, m as int));
                }
            }
        }
        i = i + 1;
    }
    let mut blocks: Vec<u32> = Vec::new();
    let mut k: usize = 0;
    assert forall|a: int| 0 <= a < wanted@.len() implies #[trigger] wanted@[a] <= u32::MAX by {
        assert(wanted@.contains(wanted@[a]));
    }
    while k < wanted.len()
        invariant
            k <= wanted@.len(),
            blocks@.len() == k,
            forall|a: int| 0 <= a < wanted@.len() ==> #[trigger] wanted@[a] <= u32::MAX,
            forall|a: int| 0 <= a < k ==> #[trigger] blocks@[a] == wanted@[a],
        decreases wanted@.len() - k,
    {
        blocks.push(wanted[k] as u32);
        k = k + 1;
    }
    proof {
        assert forall|n: u32| #[trigger]
            blocks@.contains(n) <==> exists|i: int|
                0 <= i < built@.len() && is_wanted(
                    #[trigger] views(built@)[i],
                    viability_window,
                    n as int,
                ) by {
            if blocks@.contains(n) {
                let a = choose|a: int| 0 <= a < blocks@.len() && blocks@[a] == n;
                assert(wanted@[a] == n as u64);
                assert(wanted@.contains(n as u64));
            }
            if wanted@.contains(n as u64) {
                let a = choose|a: int| 0 <= a < wanted@.len() && wanted@[a] == n as u64;
                assert(blocks@[a] == n);
            }
        }
    }
    blocks
}

// ---- What is known of the relay blocks ----
/// The parachain block number of a candidate.
pub open spec fn candidate_number(c: ParaCandidateEventView) -> Option<u32> {
    match c.para_head_data {
        Some(head) => para_number(head),
        None => None,
    }
}

/// The parachain block number of a candidate.
pub fn number_of_candidate(c: &ParaCandidateEvent) -> (number: Option<u32>)
    ensures
        number == candidate_number(c@),
{
    match &c.para_head_data {
        Some(head) => decode_para_block_number(head.as_slice()),
        None => None,
    }
}

/// Whether a block includes a parachain block number.
pub open spec fn includes_number(info: OnChainBlockInfoView, number: u32) -> bool {
    exists|i: int|
        0 <= i < info.included_para_candidates.len() && candidate_number(
            #[trigger] info.included_para_candidates[i],
        ) == Some(number)
}

/// Whether a parachain block number was included in one of the blocks.
pub open spec fn is_included(chain: Map<u32, OnChainBlockInfoView>, number: u32) -> bool {
    exists|n: u32| #[trigger] chain.contains_key(n) && includes_number(chain[n], number)
}

fn add_included(numbers: &mut HashSet<u32>, info: &OnChainBlockInfo)
    ensures
        forall|n: u32| #[trigger]
            final(numbers)@.contains(n) <==> old(numbers)@.contains(n) || includes_number(info@, n),
{
    let ghost before = numbers@;
    let mut i: usize = 0;
    while i < info.included_para_candidates.len()
        invariant
            i <= info.included_para_candidates@.len(),
            before == old(numbers)@,
            forall|n: u32| #[trigger]
                numbers@.contains(n) <==> before.contains(n) || exists|k: int|
                    0 <= k < i && candidate_number(#[trigger] info@.included_para_candidates[k])
                        == Some(n),
        decreases info.included_para_candidates@.len() - i,
    {
        let ghost now = numbers@;
        let candidate = &info.included_para_candidates[i];
        assert(info@.included_para_candidates[i as int] == candidate@);
        let number = number_of_candidate(candidate);
        if let Some(n) = number {
            numbers.insert(n);
        }
        proof {
            assert forall|n: u32| #[trigger]
                numbers@.contains(n) <==> before.contains(n) || exists|k: int|
                    0 <= k < i + 1 && candidate_number(#[trigger] info@.included_para_candidates[k])
                        == Some(n) by {
                if now.contains(n) && !before.contains(n) {
                    let k = choose|k: int|
                        0 <= k < i && candidate_number(#[trigger] info@.included_para_candidates[k])
                            == Some(n);
                    assert(0 <= k < i + 1);
                }
                if number == Some(n) {
                    assert(candidate_number(info@.included_para_candidates[i as int]) == Some(n));
                }
            }
        }
        i = i + 1;
    }
}

/// The parachain block numbers included in the blocks.
fn included_numbers(on_chain: &BTreeMap<u32, OnChainBlockInfo>) -> (numbers: HashSet<u32>)
    ensures
        forall|n: u32| #[trigger]
            numbers@.contains(n) <==> is_included(chain_view(on_chain@), n),
{
    let mut numbers: HashSet<u32> = HashSet::new();
    let ghost chain = chain_view(on_chain@);
    for (_key, info) in it: on_chain.iter()
        invariant
            chain == chain_view(on_chain@),
            forall|j: int|
                0 <= j < it.seq().len() ==> on_chain@.contains_key(*(#[trigger] it.seq()[j]).0)
                    && on_chain@[*it.seq()[j].0] == *it.seq()[j].1,
            forall|k: u32| #[trigger]
                on_chain@.contains_key(k) ==> exists|j: int|
                    0 <= j < it.seq().len() && *(#[trigger] it.seq()[j]).0 == k,
            forall|n: u32| #[trigger] numbers@.contains(n) ==> is_included(chain, n),
            forall|k: u32, n: u32|
                #[trigger] chain.contains_key(k) && #[trigger] includes_number(chain[k], n) ==> {
                    ||| numbers@.contains(n)
                    ||| exists|j: int|
                        it.index() <= j < it.seq().len() && *(#[trigger] it.seq()[j]).0 == k
                },
    {
        let ghost at = it.index();
        let ghost now = numbers@;
        assert(*it.seq()[at].1 == *info);
        let ghost key = *it.seq()[at].0;
        assert(on_chain@.contains_key(key) && on_chain@[key] == *info);
        assert(chain.contains_key(key) && chain[key] == info@);
        add_included(&mut numbers, info);
        proof {
            assert forall|k: u32, n: u32|
                #[trigger] chain.contains_key(k) && #[trigger] includes_number(chain[k], n) implies {
                ||| numbers@.contains(n)
                ||| exists|j: int|
                    at + 1 <= j < it.seq().len() && *(#[trigger] it.seq()[j]).0 == k
            } by {
                if !now.contains(n) {
                    let j = choose|j: int|
                        at <= j < it.seq().len() && *(#[trigger] it.seq()[j]).0 == k;
                    if j == at {
                        assert(includes_number(info@, n));
                    } else {
                        assert(at + 1 <= j);
                    }
                }
            }
        }
    }
    numbers
}

/// The known blocks with a number from `from` to `to`, by number.
pub open spec fn blocks_between(
    chain: Map<u32, OnChainBlockInfoView>,
    from: int,
    to: int,
) -> Seq<OnChainBlockInfoView>
    decreases to + 1 - from,
{
    if to < from {
        Seq::empty()
    } else {
        let before = blocks_between(chain, from, to - 1);
        if 0 <= to <= u32::MAX && chain.contains_key(to as u32) {
            before.push(chain[to as u32])
        } else {
            before
        }
    }
}

proof fn no_blocks_beyond(chain: Map<u32, OnChainBlockInfoView>, from: int, mid: int, to: int)
    requires
        u32::MAX <= mid <= to,
    ensures
        blocks_between(chain, from, to) == blocks_between(chain, from, mid),
    decreases to - mid,
{
    if mid < to && from <= to {
        no_blocks_beyond(chain, from, mid, to - 1);
    }
}

/// The known blocks with a number from `from` to `to`, by number.
pub fn known_blocks_between(
    on_chain: &BTreeMap<u32, OnChainBlockInfo>,
    from: u64,
    to: u64,
) -> (blocks: Vec<OnChainBlockInfo>)
    ensures
        views(blocks@) == blocks_between(chain_view(on_chain@), from as int, to as int),
{
    let mut blocks: Vec<OnChainBlockInfo> = Vec::new();
    assert(views(blocks@) =~= Seq::<OnChainBlockInfoView>::empty());
    let last: u64 = if to <= u32::MAX as u64 {
        to
    } else {
        u32::MAX as u64
    };
    let mut n = from;
    while n <= last
        invariant
            from <= n,
            n > last + 1 ==> n == from,
            last <= u32::MAX,
            views(blocks@) == blocks_between(chain_view(on_chain@), from as int, n - 1),
        decreases last + 1 - n,
    {
        let key = n as u32;
        if let Some(info) = on_chain.get(&key) {
            let copy = info.clone();
            proof {
                views_push(blocks@, copy);
            }
            blocks.push(copy);
        }
        n = n + 1;
    }
    proof {
        if to > u32::MAX {
            no_blocks_beyond(chain_view(on_chain@), from as int, last as int, to as int);
        }
        if from > last {
            if from > to {
                assert(blocks_between(chain_view(on_chain@), from as int, to as int)
                    =~= Seq::empty());
            } else {
                no_blocks_beyond(chain_view(on_chain@), from as int, from - 1, to as int);
            }
        }
    }
    blocks
}

// ---- Why a block was dropped ----
/// Whether a session boundary falls within the viability window of a relay parent.
pub open spec fn boundary_in_window(boundary: (u32, u32, u32), rp: u32, window: u32) -> bool {
    rp < boundary.0 <= rp + window + 1
}

/// The first session boundary within the viability window of a relay parent.
pub open spec fn first_boundary(
    boundaries: Seq<(u32, u32, u32)>,
    rp: u32,
    window: u32,
) -> Option<int> {
    first_where(boundaries.len(), |i: int| boundary_in_window(boundaries[i], rp, window))
}

/// Whether the relay parent of a block is known not to be the one on the chain: by its whole hash,
/// or by the whole hash that the registry finds for a truncated one that does not fit.
pub open spec fn on_wrong_fork(
    b: BuiltBlockView,
    chain: Map<u32, OnChainBlockInfoView>,
    registry: RegistryView,
) -> bool {
    &&& chain.contains_key(b.relay_parent_num)
    &&& {
        let canonical = chain[b.relay_parent_num].block_hash;
        match b.relay_parent_hash.full {
            Some(full) => full != canonical,
            None => {
                &&& !stands_for(b.relay_parent_hash, canonical)
                &&& match resolved(registry, b.relay_parent_hash.raw) {
                    Some(found) => found != canonical,
                    None => false,
                }
            },
        }
    }
}

/// Whether anything is known of the relay blocks in which a block could have been backed: from its
/// relay parent to the end of the viability window.
pub open spec fn window_is_known(
    chain: Map<u32, OnChainBlockInfoView>,
    rp: u32,
    window: u32,
) -> bool {
    exists|n: u32| #[trigger] chain.contains_key(n) && rp <= n <= rp + window
}

/// Why a block was dropped: a session boundary, else a wrong fork, else an expired relay parent;
/// unknown where no boundary tells and nothing is known of the window.
pub open spec fn reason_of(
    b: BuiltBlockView,
    chain: Map<u32, OnChainBlockInfoView>,
    boundaries: Seq<(u32, u32, u32)>,
    window: u32,
    registry: RegistryView,
) -> DropReasonView {
    match first_boundary(boundaries, b.relay_parent_num, window) {
        Some(i) => DropReasonView::SessionBoundary {
            session_before: boundaries[i].1,
            session_after: boundaries[i].2,
            boundary_relay_block: boundaries[i].0,
        },
        None => if on_wrong_fork(b, chain, registry) {
            DropReasonView::WrongFork {
                relay_parent_num: b.relay_parent_num,
                relay_parent_hash: b.relay_parent_hash,
            }
        } else if window_is_known(chain, b.relay_parent_num, window) {
            DropReasonView::RelayParentExpired {
                relay_parent_num: b.relay_parent_num,
                viability_window: window,
            }
        } else {
            DropReasonView::Unknown
        },
    }
}

/// The reason is unknown exactly where no session boundary is in the window and none of the relay
/// blocks from the relay parent to the end of the window is known.
pub proof fn unknown_where_data_is_missing(
    b: BuiltBlockView,
    chain: Map<u32, OnChainBlockInfoView>,
    boundaries: Seq<(u32, u32, u32)>,
    window: u32,
    registry: RegistryView,
)
    ensures
        reason_of(b, chain, boundaries, window, registry) is Unknown <==> {
            &&& forall|i: int|
                0 <= i < boundaries.len() ==> !boundary_in_window(
                    #[trigger] boundaries[i],
                    b.relay_parent_num,
                    window,
                )
            &&& forall|n: u32|
                b.relay_parent_num <= n <= b.relay_parent_num + window ==> !(
                #[trigger] chain.contains_key(n))
        },
{
    let rp = b.relay_parent_num;
    let ok = |i: int| boundary_in_window(boundaries[i], rp, window);
    first_where_is_first(boundaries.len(), ok);
    match first_boundary(boundaries, rp, window) {
        Some(i) => {
            assert(ok(i));
            assert(boundary_in_window(boundaries[i], rp, window));
        },
        None => {
            assert forall|i: int| 0 <= i < boundaries.len() implies !boundary_in_window(
                #[trigger] boundaries[i],
                rp,
                window,
            ) by {
                assert(!ok(i));
            }
        },
    }
    if chain.contains_key(rp) {
        assert(window_is_known(chain, rp, window));
    }
}

fn find_boundary(boundaries: &Vec<(u32, u32, u32)>, rp: u32, window: u32) -> (at: Option<usize>)
    ensures
        match at {
            Some(i) => first_boundary(boundaries@, rp, window) == Some(i as int) && i
                < boundaries@.len(),
            None => first_boundary(boundaries@, rp, window) is None,
        },
{
    let ghost ok = |i: int| boundary_in_window(boundaries@[i], rp, window);
    let mut i: usize = 0;
    while i < boundaries.len()
        invariant
            i <= boundaries@.len(),
            ok == (|i: int| boundary_in_window(boundaries@[i], rp, window)),
            first_where(i as nat, ok) is None,
        decreases boundaries@.len() - i,
    {
        let block = boundaries[i].0;
        if block > rp && block as u64 <= rp as u64 + window as u64 + 1 {
            proof {
                first_where_stays(boundaries@.len(), (i + 1) as nat, ok);
            }
            return Some(i);
        }
        i = i + 1;
    }
    None
}

fn is_on_wrong_fork(
    b: &BuiltBlock,
    on_chain: &BTreeMap<u32, OnChainBlockInfo>,
    log: &ParsedLog,
) -> (wrong: bool)
    ensures
        wrong == on_wrong_fork(b@, chain_view(on_chain@), log@.hash_registry),
{
    match on_chain.get(&b.relay_parent_num) {
        Some(info) => {
            assert(chain_view(on_chain@)[b.relay_parent_num] == info@);
            match &b.relay_parent_hash.full {
                Some(full) => !same_hash(full, &info.block_hash),
                None => !b.relay_parent_hash.matches_full(&info.block_hash) && match log.hash_registry
                    .resolve(b.relay_parent_hash.raw.as_str()) {
                    Some(found) => !same_hash(&found, &info.block_hash),
                    None => false,
                },
            }
        },
        None => false,
    }
}

/// Whether one of the relay blocks from the relay parent to the end of the window is known.
fn knows_window(
    on_chain: &BTreeMap<u32, OnChainBlockInfo>,
    rp: u32,
    window: u32,
) -> (known: bool)
    ensures
        known == window_is_known(chain_view(on_chain@), rp, window),
{
    let end: u64 = rp as u64 + window as u64;
    let last: u32 = if end <= u32::MAX as u64 {
        end as u32
    } else {
        u32::MAX
    };
    let mut n = rp;
    loop
        invariant
            rp <= n <= last,
            end == rp + window,
            last == end || (last == u32::MAX && end > u32::MAX),
            forall|k: u32| rp <= k < n ==> !(#[trigger] on_chain@.contains_key(k)),
        decreases last - n,
    {
        if on_chain.contains_key(&n) {
            assert(chain_view(on_chain@).contains_key(n));
            return true;
        }
        if n == last {
            assert forall|k: u32| rp <= k <= end implies !(#[trigger] chain_view(
                on_chain@,
            ).contains_key(k)) by {
                assert(!on_chain@.contains_key(k));
            }
            return false;
        }
        n = n + 1;
    }
}

/// Finds out why a block was dropped.
pub fn classify_drop(
    b: &BuiltBlock,
    on_chain: &BTreeMap<u32, OnChainBlockInfo>,
    session_boundaries: &Vec<(u32, u32, u32)>,
    viability_window: u32,
    log: &ParsedLog,
) -> (reason: DropReason)
    ensures
        reason@ == reason_of(
            b@,
            chain_view(on_chain@),
            session_boundaries@,
            viability_window,
            log@.hash_registry,
        ),
{
    if let Some(i) = find_boundary(session_boundaries, b.relay_parent_num, viability_window) {
        let (boundary_relay_block, session_before, session_after) = session_boundaries[i];
        return DropReason::SessionBoundary { session_before, session_after, boundary_relay_block };
    }
    if is_on_wrong_fork(b, on_chain, log) {
        return DropReason::WrongFork {
            relay_parent_num: b.relay_parent_num,
            relay_parent_hash: b.relay_parent_hash.clone(),
        };
    }
    if knows_window(on_chain, b.relay_parent_num, viability_window) {
        DropReason::RelayParentExpired { relay_parent_num: b.relay_parent_num, viability_window }
    } else {
        DropReason::Unknown
    }
}

/// The number of cores that collations were submitted for, at least one.
pub open spec fn cores_of(log: ParsedLogView) -> u32 {
    let n = distinct_values(
        log.collation_submissions.len(),
        |i: int| true,
        |i: int| log.collation_submissions[i].core_index as u64,
    ).len();
    (if n > 1 {
        n
    } else {
        1
    }) as u32
}

/// Detects the number of cores from log data.
pub fn detect_n_cores(log: &ParsedLog) -> (n: u32)
    ensures
        n == cores_of(log@),
{
    let mut cores: Vec<u64> = Vec::new();
    let mut i: usize = 0;
    let ghost all = |i: int| true;
    let ghost core = |i: int| log@.collation_submissions[i].core_index as u64;
    while i < log.collation_submissions.len()
        invariant
            i <= log.collation_submissions@.len(),
            all == (|i: int| true),
            core == (|i: int| log@.collation_submissions[i].core_index as u64),
            cores@ == distinct_values(i as nat, all, core),
        decreases log.collation_submissions@.len() - i,
    {
        assert(log@.collation_submissions[i as int] == log.collation_submissions@[i as int]@);
        add_ascending(&mut cores, log.collation_submissions[i].core_index as u64);
        i = i + 1;
    }
    let n = if cores.len() > 1 {
        cores.len()
    } else {
        1
    };
    n as u32
}

// ---- The analysis ----
/// What is told of a dropped block.
pub open spec fn drop_of(
    b: BuiltBlockView,
    log: ParsedLogView,
    chain: Map<u32, OnChainBlockInfoView>,
    boundaries: Seq<(u32, u32, u32)>,
    window: u32,
) -> DroppedBlockView {
    DroppedBlockView {
        para_block_number: b.block_number,
        para_block_hash: b.block_hash,
        parent_hash: b.parent_hash,
        relay_parent_num: b.relay_parent_num,
        relay_parent_hash: b.relay_parent_hash,
        built_at: b.built_at,
        collation_fetch_latency_ms: b.collation_fetch_latency_ms,
        reason: reason_of(b, chain, boundaries, window, log.hash_registry),
        nearby_relay_blocks: blocks_between(
            chain,
            b.relay_parent_num as int,
            b.relay_parent_num + window + 2,
        ),
        collation_expired: expired_on(log, b.relay_parent_num),
    }
}

/// Whether a relay parent is so near the start or end of the relay blocks of a log that what was
/// built on it might have been included outside of them.
pub open spec fn near_edge(log: ParsedLogView, window: u32, rp: u32) -> bool {
    let low = match min_relay(log) {
        Some(m) => m,
        None => 0,
    };
    let high = match max_relay(log) {
        Some(m) => m,
        None => 0,
    };
    rp >= high - (window + 2) || rp <= low + window + 2
}

/// The list that a drop goes to.
#[derive(Clone, Copy, Debug, PartialEq, Eq, Structural)]
pub enum DropClass {
    EdgeOfWindow,
    SessionBoundary,
    RelayParentExpired,
    WrongFork,
    Unknown,
}

/// The list that a drop goes to: by its reason, unless it is near an edge.
pub open spec fn class_of(log: ParsedLogView, window: u32, d: DroppedBlockView) -> DropClass {
    if near_edge(log, window, d.relay_parent_num) {
        DropClass::EdgeOfWindow
    } else {
        match d.reason {
            DropReasonView::SessionBoundary { .. } => DropClass::SessionBoundary,
            DropReasonView::RelayParentExpired { .. } => DropClass::RelayParentExpired,
            DropReasonView::WrongFork { .. } => DropClass::WrongFork,
            DropReasonView::Unknown => DropClass::Unknown,
        }
    }
}

/// The drops of a class among the first `n` built blocks.
pub open spec fn drops_of(
    built: Seq<BuiltBlockView>,
    n: nat,
    log: ParsedLogView,
    chain: Map<u32, OnChainBlockInfoView>,
    boundaries: Seq<(u32, u32, u32)>,
    window: u32,
    class: DropClass,
) -> Seq<DroppedBlockView>
    decreases n,
{
    if n == 0 {
        Seq::empty()
    } else {
        let before = drops_of(built, (n - 1) as nat, log, chain, boundaries, window, class);
        let d = drop_of(built[n - 1], log, chain, boundaries, window);
        if !is_included(chain, built[n - 1].block_number) && class_of(log, window, d) == class {
            before.push(d)
        } else {
            before
        }
    }
}

/// How many of the first `n` built blocks were included.
pub open spec fn included_among(
    built: Seq<BuiltBlockView>,
    n: nat,
    chain: Map<u32, OnChainBlockInfoView>,
) -> nat {
    count_where(n, |i: int| is_included(chain, built[i].block_number))
}

/// A block number, if there is one.
pub open spec fn as_u32(n: Option<int>) -> Option<u32> {
    match n {
        Some(n) => Some(n as u32),
        None => None,
    }
}

/// The analysis of the built blocks.
pub open spec fn analysis_of(
    built: Seq<BuiltBlockView>,
    log: ParsedLogView,
    chain: Map<u32, OnChainBlockInfoView>,
    boundaries: Seq<(u32, u32, u32)>,
    window: u32,
) -> AnalysisView {
    let drops = |class: DropClass|
        drops_of(built, built.len(), log, chain, boundaries, window, class);
    AnalysisView {
        time_window: match log_time_range(log) {
            Some(range) => range,
            None => (moment(0, 0), moment(0, 0)),
        },
        min_relay_block: as_u32(min_relay(log)),
        max_relay_block: as_u32(max_relay(log)),
        total_built: built.len() as usize,
        total_included: included_among(built, built.len(), chain) as usize,
        total_dropped: (drops(DropClass::SessionBoundary).len() + drops(
            DropClass::RelayParentExpired,
        ).len() + drops(DropClass::WrongFork).len() + drops(DropClass::Unknown).len()) as usize,
        session_boundary_drops: drops(DropClass::SessionBoundary),
        relay_parent_expired_drops: drops(DropClass::RelayParentExpired),
        wrong_fork_drops: drops(DropClass::WrongFork),
        unknown_drops: drops(DropClass::Unknown),
        edge_of_window_drops: drops(DropClass::EdgeOfWindow),
        session_boundaries: boundaries,
        n_cores: cores_of(log),
    }
}

proof fn blocks_add_up(
    built: Seq<BuiltBlockView>,
    n: nat,
    log: ParsedLogView,
    chain: Map<u32, OnChainBlockInfoView>,
    boundaries: Seq<(u32, u32, u32)>,
    window: u32,
)
    ensures
        n == included_among(built, n, chain) + drops_of(
            built,
            n,
            log,
            chain,
            boundaries,
            window,
            DropClass::EdgeOfWindow,
        ).len() + drops_of(
            built,
            n,
            log,
            chain,
            boundaries,
            window,
            DropClass::SessionBoundary,
        ).len() + drops_of(
            built,
            n,
            log,
            chain,
            boundaries,
            window,
            DropClass::RelayParentExpired,
        ).len() + drops_of(built, n, log, chain, boundaries, window, DropClass::WrongFork).len()
            + drops_of(built, n, log, chain, boundaries, window, DropClass::Unknown).len(),
    decreases n,
{
    if n > 0 {
        blocks_add_up(built, (n - 1) as nat, log, chain, boundaries, window);
    }
}

/// Every built block was included, was dropped, or is set aside at the edge of the window, and
/// only one of these.
pub proof fn totals_add_up(
    built: Seq<BuiltBlockView>,
    log: ParsedLogView,
    chain: Map<u32, OnChainBlockInfoView>,
    boundaries: Seq<(u32, u32, u32)>,
    window: u32,
)
    requires
        built.len() <= usize::MAX,
    ensures
        ({
            let a = analysis_of(built, log, chain, boundaries, window);
            &&& a.total_built == built.len()
            &&& a.total_built == a.total_included + a.total_dropped
                + a.edge_of_window_drops.len()
            &&& a.total_dropped == a.session_boundary_drops.len()
                + a.relay_parent_expired_drops.len() + a.wrong_fork_drops.len()
                + a.unknown_drops.len()
        }),
{
    blocks_add_up(built, built.len(), log, chain, boundaries, window);
}

proof fn drops_have_class(
    built: Seq<BuiltBlockView>,
    n: nat,
    log: ParsedLogView,
    chain: Map<u32, OnChainBlockInfoView>,
    boundaries: Seq<(u32, u32, u32)>,
    window: u32,
    class: DropClass,
)
    ensures
        forall|k: int|
            0 <= k < drops_of(built, n, log, chain, boundaries, window, class).len() ==> {
                let d = #[trigger] drops_of(built, n, log, chain, boundaries, window, class)[k];
                &&& class_of(log, window, d) == class
                &&& !is_included(chain, d.para_block_number)
            },
    decreases n,
{
    if n > 0 {
        drops_have_class(built, (n - 1) as nat, log, chain, boundaries, window, class);
    }
}

/// No dropped block was included, and each is in the list of its reason.
pub proof fn drops_are_classified(
    built: Seq<BuiltBlockView>,
    log: ParsedLogView,
    chain: Map<u32, OnChainBlockInfoView>,
    boundaries: Seq<(u32, u32, u32)>,
    window: u32,
)
    ensures
        ({
            let a = analysis_of(built, log, chain, boundaries, window);
            &&& forall|k: int|
                0 <= k < a.session_boundary_drops.len() ==> {
                    let d = #[trigger] a.session_boundary_drops[k];
                    d.reason is SessionBoundary && !is_included(chain, d.para_block_number)
                }
            &&& forall|k: int|
                0 <= k < a.relay_parent_expired_drops.len() ==> {
                    let d = #[trigger] a.relay_parent_expired_drops[k];
                    d.reason is RelayParentExpired && !is_included(chain, d.para_block_number)
                }
            &&& forall|k: int|
                0 <= k < a.wrong_fork_drops.len() ==> {
                    let d = #[trigger] a.wrong_fork_drops[k];
                    d.reason is WrongFork && !is_included(chain, d.para_block_number)
                }
            &&& forall|k: int|
                0 <= k < a.edge_of_window_drops.len() ==> {
                    let d = #[trigger] a.edge_of_window_drops[k];
                    near_edge(log, window, d.relay_parent_num) && !is_included(
                        chain,
                        d.para_block_number,
                    )
                }
            &&& forall|k: int|
                0 <= k < a.unknown_drops.len() ==> {
                    let d = #[trigger] a.unknown_drops[k];
                    d.reason is Unknown && !is_included(chain, d.para_block_number)
                }
        }),
{
    let n = built.len();
    drops_have_class(built, n, log, chain, boundaries, window, DropClass::SessionBoundary);
    drops_have_class(built, n, log, chain, boundaries, window, DropClass::RelayParentExpired);
    drops_have_class(built, n, log, chain, boundaries, window, DropClass::WrongFork);
    drops_have_class(built, n, log, chain, boundaries, window, DropClass::EdgeOfWindow);
    drops_have_class(built, n, log, chain, boundaries, window, DropClass::Unknown);
}

proof fn drops_listed(
    built: Seq<BuiltBlockView>,
    n: nat,
    log: ParsedLogView,
    chain: Map<u32, OnChainBlockInfoView>,
    boundaries: Seq<(u32, u32, u32)>,
    window: u32,
    i: int,
)
    requires
        0 <= i < n,
        !is_included(chain, built[i].block_number),
    ensures
        ({
            let d = drop_of(built[i], log, chain, boundaries, window);
            drops_of(built, n, log, chain, boundaries, window, class_of(log, window, d)).contains(d)
        }),
    decreases n,
{
    let d = drop_of(built[i], log, chain, boundaries, window);
    let class = class_of(log, window, d);
    let list = drops_of(built, n, log, chain, boundaries, window, class);
    let before = drops_of(built, (n - 1) as nat, log, chain, boundaries, window, class);
    if i < n - 1 {
        drops_listed(built, (n - 1) as nat, log, chain, boundaries, window, i);
        let k = choose|k: int| 0 <= k < before.len() && before[k] == d;
        assert(list[k] == d);
    } else {
        assert(list[before.len() as int] == d);
    }
}

/// Every built block that was not included is told of: in the list of its reason or, near an edge,
/// in that of the edge of the window.
pub proof fn drops_are_complete(
    built: Seq<BuiltBlockView>,
    log: ParsedLogView,
    chain: Map<u32, OnChainBlockInfoView>,
    boundaries: Seq<(u32, u32, u32)>,
    window: u32,
    i: int,
)
    requires
        0 <= i < built.len(),
        !is_included(chain, built[i].block_number),
    ensures
        ({
            let a = analysis_of(built, log, chain, boundaries, window);
            let d = drop_of(built[i], log, chain, boundaries, window);
            if near_edge(log, window, built[i].relay_parent_num) {
                a.edge_of_window_drops.contains(d)
            } else {
                match d.reason {
                    DropReasonView::SessionBoundary { .. } => a.session_boundary_drops.contains(d),
                    DropReasonView::RelayParentExpired { .. } => {
                        a.relay_parent_expired_drops.contains(d)
                    },
                    DropReasonView::WrongFork { .. } => a.wrong_fork_drops.contains(d),
                    DropReasonView::Unknown => a.unknown_drops.contains(d),
                }
            }
        }),
{
    drops_listed(built, built.len(), log, chain, boundaries, window, i);
}

fn find_class(log: &ParsedLog, viability_window: u32, d: &DroppedBlock) -> (class: DropClass)
    ensures
        class == class_of(log@, viability_window, d@),
{
    let low = match log.min_relay_block() {
        Some(m) => m as i64,
        None => 0,
    };
    let high = match log.max_relay_block() {
        Some(m) => m as i64,
        None => 0,
    };
    let reach = viability_window as i64 + 2;
    let rp = d.relay_parent_num as i64;
    if rp >= high - reach || rp <= low + reach {
        return DropClass::EdgeOfWindow;
    }
    match &d.reason {
        DropReason::SessionBoundary { .. } => DropClass::SessionBoundary,
        DropReason::RelayParentExpired { .. } => DropClass::RelayParentExpired,
        DropReason::WrongFork { .. } => DropClass::WrongFork,
        DropReason::Unknown => DropClass::Unknown,
    }
}

fn describe_drop(
    b: &BuiltBlock,
    log: &ParsedLog,
    on_chain: &BTreeMap<u32, OnChainBlockInfo>,
    session_boundaries: &Vec<(u32, u32, u32)>,
    viability_window: u32,
) -> (d: DroppedBlock)
    ensures
        d@ == drop_of(
            b@,
            log@,
            chain_view(on_chain@),
            session_boundaries@,
            viability_window,
        ),
{
    let rp = b.relay_parent_num as u64;
    DroppedBlock {
        para_block_number: b.block_number,
        para_block_hash: b.block_hash.clone(),
        parent_hash: b.parent_hash.clone(),
        relay_parent_num: b.relay_parent_num,
        relay_parent_hash: b.relay_parent_hash.clone(),
        built_at: b.built_at,
        collation_fetch_latency_ms: b.collation_fetch_latency_ms,
        reason: classify_drop(b, on_chain, session_boundaries, viability_window, log),
        nearby_relay_blocks: known_blocks_between(on_chain, rp, rp + viability_window as u64 + 2),
        collation_expired: collations_expired_on(log, b.relay_parent_num),
    }
}

fn copy_boundaries(boundaries: &Vec<(u32, u32, u32)>) -> (copy: Vec<(u32, u32, u32)>)
    ensures
        copy@ == boundaries@,
{
    let mut copy: Vec<(u32, u32, u32)> = Vec::new();
    let mut i: usize = 0;
    while i < boundaries.len()
        invariant
            i <= boundaries@.len(),
            copy@ == boundaries@.take(i as int),
        decreases boundaries@.len() - i,
    {
        copy.push(boundaries[i]);
        i = i + 1;
    }
    copy
}

fn push_drop(drops: &mut Vec<DroppedBlock>, d: DroppedBlock)
    ensures
        views(final(drops)@) == views(old(drops)@).push(d@),
        final(drops)@.len() == old(drops)@.len() + 1,
{
    proof {
        views_push(drops@, d);
    }
    drops.push(d);
}

/// Determines which built blocks were included on-chain and which were dropped, and why.
#[verifier::rlimit(40)]
pub fn detect_and_classify_drops(
    built_blocks: &Vec<BuiltBlock>,
    log: &ParsedLog,
    on_chain: &BTreeMap<u32, OnChainBlockInfo>,
    session_boundaries: &Vec<(u32, u32, u32)>,
    viability_window: u32,
) -> (analysis: Analysis)
    ensures
        analysis@ == analysis_of(
            views(built_blocks@),
            log@,
            chain_view(on_chain@),
            session_boundaries@,
            viability_window,
        ),
{
    let ghost built = views(built_blocks@);
    let ghost chain = chain_view(on_chain@);
    let ghost drops = |n: nat, class: DropClass|
        drops_of(built, n, log@, chain, session_boundaries@, viability_window, class);
    let included = included_numbers(on_chain);
    let mut total_included: usize = 0;
    let mut total_dropped: usize = 0;
    let mut session_boundary_drops: Vec<DroppedBlock> = Vec::new();
    let mut relay_parent_expired_drops: Vec<DroppedBlock> = Vec::new();
    let mut wrong_fork_drops: Vec<DroppedBlock> = Vec::new();
    let mut unknown_drops: Vec<DroppedBlock> = Vec::new();
    let mut edge_of_window_drops: Vec<DroppedBlock> = Vec::new();
    proof {
        let none = Seq::<DroppedBlockView>::empty();
        assert(views(session_boundary_drops@) =~= none);
        assert(views(relay_parent_expired_drops@) =~= none);
        assert(views(wrong_fork_drops@) =~= none);
        assert(views(unknown_drops@) =~= none);
        assert(views(edge_of_window_drops@) =~= none);
    }
    let mut i: usize = 0;
    while i < built_blocks.len()
        invariant
            i <= built_blocks@.len(),
            built == views(built_blocks@),
            chain == chain_view(on_chain@),
            drops == (|n: nat, class: DropClass|
                drops_of(built, n, log@, chain, session_boundaries@, viability_window, class)),
            forall|n: u32| #[trigger] included@.contains(n) <==> is_included(chain, n),
            total_included == included_among(built, i as nat, chain),
            total_included + total_dropped <= i,
            total_dropped == session_boundary_drops@.len() + relay_parent_expired_drops@.len()
                + wrong_fork_drops@.len() + unknown_drops@.len(),
            views(session_boundary_drops@) == drops(i as nat, DropClass::SessionBoundary),
            views(relay_parent_expired_drops@) == drops(i as nat, DropClass::RelayParentExpired),
            views(wrong_fork_drops@) == drops(i as nat, DropClass::WrongFork),
            views(unknown_drops@) == drops(i as nat, DropClass::Unknown),
            views(edge_of_window_drops@) == drops(i as nat, DropClass::EdgeOfWindow),
        decreases built_blocks@.len() - i,
    {
        let block = &built_blocks[i];
        assert(built[i as int] == block@);
        if included.contains(&block.block_number) {
            total_included = total_included + 1;
        } else {
            let d = describe_drop(block, log, on_chain, session_boundaries, viability_window);
            let class = find_class(log, viability_window, &d);
            match class {
                DropClass::EdgeOfWindow => {
                    push_drop(&mut edge_of_window_drops, d);
                },
                DropClass::SessionBoundary => {
                    total_dropped = total_dropped + 1;
                    push_drop(&mut session_boundary_drops, d);
                },
                DropClass::RelayParentExpired => {
                    total_dropped = total_dropped + 1;
                    push_drop(&mut relay_parent_expired_drops, d);
                },
                DropClass::WrongFork => {
                    total_dropped = total_dropped + 1;
                    push_drop(&mut wrong_fork_drops, d);
                },
                DropClass::Unknown => {
                    total_dropped = total_dropped + 1;
                    push_drop(&mut unknown_drops, d);
                },
            }
        }
        i = i + 1;
    }
    let boundaries = copy_boundaries(session_boundaries);
    let analysis = Analysis {
        time_window: match log.time_range() {
            Some(range) => range,
            None => (Timestamp::epoch(), Timestamp::epoch()),
        },
        min_relay_block: log.min_relay_block(),
        max_relay_block: log.max_relay_block(),
        total_built: built_blocks.len(),
        total_included,
        total_dropped,
        session_boundary_drops,
        relay_parent_expired_drops,
        wrong_fork_drops,
        unknown_drops,
        edge_of_window_drops,
        session_boundaries: boundaries,
        n_cores: detect_n_cores(log),
    };
    assert(analysis@ =~= analysis_of(
        built,
        log@,
        chain,
        session_boundaries@,
        viability_window,
    ));
    analysis
}

// ---- Drops per session change ----
/// Whether a relay parent is at most five blocks from a session boundary.
pub open spec fn near_boundary(boundary: u32, rp: u32) -> bool {
    boundary - 5 <= rp <= boundary + 5
}

/// How many of the session boundary drops are near boundary `i`.
pub open spec fn drops_near(a: AnalysisView, i: int) -> u32 {
    count_where(
        a.session_boundary_drops.len(),
        |k: int|
            near_boundary(a.session_boundaries[i].0, a.session_boundary_drops[k].relay_parent_num),
    ) as u32
}

/// The average, least and greatest number of drops per session boundary; zeros where there are no
/// boundaries.
pub open spec fn session_stats(a: AnalysisView) -> (int, int, u32, u32) {
    let n = a.session_boundaries.len();
    let drops = |i: int| drops_near(a, i) as int;
    if n == 0 {
        (0, 1, 0, 0)
    } else {
        (
            sum_of(n, drops),
            n as int,
            crate::search::least_of(n, drops)->0 as u32,
            crate::search::greatest_of(n, drops)->0 as u32,
        )
    }
}

impl Analysis {
    fn count_near(&self, boundary: u32) -> (n: usize)
        ensures
            n == count_where(
                self@.session_boundary_drops.len(),
                |k: int| near_boundary(boundary, self@.session_boundary_drops[k].relay_parent_num),
            ),
    {
        let ghost ok = |k: int|
            near_boundary(boundary, self@.session_boundary_drops[k].relay_parent_num);
        let mut n: usize = 0;
        let mut k: usize = 0;
        while k < self.session_boundary_drops.len()
            invariant
                k <= self.session_boundary_drops@.len(),
                ok == (|k: int|
                    near_boundary(boundary, self@.session_boundary_drops[k].relay_parent_num)),
                n == count_where(k as nat, ok),
                n <= k,
            decreases self.session_boundary_drops@.len() - k,
        {
            assert(self@.session_boundary_drops[k as int] == self.session_boundary_drops@[k as int]@);
            let rp = self.session_boundary_drops[k].relay_parent_num as i64;
            if rp >= boundary as i64 - 5 && rp <= boundary as i64 + 5 {
                n = n + 1;
            }
            k = k + 1;
        }
        n
    }

    /// The average (as a ratio), least and greatest number of session boundary drops per session
    /// change.
    pub fn session_drop_stats(&self) -> (stats: (Ratio, u32, u32))
        ensures
            ({
                let (num, den, min, max) = session_stats(self@);
                stats.0.num == num && stats.0.den == den && stats.1 == min && stats.2 == max
            }),
    {
        if self.session_boundaries.len() == 0 {
            return (Ratio { num: 0, den: 1 }, 0, 0);
        }
        let ghost drops = |i: int| drops_near(self@, i) as int;
        let mut total: i128 = 0;
        let mut min: u32 = 0;
        let mut max: u32 = 0;
        let mut i: usize = 0;
        while i < self.session_boundaries.len()
            invariant
                i <= self.session_boundaries.len(),
                drops == (|i: int| drops_near(self@, i) as int),
                total == sum_of(i as nat, drops),
                0 <= total <= i * u32::MAX,
                i > 0 ==> crate::search::least_of(i as nat, drops) == Some(min as int),
                i > 0 ==> crate::search::greatest_of(i as nat, drops) == Some(max as int),
            decreases self.session_boundaries@.len() - i,
        {
            let n = self.count_near(self.session_boundaries[i].0) as u32;
            assert(n == drops(i as int));
            assert(i * u32::MAX + u32::MAX <= i128::MAX) by (nonlinear_arith)
                requires
                    i <= usize::MAX,
            ;
            assert((i + 1) * u32::MAX == i * u32::MAX + u32::MAX) by (nonlinear_arith);
            total = total + n as i128;
            if i == 0 || n < min {
                min = n;
            }
            if i == 0 || n > max {
                max = n;
            }
            i = i + 1;
        }
        (Ratio { num: total, den: self.session_boundaries.len() as u128 }, min, max)
    }
}

} // verus!
