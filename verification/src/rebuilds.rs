//! Rebuilds: blocks that were replaced at their height, why, and which of the two was included.

use crate::authorship::{
    all_stats, collator_stats, find_rp_and_slot, find_sealer, merge_registries, rp_and_slot,
    sealer_of, whole_registry,
};
use crate::chain_client::{
    blake2b_256, chain_view, compute_block_hash_from_head_data, decode_para_block_number,
    para_number,
};
use crate::collations::{collations_expired_on, expired_on};
use crate::drops::{blocks_between, known_blocks_between};
use crate::duplicates::{duplicates_of, find_duplicates};
use crate::hash::{
    full_text, resolve_hash_key, resolved_key, text_of_hash, HashRegistry, RegistryView,
};
use crate::logs::MultiCollatorLogs;
use crate::model::{opt_view, views, views_push};
use crate::search::{
    first_where, first_where_stays, ints, positions, sort_order, sort_order_is_stable, stable_order,
};
use crate::slot_boundaries::{analyze_slot_boundaries, slot_analysis};
use crate::text::same_text;
use crate::types::{
    CollationExpired, CollationExpiredView, CollatorLogView, MultiCollatorAnalysis,
    MultiCollatorAnalysisView, OnChainBlockInfo, OnChainBlockInfoView, OnChainWinner,
    ParaCandidateEventView, ParsedLog, ParsedLogView, RebuildCause, RebuildEvent, RebuildEventView,
};
use std::collections::BTreeMap;
use vstd::prelude::*;

verus! {

// ---- Causes ----
/// The lesser of two numbers.
pub open spec fn lesser(a: int, b: int) -> int {
    if a <= b {
        a
    } else {
        b
    }
}

/// The greater of two numbers.
pub open spec fn greater(a: int, b: int) -> int {
    if a >= b {
        a
    } else {
        b
    }
}

/// The cause of a rebuild on different relay parents; unknown where they are not known to differ.
pub open spec fn newer_relay_parent(best_rp: Option<u32>, rebuilt_rp: Option<u32>) -> RebuildCause {
    match (best_rp, rebuilt_rp) {
        (Some(a), Some(b)) if a != b => RebuildCause::NewerRelayParent {
            old_rp: lesser(a as int, b as int) as u32,
            new_rp: greater(a as int, b as int) as u32,
        },
        _ => RebuildCause::Unknown,
    }
}

/// Whether two known collators are the same, and their known relay parents differ.
pub open spec fn built_again(
    best_collator: Option<Seq<char>>,
    rebuilt_collator: Option<Seq<char>>,
    best_rp: Option<u32>,
    rebuilt_rp: Option<u32>,
) -> bool {
    &&& best_collator is Some
    &&& best_collator == rebuilt_collator
    &&& newer_relay_parent(best_rp, rebuilt_rp) is NewerRelayParent
}

/// The cause of a rebuild. Where one collator built on two relay parents, it is the newer one,
/// whatever the slots. Else different slots overlap at their boundary; in one slot the relay parents
/// decide. Where a slot is not known, different relay parents of different known collators count
/// as an overlap, and other different relay parents as a newer one.
pub open spec fn cause_of(
    best_collator: Option<Seq<char>>,
    rebuilt_collator: Option<Seq<char>>,
    best_rp: Option<u32>,
    rebuilt_rp: Option<u32>,
    best_slot: Option<u64>,
    rebuilt_slot: Option<u64>,
) -> RebuildCause {
    if built_again(best_collator, rebuilt_collator, best_rp, rebuilt_rp) {
        newer_relay_parent(best_rp, rebuilt_rp)
    } else {
        match (best_slot, rebuilt_slot) {
            (Some(a), Some(b)) => if a != b {
                RebuildCause::SlotBoundaryOverlap {
                    outgoing_slot: lesser(a as int, b as int) as u64,
                    incoming_slot: greater(a as int, b as int) as u64,
                }
            } else {
                newer_relay_parent(best_rp, rebuilt_rp)
            },
            _ => if newer_relay_parent(best_rp, rebuilt_rp) is NewerRelayParent
                && best_collator is Some && rebuilt_collator is Some {
                RebuildCause::SlotBoundaryOverlap { outgoing_slot: 0, incoming_slot: 0 }
            } else {
                newer_relay_parent(best_rp, rebuilt_rp)
            },
        }
    }
}

/// A collator that built again on another relay parent did so on the newer one, in whatever slots.
pub proof fn same_collator_has_newer_relay_parent(
    name: Seq<char>,
    a_rp: u32,
    b_rp: u32,
    a_slot: Option<u64>,
    b_slot: Option<u64>,
)
    requires
        a_rp != b_rp,
    ensures
        cause_of(Some(name), Some(name), Some(a_rp), Some(b_rp), a_slot, b_slot)
            == (RebuildCause::NewerRelayParent {
            old_rp: lesser(a_rp as int, b_rp as int) as u32,
            new_rp: greater(a_rp as int, b_rp as int) as u32,
        }),
{
}

/// It does not matter which of the two blocks came first.
pub proof fn cause_is_symmetric(
    a: Option<Seq<char>>,
    b: Option<Seq<char>>,
    a_rp: Option<u32>,
    b_rp: Option<u32>,
    a_slot: Option<u64>,
    b_slot: Option<u64>,
)
    ensures
        cause_of(a, b, a_rp, b_rp, a_slot, b_slot) == cause_of(b, a, b_rp, a_rp, b_slot, a_slot),
{
}

/// Of the slots or relay parents in a cause, the first is the lower one.
pub proof fn cause_is_ordered(
    a: Option<Seq<char>>,
    b: Option<Seq<char>>,
    a_rp: Option<u32>,
    b_rp: Option<u32>,
    a_slot: Option<u64>,
    b_slot: Option<u64>,
)
    ensures
        match cause_of(a, b, a_rp, b_rp, a_slot, b_slot) {
            RebuildCause::SlotBoundaryOverlap { outgoing_slot, incoming_slot } => outgoing_slot
                < incoming_slot || (outgoing_slot == 0 && incoming_slot == 0),
            RebuildCause::NewerRelayParent { old_rp, new_rp } => old_rp < new_rp,
            RebuildCause::Unknown => true,
        },
{
}

fn relay_parent_cause(best_rp: Option<u32>, rebuilt_rp: Option<u32>) -> (cause: RebuildCause)
    ensures
        cause == newer_relay_parent(best_rp, rebuilt_rp),
{
    match (best_rp, rebuilt_rp) {
        (Some(a), Some(b)) => if a < b {
            RebuildCause::NewerRelayParent { old_rp: a, new_rp: b }
        } else if a > b {
            RebuildCause::NewerRelayParent { old_rp: b, new_rp: a }
        } else {
            RebuildCause::Unknown
        },
        _ => RebuildCause::Unknown,
    }
}

/// Classifies the root cause of a rebuild.
pub fn classify_rebuild_cause(
    best_collator: &Option<String>,
    rebuilt_collator: &Option<String>,
    best_rp: Option<u32>,
    rebuilt_rp: Option<u32>,
    best_slot: Option<u64>,
    rebuilt_slot: Option<u64>,
) -> (cause: RebuildCause)
    ensures
        cause == cause_of(
            opt_view(*best_collator),
            opt_view(*rebuilt_collator),
            best_rp,
            rebuilt_rp,
            best_slot,
            rebuilt_slot,
        ),
{
    let cause = relay_parent_cause(best_rp, rebuilt_rp);
    let same = match (best_collator, rebuilt_collator) {
        (Some(a), Some(b)) => Some(same_text(a.as_str(), b.as_str())),
        _ => None,
    };
    let newer = match cause {
        RebuildCause::NewerRelayParent { .. } => true,
        _ => false,
    };
    if newer && same == Some(true) {
        return cause;
    }
    match (best_slot, rebuilt_slot) {
        (Some(a), Some(b)) => if a < b {
            RebuildCause::SlotBoundaryOverlap { outgoing_slot: a, incoming_slot: b }
        } else if a > b {
            RebuildCause::SlotBoundaryOverlap { outgoing_slot: b, incoming_slot: a }
        } else {
            cause
        },
        _ => if newer && same == Some(false) {
            RebuildCause::SlotBoundaryOverlap { outgoing_slot: 0, incoming_slot: 0 }
        } else {
            cause
        },
    }
}

// ---- What was included on-chain ----
/// Whether a candidate is a block, given by its number and the text of its hash.
pub open spec fn is_block(c: ParaCandidateEventView, number: u32, key: Seq<char>) -> bool {
    match c.para_head_data {
        Some(head) => para_number(head) == Some(number) && full_text(blake2b_256(head)) == key,
        None => false,
    }
}

/// Whether a relay block includes a block.
pub open spec fn has_block(info: OnChainBlockInfoView, number: u32, key: Seq<char>) -> bool {
    exists|i: int|
        0 <= i < info.included_para_candidates.len() && is_block(
            #[trigger] info.included_para_candidates[i],
            number,
            key,
        )
}

/// Whether one of the relay blocks includes a block.
pub open spec fn includes_block(
    chain: Map<u32, OnChainBlockInfoView>,
    number: u32,
    key: Seq<char>,
) -> bool {
    exists|n: u32| #[trigger] chain.contains_key(n) && has_block(chain[n], number, key)
}

/// Which of two blocks of a number was included on-chain.
pub open spec fn winner_of(
    chain: Map<u32, OnChainBlockInfoView>,
    number: u32,
    best: Seq<char>,
    rebuilt: Seq<char>,
) -> OnChainWinner {
    if includes_block(chain, number, best) {
        OnChainWinner::OriginalBest
    } else if includes_block(chain, number, rebuilt) {
        OnChainWinner::Replacement
    } else {
        OnChainWinner::Unknown
    }
}

/// Whether a block is in a list of blocks.
pub open spec fn is_listed(list: Seq<(u32, String)>, number: u32, key: Seq<char>) -> bool {
    exists|k: int| 0 <= k < list.len() && (#[trigger] list[k]).0 == number && list[k].1@ == key
}

fn list_included(list: &mut Vec<(u32, String)>, info: &OnChainBlockInfo)
    ensures
        forall|number: u32, key: Seq<char>| #[trigger]
            is_listed(final(list)@, number, key) <==> is_listed(old(list)@, number, key)
                || has_block(info@, number, key),
{
    let ghost before = list@;
    let mut i: usize = 0;
    while i < info.included_para_candidates.len()
        invariant
            i <= info.included_para_candidates@.len(),
            before == old(list)@,
            forall|number: u32, key: Seq<char>| #[trigger]
                is_listed(list@, number, key) <==> is_listed(before, number, key) || exists|k: int|
                    0 <= k < i && is_block(
                        #[trigger] info@.included_para_candidates[k],
                        number,
                        key,
                    ),
        decreases info.included_para_candidates@.len() - i,
    {
        let ghost now = list@;
        let candidate = &info.included_para_candidates[i];
        assert(info@.included_para_candidates[i as int] == candidate@);
        if let Some(head) = &candidate.para_head_data {
            if let Some(number) = decode_para_block_number(head.as_slice()) {
                let hash = compute_block_hash_from_head_data(head.as_slice());
                list.push((number, text_of_hash(&hash)));
            }
        }
        proof {
            assert forall|number: u32, key: Seq<char>| #[trigger]
                is_listed(list@, number, key) <==> is_listed(before, number, key) || exists|k: int|
                    0 <= k < i + 1 && is_block(
                        #[trigger] info@.included_para_candidates[k],
                        number,
                        key,
                    ) by {
                if is_listed(now, number, key) {
                    let k = choose|k: int|
                        0 <= k < now.len() && (#[trigger] now[k]).0 == number && now[k].1@ == key;
                    assert(list@[k] == now[k]);
                    if !is_listed(before, number, key) {
                        let m = choose|m: int|
                            0 <= m < i && is_block(
                                #[trigger] info@.included_para_candidates[m],
                                number,
                                key,
                            );
                        assert(0 <= m < i + 1);
                    }
                }
                if is_listed(list@, number, key) && !is_listed(now, number, key) {
                    let k = choose|k: int|
                        0 <= k < list@.len() && (#[trigger] list@[k]).0 == number && list@[k].1@
                            == key;
                    if k < now.len() {
                        assert(now[k] == list@[k]);
                    }
                    assert(is_block(info@.included_para_candidates[i as int], number, key));
                }
                if is_block(info@.included_para_candidates[i as int], number, key) {
                    assert(list@[now.len() as int].0 == number && list@[now.len() as int].1@
                        == key);
                }
            }
        }
        i = i + 1;
    }
}

/// The parachain blocks included in the relay blocks.
fn included_blocks(on_chain: &BTreeMap<u32, OnChainBlockInfo>) -> (list: Vec<(u32, String)>)
    ensures
        forall|number: u32, key: Seq<char>| #[trigger]
            is_listed(list@, number, key) <==> includes_block(
                chain_view(on_chain@),
                number,
                key,
            ),
{
    let mut list: Vec<(u32, String)> = Vec::new();
    let ghost chain = chain_view(on_chain@);
    for (_key, info) in it: on_chain.iter()
        invariant
            chain == chain_view(on_chain@),
            forall|j: int|
                0 <= j < it.seq().len() ==> on_chain@.contains_key(*(#[trigger] it.seq()[j]).0)
                    && on_chain@[*it.seq()[j].0] == *it.seq()[j].1,
            forall|k: u32| #[trigger]
                on_chain@.contains_key(k) ==> exists|j: int|
                    0 <= j < it.seq().len() && *(#[trigger] it.seq()[j]).0 == k,
            forall|number: u32, key: Seq<char>| #[trigger]
                is_listed(list@, number, key) ==> includes_block(chain, number, key),
            forall|k: u32, number: u32, key: Seq<char>|
                #[trigger] chain.contains_key(k) && #[trigger] has_block(chain[k], number, key)
                    ==> {
                    ||| is_listed(list@, number, key)
                    ||| exists|j: int|
                        it.index() <= j < it.seq().len() && *(#[trigger] it.seq()[j]).0 == k
                },
    {
        let ghost at = it.index();
        let ghost now = list@;
        assert(*it.seq()[at].1 == *info);
        let ghost key = *it.seq()[at].0;
        assert(on_chain@.contains_key(key) && on_chain@[key] == *info);
        assert(chain.contains_key(key) && chain[key] == info@);
        list_included(&mut list, info);
        proof {
            assert forall|k: u32, number: u32, key: Seq<char>|
                #[trigger] chain.contains_key(k) && #[trigger] has_block(
                    chain[k],
                    number,
                    key,
                ) implies {
                ||| is_listed(list@, number, key)
                ||| exists|j: int|
                    at + 1 <= j < it.seq().len() && *(#[trigger] it.seq()[j]).0 == k
            } by {
                if !is_listed(now, number, key) {
                    let j = choose|j: int|
                        at <= j < it.seq().len() && *(#[trigger] it.seq()[j]).0 == k;
                    if j == at {
                        assert(has_block(info@, number, key));
                    } else {
                        assert(at + 1 <= j);
                    }
                }
            }
        }
    }
    list
}

fn listed(list: &Vec<(u32, String)>, number: u32, key: &String) -> (yes: bool)
    ensures
        yes == is_listed(list@, number, key@),
{
    let mut k: usize = 0;
    while k < list.len()
        invariant
            k <= list@.len(),
            forall|j: int|
                0 <= j < k ==> !((#[trigger] list@[j]).0 == number && list@[j].1@ == key@),
        decreases list@.len() - k,
    {
        if list[k].0 == number {
            if same_text(list[k].1.as_str(), key.as_str()) {
                return true;
            }
        }
        k = k + 1;
    }
    false
}

// ---- Rebuilds ----
/// The first best import of a block number.
pub open spec fn first_best(log: ParsedLogView, number: u32) -> Option<int> {
    first_where(
        log.para_imports.len(),
        |i: int| log.para_imports[i].is_best && log.para_imports[i].block_number == number,
    )
}

/// Whether import `i` is not best at a height where another import was.
pub open spec fn is_rebuild(log: ParsedLogView, i: int) -> bool {
    !log.para_imports[i].is_best && first_best(log, log.para_imports[i].block_number) is Some
}

/// The name of a collator.
pub open spec fn name_of(multi: Seq<CollatorLogView>, c: Option<int>) -> Option<Seq<char>> {
    match c {
        Some(c) => Some(multi[c].name),
        None => None,
    }
}

/// The relay parent and slot of a block number at a collator.
pub open spec fn rp_and_slot_at(
    multi: Seq<CollatorLogView>,
    c: Option<int>,
    number: u32,
) -> Option<(u32, u64)> {
    match c {
        Some(c) => rp_and_slot(multi[c].log, number),
        None => None,
    }
}

/// The relay parent, where relay parent and slot are known.
pub open spec fn rp_in(found: Option<(u32, u64)>) -> Option<u32> {
    match found {
        Some((rp, _)) => Some(rp),
        None => None,
    }
}

/// The slot, where relay parent and slot are known.
pub open spec fn slot_in(found: Option<(u32, u64)>) -> Option<u64> {
    match found {
        Some((_, slot)) => Some(slot),
        None => None,
    }
}

/// The known relay blocks between two relay parents, both included; none where one is not known.
pub open spec fn blocks_from_to(
    chain: Map<u32, OnChainBlockInfoView>,
    a: Option<u32>,
    b: Option<u32>,
) -> Seq<OnChainBlockInfoView> {
    match (a, b) {
        (Some(a), Some(b)) => blocks_between(
            chain,
            lesser(a as int, b as int),
            greater(a as int, b as int),
        ),
        _ => Seq::empty(),
    }
}

/// The collations on a relay parent that expired at the first `n` collators.
pub open spec fn expired_at(multi: Seq<CollatorLogView>, rp: u32, n: nat) -> Seq<
    CollationExpiredView,
>
    decreases n,
{
    if n == 0 {
        Seq::empty()
    } else {
        expired_at(multi, rp, (n - 1) as nat) + expired_on(multi[n - 1].log, rp)
    }
}

/// The rebuild that import `i` of collator `c` shows.
pub open spec fn rebuild_of(
    multi: Seq<CollatorLogView>,
    chain: Map<u32, OnChainBlockInfoView>,
    c: int,
    i: int,
) -> RebuildEventView {
    let log = multi[c].log;
    let registry = whole_registry(multi);
    let rebuilt = log.para_imports[i];
    let number = rebuilt.block_number;
    let best = log.para_imports[first_best(log, number)->0];
    let best_key = resolved_key(best.block_hash, registry);
    let rebuilt_key = resolved_key(rebuilt.block_hash, registry);
    let best_sealer = sealer_of(multi, number, best_key);
    let rebuilt_sealer = sealer_of(multi, number, rebuilt_key);
    let best_found = rp_and_slot_at(multi, best_sealer, number);
    let rebuilt_found = rp_and_slot_at(multi, rebuilt_sealer, number);
    RebuildEventView {
        block_number: number,
        block_hash_best: best.block_hash,
        parent_hash_best: best.parent_hash,
        block_hash_rebuilt: rebuilt.block_hash,
        parent_hash_rebuilt: rebuilt.parent_hash,
        best_collator: name_of(multi, best_sealer),
        rebuilt_collator: name_of(multi, rebuilt_sealer),
        best_timestamp: best.timestamp,
        rebuilt_timestamp: rebuilt.timestamp,
        observer: multi[c].name,
        best_relay_parent: rp_in(best_found),
        rebuilt_relay_parent: rp_in(rebuilt_found),
        best_slot: slot_in(best_found),
        rebuilt_slot: slot_in(rebuilt_found),
        cause: cause_of(
            name_of(multi, best_sealer),
            name_of(multi, rebuilt_sealer),
            rp_in(best_found),
            rp_in(rebuilt_found),
            slot_in(best_found),
            slot_in(rebuilt_found),
        ),
        on_chain_winner: winner_of(chain, number, best_key, rebuilt_key),
        relay_block_sequence: blocks_from_to(chain, rp_in(best_found), rp_in(rebuilt_found)),
        collation_expired: match rp_in(best_found) {
            Some(rp) => expired_at(multi, rp, multi.len()),
            None => Seq::empty(),
        },
    }
}

/// The rebuilds among the first `n` imports of collator `c`.
pub open spec fn rebuilds_in(
    multi: Seq<CollatorLogView>,
    chain: Map<u32, OnChainBlockInfoView>,
    c: int,
    n: nat,
) -> Seq<RebuildEventView>
    decreases n,
{
    if n == 0 {
        Seq::empty()
    } else {
        let before = rebuilds_in(multi, chain, c, (n - 1) as nat);
        if is_rebuild(multi[c].log, n - 1) {
            before.push(rebuild_of(multi, chain, c, n - 1))
        } else {
            before
        }
    }
}

/// The rebuilds that the first `n` collators saw.
pub open spec fn rebuilds_seen(
    multi: Seq<CollatorLogView>,
    chain: Map<u32, OnChainBlockInfoView>,
    n: nat,
) -> Seq<RebuildEventView>
    decreases n,
{
    if n == 0 {
        Seq::empty()
    } else {
        rebuilds_seen(multi, chain, (n - 1) as nat) + rebuilds_in(
            multi,
            chain,
            n - 1,
            multi[n - 1].log.para_imports.len(),
        )
    }
}

/// The block numbers of rebuilds.
pub open spec fn rebuild_numbers(s: Seq<RebuildEventView>) -> Seq<int> {
    Seq::new(s.len(), |i: int| s[i].block_number as int)
}

/// Rebuilds ordered by block number; those of one number keep their order.
pub open spec fn by_number(s: Seq<RebuildEventView>) -> Seq<RebuildEventView> {
    let order = sort_order(rebuild_numbers(s));
    Seq::new(order.len(), |k: int| s[order[k]])
}

/// Whether two rebuilds are of the same two blocks.
pub open spec fn same_rebuild(
    registry: RegistryView,
    a: RebuildEventView,
    b: RebuildEventView,
) -> bool {
    &&& a.block_number == b.block_number
    &&& resolved_key(a.block_hash_best, registry) == resolved_key(b.block_hash_best, registry)
    &&& resolved_key(a.block_hash_rebuilt, registry) == resolved_key(
        b.block_hash_rebuilt,
        registry,
    )
}

/// The first `n` rebuilds without those of two blocks that came before.
pub open spec fn without_repeats(
    registry: RegistryView,
    s: Seq<RebuildEventView>,
    n: nat,
) -> Seq<RebuildEventView>
    decreases n,
{
    if n == 0 {
        Seq::empty()
    } else {
        let before = without_repeats(registry, s, (n - 1) as nat);
        if exists|k: int| 0 <= k < n - 1 && same_rebuild(registry, #[trigger] s[k], s[n - 1]) {
            before
        } else {
            before.push(s[n - 1])
        }
    }
}

/// The rebuilds across all collators, by block number, each of two blocks once.
pub open spec fn rebuilds_of(
    multi: Seq<CollatorLogView>,
    chain: Map<u32, OnChainBlockInfoView>,
) -> Seq<RebuildEventView> {
    let all = by_number(rebuilds_seen(multi, chain, multi.len()));
    without_repeats(whole_registry(multi), all, all.len())
}

/// Whether a rebuild of the same two blocks is in a list.
pub open spec fn has_rebuild(
    registry: RegistryView,
    s: Seq<RebuildEventView>,
    e: RebuildEventView,
) -> bool {
    exists|k: int| 0 <= k < s.len() && same_rebuild(registry, #[trigger] s[k], e)
}

proof fn kept_come_from(registry: RegistryView, s: Seq<RebuildEventView>, n: nat)
    requires
        n <= s.len(),
    ensures
        forall|k: int|
            0 <= k < without_repeats(registry, s, n).len() ==> #[trigger] s.take(n as int).contains(
                without_repeats(registry, s, n)[k],
            ),
    decreases n,
{
    if n > 0 {
        kept_come_from(registry, s, (n - 1) as nat);
        let before = without_repeats(registry, s, (n - 1) as nat);
        let kept = without_repeats(registry, s, n);
        assert forall|k: int| 0 <= k < kept.len() implies #[trigger] s.take(n as int).contains(
            kept[k],
        ) by {
            if k < before.len() {
                assert(kept[k] == before[k]);
                let first = s.take(n - 1);
                assert(first.contains(before[k]));
                let i = choose|i: int| 0 <= i < first.len() && first[i] == before[k];
                assert(s.take(n as int)[i] == kept[k]);
            } else {
                assert(s.take(n as int)[n - 1] == kept[k]);
            }
        }
    }
}

proof fn kept_differ(registry: RegistryView, s: Seq<RebuildEventView>, n: nat)
    requires
        n <= s.len(),
        forall|i: int, j: int|
            0 <= i < j < s.len() ==> (#[trigger] s[i]).block_number <= (
            #[trigger] s[j]).block_number,
    ensures
        forall|a: int, b: int|
            0 <= a < b < without_repeats(registry, s, n).len() ==> (
            #[trigger] without_repeats(registry, s, n)[a]).block_number <= (
            #[trigger] without_repeats(registry, s, n)[b]).block_number && !same_rebuild(
                registry,
                without_repeats(registry, s, n)[a],
                without_repeats(registry, s, n)[b],
            ),
    decreases n,
{
    if n > 0 {
        kept_differ(registry, s, (n - 1) as nat);
        kept_come_from(registry, s, (n - 1) as nat);
        let before = without_repeats(registry, s, (n - 1) as nat);
        let kept = without_repeats(registry, s, n);
        assert forall|a: int, b: int| 0 <= a < b < kept.len() implies (
        #[trigger] kept[a]).block_number <= (#[trigger] kept[b]).block_number && !same_rebuild(
            registry,
            kept[a],
            kept[b],
        ) by {
            assert(kept[a] == before[a]);
            if b < before.len() {
                assert(kept[b] == before[b]);
            } else {
                let first = s.take(n - 1);
                assert(first.contains(before[a]));
                let i = choose|i: int| 0 <= i < first.len() && first[i] == before[a];
                assert(s[i] == kept[a] && kept[b] == s[n - 1]);
            }
        }
    }
}

proof fn kept_cover(registry: RegistryView, s: Seq<RebuildEventView>, n: nat)
    requires
        n <= s.len(),
    ensures
        forall|i: int|
            0 <= i < n ==> #[trigger] has_rebuild(registry, without_repeats(registry, s, n), s[i]),
    decreases n,
{
    if n > 0 {
        kept_cover(registry, s, (n - 1) as nat);
        let before = without_repeats(registry, s, (n - 1) as nat);
        let kept = without_repeats(registry, s, n);
        let last = s[n - 1];
        assert forall|i: int| 0 <= i < n implies #[trigger] has_rebuild(registry, kept, s[i]) by {
            let j = if i == n - 1 && exists|k: int|
                0 <= k < n - 1 && same_rebuild(registry, #[trigger] s[k], last) {
                choose|k: int| 0 <= k < n - 1 && same_rebuild(registry, #[trigger] s[k], last)
            } else {
                i
            };
            if j < n - 1 {
                assert(has_rebuild(registry, before, s[j]));
                let k = choose|k: int|
                    0 <= k < before.len() && same_rebuild(registry, #[trigger] before[k], s[j]);
                assert(kept[k] == before[k]);
                assert(same_rebuild(registry, kept[k], s[i]));
            } else {
                assert(kept[before.len() as int] == last);
            }
        }
    }
}

/// The rebuilds are ordered by block number, no two are of the same two blocks, each is one that a
/// collator saw, and each that a collator saw is there.
pub proof fn rebuilds_are_distinct(
    multi: Seq<CollatorLogView>,
    chain: Map<u32, OnChainBlockInfoView>,
)
    ensures
        ({
            let kept = rebuilds_of(multi, chain);
            let seen = rebuilds_seen(multi, chain, multi.len());
            &&& forall|a: int, b: int|
                0 <= a < b < kept.len() ==> (#[trigger] kept[a]).block_number <= (
                #[trigger] kept[b]).block_number && !same_rebuild(
                    whole_registry(multi),
                    kept[a],
                    kept[b],
                )
            &&& forall|k: int| 0 <= k < kept.len() ==> #[trigger] seen.contains(kept[k])
            &&& forall|i: int|
                0 <= i < seen.len() ==> #[trigger] has_rebuild(
                    whole_registry(multi),
                    kept,
                    seen[i],
                )
        }),
{
    let registry = whole_registry(multi);
    let seen = rebuilds_seen(multi, chain, multi.len());
    let keys = rebuild_numbers(seen);
    let order = sort_order(keys);
    let all = by_number(seen);
    let kept = rebuilds_of(multi, chain);
    sort_order_is_stable(keys);
    assert forall|i: int, j: int| 0 <= i < j < all.len() implies (
    #[trigger] all[i]).block_number <= (#[trigger] all[j]).block_number by {
        assert(0 <= order[i] < keys.len() && 0 <= order[j] < keys.len());
        assert(keys[order[i]] <= keys[order[j]]);
    }
    kept_differ(registry, all, all.len());
    assert forall|k: int| 0 <= k < kept.len() implies #[trigger] seen.contains(kept[k]) by {
        kept_come_from(registry, all, all.len());
        assert(all.take(all.len() as int).contains(kept[k]));
        assert(all.take(all.len() as int) =~= all);
        let i = choose|i: int| 0 <= i < all.len() && all[i] == kept[k];
        assert(0 <= order[i] < seen.len());
        assert(seen[order[i]] == kept[k]);
    }
    assert forall|i: int| 0 <= i < seen.len() implies #[trigger] has_rebuild(
        registry,
        kept,
        seen[i],
    ) by {
        kept_cover(registry, all, all.len());
        assert(order.contains(i));
        let a = choose|a: int| 0 <= a < order.len() && order[a] == i;
        assert(all[a] == seen[i]);
        assert(has_rebuild(registry, kept, all[a]));
    }
}

fn find_first_best(log: &ParsedLog, number: u32) -> (at: Option<usize>)
    ensures
        match at {
            Some(i) => first_best(log@, number) == Some(i as int) && i < log.para_imports@.len(),
            None => first_best(log@, number) is None,
        },
{
    let ghost ok = |i: int|
        log@.para_imports[i].is_best && log@.para_imports[i].block_number == number;
    let mut i: usize = 0;
    while i < log.para_imports.len()
        invariant
            i <= log.para_imports@.len(),
            ok == (|i: int|
                log@.para_imports[i].is_best && log@.para_imports[i].block_number == number),
            first_where(i as nat, ok) is None,
        decreases log.para_imports@.len() - i,
    {
        assert(log@.para_imports[i as int] == log.para_imports@[i as int]@);
        if log.para_imports[i].is_best && log.para_imports[i].block_number == number {
            proof {
                first_where_stays(log@.para_imports.len(), (i + 1) as nat, ok);
            }
            return Some(i);
        }
        i = i + 1;
    }
    None
}

fn find_builder(multi: &MultiCollatorLogs, number: u32, key: &String) -> (builder: (
    Option<String>,
    Option<u32>,
    Option<u64>,
))
    requires
        multi.wf(),
    ensures
        ({
            let sealer = sealer_of(multi@, number, key@);
            let found = rp_and_slot_at(multi@, sealer, number);
            &&& opt_view(builder.0) == name_of(multi@, sealer)
            &&& builder.1 == rp_in(found)
            &&& builder.2 == slot_in(found)
        }),
{
    match find_sealer(multi, number, key) {
        Some(c) => {
            let name = multi.name(c).clone();
            match find_rp_and_slot(multi.log(c), number) {
                Some((rp, slot)) => (Some(name), Some(rp), Some(slot)),
                None => (Some(name), None, None),
            }
        },
        None => (None, None, None),
    }
}

fn relay_blocks_from_to(
    on_chain: &BTreeMap<u32, OnChainBlockInfo>,
    a: Option<u32>,
    b: Option<u32>,
) -> (blocks: Vec<OnChainBlockInfo>)
    ensures
        views(blocks@) == blocks_from_to(chain_view(on_chain@), a, b),
{
    match (a, b) {
        (Some(a), Some(b)) => if a <= b {
            known_blocks_between(on_chain, a as u64, b as u64)
        } else {
            known_blocks_between(on_chain, b as u64, a as u64)
        },
        _ => {
            let none: Vec<OnChainBlockInfo> = Vec::new();
            assert(views(none@) =~= Seq::<OnChainBlockInfoView>::empty());
            none
        },
    }
}

fn expired_at_collators(multi: &MultiCollatorLogs, rp: Option<u32>) -> (expired: Vec<
    CollationExpired,
>)
    requires
        multi.wf(),
    ensures
        views(expired@) == match rp {
            Some(rp) => expired_at(multi@, rp, multi@.len()),
            None => Seq::empty(),
        },
{
    let mut expired: Vec<CollationExpired> = Vec::new();
    assert(views(expired@) =~= Seq::<CollationExpiredView>::empty());
    if let Some(rp) = rp {
        let mut c: usize = 0;
        while c < multi.len()
            invariant
                c <= multi@.len(),
                multi.wf(),
                views(expired@) == expired_at(multi@, rp, c as nat),
            decreases multi@.len() - c,
        {
            let mut more = collations_expired_on(multi.log(c), rp);
            let ghost (a, b) = (expired@, more@);
            expired.append(&mut more);
            assert(views(expired@) =~= views(a) + views(b));
            c = c + 1;
        }
    }
    expired
}

fn read_rebuild(
    multi: &MultiCollatorLogs,
    registry: &HashRegistry,
    on_chain: &BTreeMap<u32, OnChainBlockInfo>,
    included: &Vec<(u32, String)>,
    c: usize,
    i: usize,
    first: usize,
) -> (event: RebuildEvent)
    requires
        multi.wf(),
        registry@ == whole_registry(multi@),
        forall|number: u32, key: Seq<char>| #[trigger]
            is_listed(included@, number, key) <==> includes_block(
                chain_view(on_chain@),
                number,
                key,
            ),
        c < multi@.len(),
        i < multi@[c as int].log.para_imports.len(),
        first < multi@[c as int].log.para_imports.len(),
        first_best(
            multi@[c as int].log,
            multi@[c as int].log.para_imports[i as int].block_number,
        ) == Some(first as int),
    ensures
        event@ == rebuild_of(multi@, chain_view(on_chain@), c as int, i as int),
{
    let log = multi.log(c);
    let rebuilt = &log.para_imports[i];
    let best = &log.para_imports[first];
    assert(log@.para_imports[i as int] == rebuilt@);
    assert(log@.para_imports[first as int] == best@);
    let number = rebuilt.block_number;
    let best_key = resolve_hash_key(&best.block_hash, registry);
    let rebuilt_key = resolve_hash_key(&rebuilt.block_hash, registry);
    let (best_collator, best_rp, best_slot) = find_builder(multi, number, &best_key);
    let (rebuilt_collator, rebuilt_rp, rebuilt_slot) = find_builder(multi, number, &rebuilt_key);
    let cause = classify_rebuild_cause(
        &best_collator,
        &rebuilt_collator,
        best_rp,
        rebuilt_rp,
        best_slot,
        rebuilt_slot,
    );
    let on_chain_winner = if listed(included, number, &best_key) {
        OnChainWinner::OriginalBest
    } else if listed(included, number, &rebuilt_key) {
        OnChainWinner::Replacement
    } else {
        OnChainWinner::Unknown
    };
    let event = RebuildEvent {
        block_number: number,
        block_hash_best: best.block_hash.clone(),
        parent_hash_best: best.parent_hash.clone(),
        block_hash_rebuilt: rebuilt.block_hash.clone(),
        parent_hash_rebuilt: rebuilt.parent_hash.clone(),
        best_collator,
        rebuilt_collator,
        best_timestamp: best.timestamp,
        rebuilt_timestamp: rebuilt.timestamp,
        observer: multi.name(c).clone(),
        best_relay_parent: best_rp,
        rebuilt_relay_parent: rebuilt_rp,
        best_slot,
        rebuilt_slot,
        cause,
        on_chain_winner,
        relay_block_sequence: relay_blocks_from_to(on_chain, best_rp, rebuilt_rp),
        collation_expired: expired_at_collators(multi, best_rp),
    };
    assert(event@ =~= rebuild_of(multi@, chain_view(on_chain@), c as int, i as int));
    event
}

fn read_rebuilds(
    multi: &MultiCollatorLogs,
    registry: &HashRegistry,
    on_chain: &BTreeMap<u32, OnChainBlockInfo>,
) -> (events: Vec<RebuildEvent>)
    requires
        multi.wf(),
        registry@ == whole_registry(multi@),
    ensures
        views(events@) == rebuilds_seen(multi@, chain_view(on_chain@), multi@.len()),
{
    let included = included_blocks(on_chain);
    let ghost chain = chain_view(on_chain@);
    let mut events: Vec<RebuildEvent> = Vec::new();
    assert(views(events@) =~= Seq::<RebuildEventView>::empty());
    let mut c: usize = 0;
    while c < multi.len()
        invariant
            c <= multi@.len(),
            multi.wf(),
            registry@ == whole_registry(multi@),
            chain == chain_view(on_chain@),
            forall|number: u32, key: Seq<char>| #[trigger]
                is_listed(included@, number, key) <==> includes_block(chain, number, key),
            views(events@) == rebuilds_seen(multi@, chain, c as nat),
        decreases multi@.len() - c,
    {
        let log = multi.log(c);
        let ghost before = views(events@);
        let mut i: usize = 0;
        assert(before + Seq::<RebuildEventView>::empty() =~= before);
        while i < log.para_imports.len()
            invariant
                i <= log.para_imports@.len(),
                c < multi@.len(),
                multi.wf(),
                log@ == multi@[c as int].log,
                registry@ == whole_registry(multi@),
                chain == chain_view(on_chain@),
                forall|number: u32, key: Seq<char>| #[trigger]
                    is_listed(included@, number, key) <==> includes_block(chain, number, key),
                views(events@) == before + rebuilds_in(multi@, chain, c as int, i as nat),
            decreases log.para_imports@.len() - i,
        {
            assert(log@.para_imports[i as int] == log.para_imports@[i as int]@);
            if !log.para_imports[i].is_best {
                if let Some(first) = find_first_best(log, log.para_imports[i].block_number) {
                    let event = read_rebuild(multi, registry, on_chain, &included, c, i, first);
                    proof {
                        views_push(events@, event);
                    }
                    events.push(event);
                }
            }
            i = i + 1;
            assert(views(events@) =~= before + rebuilds_in(multi@, chain, c as int, i as nat));
        }
        c = c + 1;
    }
    events
}

fn order_by_number(events: &Vec<RebuildEvent>) -> (ordered: Vec<RebuildEvent>)
    ensures
        views(ordered@) == by_number(views(events@)),
{
    let ghost all = by_number(views(events@));
    let mut keys: Vec<i128> = Vec::new();
    let mut i: usize = 0;
    while i < events.len()
        invariant
            i <= events@.len(),
            keys@.len() == i,
            forall|k: int| 0 <= k < i ==> #[trigger] keys@[k] == events@[k].block_number,
        decreases events@.len() - i,
    {
        keys.push(events[i].block_number as i128);
        i = i + 1;
    }
    assert(ints(keys@) =~= rebuild_numbers(views(events@)));
    let order = stable_order(&keys);
    let mut ordered: Vec<RebuildEvent> = Vec::new();
    assert(views(ordered@) =~= all.take(0));
    let mut k: usize = 0;
    while k < order.len()
        invariant
            k <= order@.len(),
            all == by_number(views(events@)),
            positions(order@) == sort_order(rebuild_numbers(views(events@))),
            forall|a: int| 0 <= a < order@.len() ==> #[trigger] order@[a] < events@.len(),
            views(ordered@) == all.take(k as int),
        decreases order@.len() - k,
    {
        let event = events[order[k]].clone();
        proof {
            assert(positions(order@)[k as int] == order@[k as int]);
            assert(views(events@)[order@[k as int] as int] == event@);
            views_push(ordered@, event);
            assert(all.take(k + 1) =~= all.take(k as int).push(event@));
        }
        ordered.push(event);
        k = k + 1;
    }
    assert(all.take(k as int) =~= all);
    ordered
}

fn keep_first(events: &Vec<RebuildEvent>, registry: &HashRegistry) -> (kept: Vec<RebuildEvent>)
    ensures
        views(kept@) == without_repeats(registry@, views(events@), events@.len()),
{
    let ghost s = views(events@);
    let mut keys: Vec<(String, String)> = Vec::new();
    let mut kept: Vec<RebuildEvent> = Vec::new();
    assert(views(kept@) =~= Seq::<RebuildEventView>::empty());
    let mut i: usize = 0;
    while i < events.len()
        invariant
            i <= events@.len(),
            s == views(events@),
            keys@.len() == i,
            forall|k: int|
                0 <= k < i ==> (#[trigger] keys@[k]).0@ == resolved_key(
                    s[k].block_hash_best,
                    registry@,
                ) && keys@[k].1@ == resolved_key(s[k].block_hash_rebuilt, registry@),
            views(kept@) == without_repeats(registry@, s, i as nat),
        decreases events@.len() - i,
    {
        let event = &events[i];
        assert(s[i as int] == event@);
        let best = resolve_hash_key(&event.block_hash_best, registry);
        let rebuilt = resolve_hash_key(&event.block_hash_rebuilt, registry);
        let mut repeated = false;
        let mut k: usize = 0;
        while k < i && !repeated
            invariant
                k <= i < events@.len(),
                s == views(events@),
                s[i as int] == event@,
                keys@.len() == i,
                forall|k: int|
                    0 <= k < i ==> (#[trigger] keys@[k]).0@ == resolved_key(
                        s[k].block_hash_best,
                        registry@,
                    ) && keys@[k].1@ == resolved_key(s[k].block_hash_rebuilt, registry@),
                best@ == resolved_key(event@.block_hash_best, registry@),
                rebuilt@ == resolved_key(event@.block_hash_rebuilt, registry@),
                repeated == exists|j: int|
                    0 <= j < k && same_rebuild(registry@, #[trigger] s[j], s[i as int]),
            decreases i - k,
        {
            assert(s[k as int] == events@[k as int]@);
            assert(keys@[k as int].0@ == resolved_key(s[k as int].block_hash_best, registry@));
            if events[k].block_number == event.block_number && same_text(
                keys[k].0.as_str(),
                best.as_str(),
            ) && same_text(keys[k].1.as_str(), rebuilt.as_str()) {
                assert(same_rebuild(registry@, s[k as int], s[i as int]));
                repeated = true;
            }
            k = k + 1;
        }
        if !repeated {
            let copy = event.clone();
            proof {
                views_push(kept@, copy);
            }
            kept.push(copy);
        }
        proof {
            if repeated {
                let j = choose|j: int|
                    0 <= j < k && same_rebuild(registry@, #[trigger] s[j], s[i as int]);
                assert(0 <= j < i && same_rebuild(registry@, s[j], s[i as int]));
            }
        }
        keys.push((best, rebuilt));
        i = i + 1;
    }
    kept
}

/// The analysis across collators.
pub open spec fn rebuild_analysis(
    multi: Seq<CollatorLogView>,
    chain: Map<u32, OnChainBlockInfoView>,
) -> MultiCollatorAnalysisView {
    MultiCollatorAnalysisView {
        per_collator: all_stats(multi),
        rebuilds: rebuilds_of(multi, chain),
        slot_boundary_analysis: Some(slot_analysis(multi)),
        duplicate_blocks_same_rp: duplicates_of(multi),
    }
}

/// Analyzes rebuilds across multiple collators.
///
/// For each non-best import on a collator, cross-references the seals of all collators to
/// determine who built the two blocks.
pub fn analyze_rebuilds(
    multi: &MultiCollatorLogs,
    on_chain: &BTreeMap<u32, OnChainBlockInfo>,
) -> (analysis: MultiCollatorAnalysis)
    requires
        multi.wf(),
    ensures
        analysis@ == rebuild_analysis(multi@, chain_view(on_chain@)),
{
    let registry = merge_registries(multi);
    let per_collator = collator_stats(multi, &registry);
    let seen = read_rebuilds(multi, &registry, on_chain);
    let ordered = order_by_number(&seen);
    let rebuilds = keep_first(&ordered, &registry);
    assert(views(ordered@).len() == ordered@.len());
    let analysis = MultiCollatorAnalysis {
        per_collator,
        rebuilds,
        slot_boundary_analysis: Some(analyze_slot_boundaries(multi)),
        duplicate_blocks_same_rp: find_duplicates(multi),
    };
    assert(analysis@ =~= rebuild_analysis(multi@, chain_view(on_chain@)));
    analysis
}

} // verus!
