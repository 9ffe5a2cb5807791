//! What holds of the built blocks, said of the seals, decisions, submissions, fetches and imports of
//! the log themselves.

use crate::built_blocks::{
    attempt_of, built_blocks_of, built_of, is_near, latency_of, numbers_of, parent_of,
    sealed_blocks, submission_of, time_apart, was_submitted, BuiltBlockView,
};
use crate::drops::reason_of;
use crate::hash::{LogHashView, RegistryView};
use crate::search::{
    first_min_is_least, first_where_is_first, is_stable_order, last_where_is_last, sort_order,
    sort_order_is_stable,
};
use crate::time::elapsed;
use crate::types::{
    BuildAttemptView, OnChainBlockInfoView, ParsedLogView, PreSealedBlockView,
};
use vstd::prelude::*;

verus! {

/// How far a decision is from a seal, in milliseconds, before or after it.
pub open spec fn distance(ba: BuildAttemptView, ps: PreSealedBlockView) -> int {
    let d = elapsed(ba.timestamp, ps.timestamp);
    if d < 0 {
        -d
    } else {
        d
    }
}

/// Whether a decision can have led to a seal: it is one to build, at most two seconds away.
pub open spec fn can_lead_to(ba: BuildAttemptView, ps: PreSealedBlockView) -> bool {
    ba.building && distance(ba, ps) <= 2000
}

/// Whether the last submission of the number of a sealed block is of that very block, by whole
/// hashes.
pub open spec fn is_submitted(log: ParsedLogView, ps: PreSealedBlockView) -> bool {
    exists|s: int|
        #![trigger log.collation_submissions[s]]
        {
            &&& 0 <= s < log.collation_submissions.len()
            &&& log.collation_submissions[s].block_number == ps.block_number
            &&& ps.post_hash.full is Some
            &&& log.collation_submissions[s].hash.full == ps.post_hash.full
            &&& forall|t: int|
                s < t < log.collation_submissions.len() ==> (
                #[trigger] log.collation_submissions[t]).block_number != ps.block_number
        }
}

/// Whether decision `i` is the one for a seal: of those that can have led to it the first, where the
/// block was submitted, and else the nearest, the first of equally near ones.
pub open spec fn is_decision_for(log: ParsedLogView, ps: PreSealedBlockView, i: int) -> bool {
    &&& 0 <= i < log.build_attempts.len()
    &&& can_lead_to(log.build_attempts[i], ps)
    &&& forall|k: int|
        0 <= k < i && can_lead_to(#[trigger] log.build_attempts[k], ps) ==> !is_submitted(log, ps)
            && distance(log.build_attempts[k], ps) > distance(log.build_attempts[i], ps)
    &&& forall|k: int|
        i < k < log.build_attempts.len() && can_lead_to(#[trigger] log.build_attempts[k], ps)
            ==> is_submitted(log, ps) || distance(log.build_attempts[k], ps) >= distance(
            log.build_attempts[i],
            ps,
        )
}

/// Whether a built block has its relay parent from the decision for a seal, or has none because
/// there is no decision.
pub open spec fn relay_parent_is_from_decision(
    log: ParsedLogView,
    ps: PreSealedBlockView,
    b: BuiltBlockView,
) -> bool {
    ||| exists|i: int|
        #![trigger log.build_attempts[i]]
        {
            &&& is_decision_for(log, ps, i)
            &&& b.relay_parent_num == log.build_attempts[i].relay_parent_num
            &&& b.relay_parent_hash == log.build_attempts[i].relay_parent
            &&& b.relay_parent_offset == log.build_attempts[i].relay_parent_offset
        }
    ||| {
        &&& forall|i: int|
            0 <= i < log.build_attempts.len() ==> !can_lead_to(#[trigger] log.build_attempts[i], ps)
        &&& b.relay_parent_num == 0
        &&& b.relay_parent_hash == (LogHashView { raw: "unknown"@, full: None })
        &&& b.relay_parent_offset is None
    }
}

/// Whether a built block has its parent from the last import of its number, or an empty one because
/// there is no import.
pub open spec fn parent_is_from_import(log: ParsedLogView, b: BuiltBlockView) -> bool {
    ||| exists|i: int|
        #![trigger log.para_imports[i]]
        {
            &&& 0 <= i < log.para_imports.len()
            &&& log.para_imports[i].block_number == b.block_number
            &&& b.parent_hash == log.para_imports[i].parent_hash
            &&& forall|k: int|
                i < k < log.para_imports.len() ==> (
                #[trigger] log.para_imports[k]).block_number != b.block_number
        }
    ||| {
        &&& forall|i: int|
            0 <= i < log.para_imports.len() ==> (#[trigger] log.para_imports[i]).block_number
                != b.block_number
        &&& b.parent_hash == (LogHashView { raw: Seq::empty(), full: None })
    }
}

/// Whether a built block has the latency of the last fetch of its very hash, or none because there
/// is no such fetch.
pub open spec fn latency_is_from_fetch(log: ParsedLogView, b: BuiltBlockView) -> bool {
    ||| exists|i: int|
        #![trigger log.collation_fetches[i]]
        {
            &&& 0 <= i < log.collation_fetches.len()
            &&& b.block_hash.full is Some
            &&& log.collation_fetches[i].para_head.full == b.block_hash.full
            &&& b.collation_fetch_latency_ms == Some(log.collation_fetches[i].latency_ms)
            &&& forall|k: int|
                i < k < log.collation_fetches.len() ==> (
                #[trigger] log.collation_fetches[k]).para_head.full != b.block_hash.full
        }
    ||| {
        &&& b.block_hash.full is Some ==> forall|i: int|
            0 <= i < log.collation_fetches.len() ==> (
            #[trigger] log.collation_fetches[i]).para_head.full != b.block_hash.full
        &&& b.collation_fetch_latency_ms is None
    }
}

/// Whether a built block is the one that a seal tells of.
pub open spec fn tells_of_seal(
    log: ParsedLogView,
    ps: PreSealedBlockView,
    b: BuiltBlockView,
) -> bool {
    &&& b.block_number == ps.block_number
    &&& b.block_hash == ps.post_hash
    &&& b.built_at == ps.timestamp
    &&& relay_parent_is_from_decision(log, ps, b)
    &&& parent_is_from_import(log, b)
    &&& latency_is_from_fetch(log, b)
}

/// The numbers of the seals of a log.
pub open spec fn seal_numbers(log: ParsedLogView) -> Seq<int> {
    Seq::new(log.pre_sealed.len(), |i: int| log.pre_sealed[i].block_number as int)
}

proof fn submitted_means(log: ParsedLogView, ps: PreSealedBlockView)
    ensures
        was_submitted(log, ps) == is_submitted(log, ps),
{
    let ok = |i: int| log.collation_submissions[i].block_number == ps.block_number;
    last_where_is_last(log.collation_submissions.len(), ok);
    match submission_of(log, ps.block_number) {
        Some(s) => {
            assert(ok(s));
            assert forall|t: int| s < t < log.collation_submissions.len() implies (
            #[trigger] log.collation_submissions[t]).block_number != ps.block_number by {
                assert(!ok(t));
            }
            if is_submitted(log, ps) {
                let u = choose|u: int|
                    #![trigger log.collation_submissions[u]]
                    {
                        &&& 0 <= u < log.collation_submissions.len()
                        &&& log.collation_submissions[u].block_number == ps.block_number
                        &&& ps.post_hash.full is Some
                        &&& log.collation_submissions[u].hash.full == ps.post_hash.full
                        &&& forall|t: int|
                            u < t < log.collation_submissions.len() ==> (
                            #[trigger] log.collation_submissions[t]).block_number
                                != ps.block_number
                    };
                assert(ok(u));
                assert(u == s);
            }
        },
        None => {
            assert forall|u: int| 0 <= u < log.collation_submissions.len() implies (
            #[trigger] log.collation_submissions[u]).block_number != ps.block_number by {
                assert(!ok(u));
            }
        },
    }
}

proof fn decision_is_found(log: ParsedLogView, ps: PreSealedBlockView)
    ensures
        relay_parent_is_from_decision(log, ps, built_of(log, ps)),
{
    let n = log.build_attempts.len();
    let near = |i: int| is_near(log, ps, i);
    let apart = |i: int| time_apart(ps, log.build_attempts[i]);
    assert forall|i: int| 0 <= i < n implies #[trigger] near(i) == can_lead_to(
        log.build_attempts[i],
        ps,
    ) && apart(i) == distance(log.build_attempts[i], ps) by {}
    first_where_is_first(n, near);
    first_min_is_least(n, near, apart);
    submitted_means(log, ps);
    match attempt_of(log, ps) {
        Some(i) => {
            assert(near(i));
            assert forall|k: int|
                0 <= k < i && can_lead_to(#[trigger] log.build_attempts[k], ps) implies !is_submitted(
                log,
                ps,
            ) && distance(log.build_attempts[k], ps) > distance(log.build_attempts[i], ps) by {
                assert(near(k));
            }
            assert forall|k: int|
                i < k < n && can_lead_to(#[trigger] log.build_attempts[k], ps) implies is_submitted(
                log,
                ps,
            ) || distance(log.build_attempts[k], ps) >= distance(log.build_attempts[i], ps) by {
                assert(near(k));
            }
            assert(is_decision_for(log, ps, i));
            let b = built_of(log, ps);
            assert(b.relay_parent_num == log.build_attempts[i].relay_parent_num);
        },
        None => {
            assert forall|i: int| 0 <= i < n implies !can_lead_to(
                #[trigger] log.build_attempts[i],
                ps,
            ) by {
                assert(!near(i));
            }
        },
    }
}

proof fn parent_is_found(log: ParsedLogView, ps: PreSealedBlockView)
    ensures
        parent_is_from_import(log, built_of(log, ps)),
{
    let number = ps.block_number;
    let ok = |i: int| log.para_imports[i].block_number == number;
    last_where_is_last(log.para_imports.len(), ok);
    let b = built_of(log, ps);
    assert(b.parent_hash == parent_of(log, number));
    match crate::search::last_where(log.para_imports.len(), ok) {
        Some(i) => {
            assert(ok(i));
            assert forall|k: int| i < k < log.para_imports.len() implies (
            #[trigger] log.para_imports[k]).block_number != number by {
                assert(!ok(k));
            }
            assert(b.parent_hash == log.para_imports[i].parent_hash);
        },
        None => {
            assert forall|i: int| 0 <= i < log.para_imports.len() implies (
            #[trigger] log.para_imports[i]).block_number != number by {
                assert(!ok(i));
            }
            reveal_strlit("");
            assert(""@ =~= Seq::<char>::empty());
        },
    }
}

proof fn latency_is_found(log: ParsedLogView, ps: PreSealedBlockView)
    ensures
        latency_is_from_fetch(log, built_of(log, ps)),
{
    let b = built_of(log, ps);
    assert(b.collation_fetch_latency_ms == latency_of(log, ps));
    if let Some(full) = ps.post_hash.full {
        let ok = |i: int| log.collation_fetches[i].para_head.full == Some(full);
        last_where_is_last(log.collation_fetches.len(), ok);
        match crate::search::last_where(log.collation_fetches.len(), ok) {
            Some(i) => {
                assert(ok(i));
                assert forall|k: int| i < k < log.collation_fetches.len() implies (
                #[trigger] log.collation_fetches[k]).para_head.full != b.block_hash.full by {
                    assert(!ok(k));
                }
                assert(log.collation_fetches[i].para_head.full == b.block_hash.full);
            },
            None => {
                assert forall|i: int| 0 <= i < log.collation_fetches.len() implies (
                #[trigger] log.collation_fetches[i]).para_head.full != b.block_hash.full by {
                    assert(!ok(i));
                }
            },
        }
    }
}

/// Each built block tells of one seal and each seal of one built block. They are ordered by number,
/// and seals of one number keep their order.
pub proof fn built_blocks_tell_of_seals(log: ParsedLogView)
    ensures
        exists|order: Seq<int>| #[trigger]
            is_stable_order(order, seal_numbers(log), log.pre_sealed.len())
                && built_blocks_of(log).len() == order.len() && forall|k: int|
                0 <= k < order.len() ==> tells_of_seal(
                    log,
                    log.pre_sealed[order[k]],
                    #[trigger] built_blocks_of(log)[k],
                ),
{
    let sealed = sealed_blocks(log);
    assert(numbers_of(sealed) =~= seal_numbers(log));
    let order = sort_order(seal_numbers(log));
    sort_order_is_stable(seal_numbers(log));
    let built = built_blocks_of(log);
    assert forall|k: int| 0 <= k < order.len() implies tells_of_seal(
        log,
        log.pre_sealed[order[k]],
        #[trigger] built[k],
    ) by {
        let j = order[k];
        assert(0 <= j < log.pre_sealed.len());
        let ps = log.pre_sealed[j];
        assert(built[k] == built_of(log, ps));
        decision_is_found(log, ps);
        parent_is_found(log, ps);
        latency_is_found(log, ps);
    }
    assert(is_stable_order(order, seal_numbers(log), log.pre_sealed.len()));
}

/// A block built on what its decision names as the relay parent is not told to be on a wrong fork,
/// where the relay block of that number has the very hash that the decision names.
pub proof fn no_wrong_fork_where_decision_fits(
    log: ParsedLogView,
    ps: PreSealedBlockView,
    i: int,
    chain: Map<u32, OnChainBlockInfoView>,
    boundaries: Seq<(u32, u32, u32)>,
    window: u32,
    registry: RegistryView,
)
    requires
        is_decision_for(log, ps, i),
        chain.contains_key(log.build_attempts[i].relay_parent_num),
        log.build_attempts[i].relay_parent.full == Some(
            chain[log.build_attempts[i].relay_parent_num].block_hash,
        ),
    ensures
        reason_of(built_of(log, ps), chain, boundaries, window, registry) !is WrongFork,
{
    decision_is_found(log, ps);
    let b = built_of(log, ps);
    assert(can_lead_to(log.build_attempts[i], ps));
    let k = choose|k: int|
        #![trigger log.build_attempts[k]]
        {
            &&& is_decision_for(log, ps, k)
            &&& b.relay_parent_num == log.build_attempts[k].relay_parent_num
            &&& b.relay_parent_hash == log.build_attempts[k].relay_parent
            &&& b.relay_parent_offset == log.build_attempts[k].relay_parent_offset
        };
    assert(can_lead_to(log.build_attempts[k], ps));
    assert(k == i);
}

} // verus!
