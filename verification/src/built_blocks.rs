//! Which blocks the collator built: sealed blocks, matched with the decisions to build that led to
//! them.

use crate::hash::{auto_hash, same_hash, unresolved, LogHash, LogHashView};
use crate::model::{opt_view, views, views_push};
use crate::search::{
    first_min, first_min_is_least, first_where, first_where_is_first, last_where, sort_order,
    sort_order_is_stable, stable_order,
};
use crate::time::{elapsed, Timestamp};
use crate::types::{BuildAttemptView, ParsedLog, ParsedLogView, PreSealedBlockView};
use vstd::prelude::*;

verus! {

/// Information about a locally built parachain block.
#[derive(Debug)]
pub struct BuiltBlock {
    pub block_number: u32,
    pub block_hash: LogHash,
    pub parent_hash: LogHash,
    pub relay_parent_num: u32,
    pub relay_parent_hash: LogHash,
    pub built_at: Timestamp,
    pub collation_fetch_latency_ms: Option<u64>,
    pub relay_parent_offset: Option<u32>,
}

/// What a `BuiltBlock` holds.
#[verifier::ext_equal]
pub struct BuiltBlockView {
    pub block_number: u32,
    pub block_hash: LogHashView,
    pub parent_hash: LogHashView,
    pub relay_parent_num: u32,
    pub relay_parent_hash: LogHashView,
    pub built_at: int,
    pub collation_fetch_latency_ms: Option<u64>,
    pub relay_parent_offset: Option<u32>,
}

impl View for BuiltBlock {
    type V = BuiltBlockView;

    open spec fn view(&self) -> BuiltBlockView {
        BuiltBlockView {
            block_number: self.block_number,
            block_hash: self.block_hash@,
            parent_hash: self.parent_hash@,
            relay_parent_num: self.relay_parent_num,
            relay_parent_hash: self.relay_parent_hash@,
            built_at: self.built_at@,
            collation_fetch_latency_ms: self.collation_fetch_latency_ms,
            relay_parent_offset: self.relay_parent_offset,
        }
    }
}

impl Clone for BuiltBlock {
    fn clone(&self) -> (copy: Self)
        ensures
            copy@ == self@,
    {
        BuiltBlock {
            block_number: self.block_number,
            block_hash: self.block_hash.clone(),
            parent_hash: self.parent_hash.clone(),
            relay_parent_num: self.relay_parent_num,
            relay_parent_hash: self.relay_parent_hash.clone(),
            built_at: self.built_at,
            collation_fetch_latency_ms: self.collation_fetch_latency_ms,
            relay_parent_offset: self.relay_parent_offset,
        }
    }
}

/// How far, in milliseconds, a decision to build may be from the seal.
pub const MAX_BUILD_GAP_MS: u64 = 2000;

/// The distance in time between a seal and a decision.
pub open spec fn time_apart(ps: PreSealedBlockView, ba: BuildAttemptView) -> int {
    let d = elapsed(ba.timestamp, ps.timestamp);
    if d < 0 {
        -d
    } else {
        d
    }
}

/// Whether decision `i` is one to build, near a seal.
pub open spec fn is_near(log: ParsedLogView, ps: PreSealedBlockView, i: int) -> bool {
    log.build_attempts[i].building && time_apart(ps, log.build_attempts[i]) <= MAX_BUILD_GAP_MS
}

/// The last submission of a block number.
pub open spec fn submission_of(log: ParsedLogView, number: u32) -> Option<int> {
    last_where(
        log.collation_submissions.len(),
        |i: int| log.collation_submissions[i].block_number == number,
    )
}

/// Whether the submission of the block number has the whole hash of the sealed block.
pub open spec fn was_submitted(log: ParsedLogView, ps: PreSealedBlockView) -> bool {
    match submission_of(log, ps.block_number) {
        Some(i) => log.collation_submissions[i].hash.full is Some
            && log.collation_submissions[i].hash.full == ps.post_hash.full,
        None => false,
    }
}

/// The decision to build that led to a sealed block: among those near, the first if the block was
/// submitted, and else the nearest.
pub open spec fn attempt_of(log: ParsedLogView, ps: PreSealedBlockView) -> Option<int> {
    if was_submitted(log, ps) {
        first_where(log.build_attempts.len(), |i: int| is_near(log, ps, i))
    } else {
        first_min(
            log.build_attempts.len(),
            |i: int| is_near(log, ps, i),
            |i: int| time_apart(ps, log.build_attempts[i]),
        )
    }
}

/// The latency of the last fetch of a block.
pub open spec fn latency_of(log: ParsedLogView, ps: PreSealedBlockView) -> Option<u64> {
    match ps.post_hash.full {
        Some(full) => match last_where(
            log.collation_fetches.len(),
            |i: int| log.collation_fetches[i].para_head.full == Some(full),
        ) {
            Some(i) => Some(log.collation_fetches[i].latency_ms),
            None => None,
        },
        None => None,
    }
}

/// The parent that the last import of a block number gives; an empty hash where there is none.
pub open spec fn parent_of(log: ParsedLogView, number: u32) -> LogHashView {
    match last_where(log.para_imports.len(), |i: int| log.para_imports[i].block_number == number) {
        Some(i) => log.para_imports[i].parent_hash,
        None => auto_hash(""@),
    }
}

/// The block that a seal tells of.
pub open spec fn built_of(log: ParsedLogView, ps: PreSealedBlockView) -> BuiltBlockView {
    let attempt = attempt_of(log, ps);
    BuiltBlockView {
        block_number: ps.block_number,
        block_hash: ps.post_hash,
        parent_hash: parent_of(log, ps.block_number),
        relay_parent_num: match attempt {
            Some(i) => log.build_attempts[i].relay_parent_num,
            None => 0,
        },
        relay_parent_hash: match attempt {
            Some(i) => log.build_attempts[i].relay_parent,
            None => unresolved("unknown"@),
        },
        built_at: ps.timestamp,
        collation_fetch_latency_ms: latency_of(log, ps),
        relay_parent_offset: match attempt {
            Some(i) => log.build_attempts[i].relay_parent_offset,
            None => None,
        },
    }
}

/// The blocks that the seals tell of, in the order of the seals.
pub open spec fn sealed_blocks(log: ParsedLogView) -> Seq<BuiltBlockView> {
    Seq::new(log.pre_sealed.len(), |i: int| built_of(log, log.pre_sealed[i]))
}

/// The numbers of blocks.
pub open spec fn numbers_of(blocks: Seq<BuiltBlockView>) -> Seq<int> {
    Seq::new(blocks.len(), |i: int| blocks[i].block_number as int)
}

/// The built blocks, ordered by number; blocks of one number keep their order.
pub open spec fn built_blocks_of(log: ParsedLogView) -> Seq<BuiltBlockView> {
    let sealed = sealed_blocks(log);
    let order = sort_order(numbers_of(sealed));
    Seq::new(order.len(), |k: int| sealed[order[k]])
}

/// Each seal gives one built block, and the numbers do not descend.
pub proof fn built_blocks_ascend(log: ParsedLogView)
    ensures
        built_blocks_of(log).len() == log.pre_sealed.len(),
        forall|i: int, j: int|
            0 <= i < j < built_blocks_of(log).len() ==> (
            #[trigger] built_blocks_of(log)[i]).block_number <= (
            #[trigger] built_blocks_of(log)[j]).block_number,
        forall|i: int|
            0 <= i < log.pre_sealed.len() ==> built_blocks_of(log).contains(
                built_of(log, #[trigger] log.pre_sealed[i]),
            ),
{
    let sealed = sealed_blocks(log);
    let keys = numbers_of(sealed);
    let order = sort_order(keys);
    let built = built_blocks_of(log);
    sort_order_is_stable(keys);
    assert forall|i: int, j: int| 0 <= i < j < built.len() implies (
    #[trigger] built[i]).block_number <= (#[trigger] built[j]).block_number by {
        assert(0 <= order[i] < keys.len() && 0 <= order[j] < keys.len());
        assert(keys[order[i]] <= keys[order[j]]);
    }
    assert forall|i: int| 0 <= i < log.pre_sealed.len() implies built.contains(
        built_of(log, #[trigger] log.pre_sealed[i]),
    ) by {
        assert(order.contains(i));
        let k = choose|k: int| 0 <= k < order.len() && order[k] == i;
        assert(built[k] == sealed[i]);
    }
}

/// A decision found for a seal is one to build, at most two seconds away; where none is found,
/// there is none.
pub proof fn attempt_is_near(log: ParsedLogView, ps: PreSealedBlockView)
    ensures
        match attempt_of(log, ps) {
            Some(i) => 0 <= i < log.build_attempts.len() && is_near(log, ps, i),
            None => forall|i: int| 0 <= i < log.build_attempts.len() ==> !is_near(log, ps, i),
        },
{
    let near = |i: int| is_near(log, ps, i);
    first_where_is_first(log.build_attempts.len(), near);
    first_min_is_least(
        log.build_attempts.len(),
        near,
        |i: int| time_apart(ps, log.build_attempts[i]),
    );
    if attempt_of(log, ps) is None {
        assert forall|i: int| 0 <= i < log.build_attempts.len() implies !is_near(log, ps, i) by {
            assert(!near(i));
        }
    }
}

fn same_full(a: &Option<[u8; 32]>, b: &Option<[u8; 32]>) -> (same: bool)
    ensures
        same == (a is Some && opt_view(*a) == opt_view(*b)),
{
    match (a, b) {
        (Some(x), Some(y)) => same_hash(x, y),
        _ => false,
    }
}

fn find_submission(log: &ParsedLog, number: u32) -> (at: Option<usize>)
    ensures
        match at {
            Some(i) => submission_of(log@, number) == Some(i as int) && i
                < log.collation_submissions@.len(),
            None => submission_of(log@, number) is None,
        },
{
    let mut at: Option<usize> = None;
    let mut i: usize = 0;
    let ghost ok = |i: int| log@.collation_submissions[i].block_number == number;
    while i < log.collation_submissions.len()
        invariant
            i <= log.collation_submissions@.len(),
            ok == (|i: int| log@.collation_submissions[i].block_number == number),
            match at {
                Some(b) => last_where(i as nat, ok) == Some(b as int) && b < i,
                None => last_where(i as nat, ok) is None,
            },
        decreases log.collation_submissions@.len() - i,
    {
        assert(log@.collation_submissions[i as int] == log.collation_submissions@[i as int]@);
        if log.collation_submissions[i].block_number == number {
            at = Some(i);
        }
        i = i + 1;
    }
    at
}

fn find_attempt(log: &ParsedLog, s: usize) -> (at: Option<usize>)
    requires
        s < log.pre_sealed@.len(),
    ensures
        match at {
            Some(i) => attempt_of(log@, log@.pre_sealed[s as int]) == Some(i as int) && i
                < log.build_attempts@.len(),
            None => attempt_of(log@, log@.pre_sealed[s as int]) is None,
        },
{
    let seal = &log.pre_sealed[s];
    let ghost ps = log@.pre_sealed[s as int];
    assert(ps == seal@);
    let submitted = match find_submission(log, seal.block_number) {
        Some(k) => {
            assert(log@.collation_submissions[k as int] == log.collation_submissions@[k as int]@);
            same_full(&log.collation_submissions[k].hash.full, &seal.post_hash.full)
        },
        None => false,
    };
    let ghost near = |i: int| is_near(log@, ps, i);
    let ghost apart = |i: int| time_apart(ps, log@.build_attempts[i]);
    let mut at: Option<(usize, u64)> = None;
    let mut i: usize = 0;
    while i < log.build_attempts.len()
        invariant
            i <= log.build_attempts@.len(),
            ps == seal@,
            near == (|i: int| is_near(log@, ps, i)),
            apart == (|i: int| time_apart(ps, log@.build_attempts[i])),
            match at {
                Some((b, d)) => b < i && d == apart(b as int) && if submitted {
                    first_where(i as nat, near) == Some(b as int)
                } else {
                    first_min(i as nat, near, apart) == Some(b as int)
                },
                None => first_where(i as nat, near) is None && first_min(
                    i as nat,
                    near,
                    apart,
                ) is None,
            },
        decreases log.build_attempts@.len() - i,
    {
        let attempt = &log.build_attempts[i];
        assert(log@.build_attempts[i as int] == attempt@);
        if attempt.building {
            let dt = seal.timestamp.apart(&attempt.timestamp);
            if dt <= MAX_BUILD_GAP_MS {
                at = match at {
                    Some((b, d)) => if !submitted && dt < d {
                        Some((i, dt))
                    } else {
                        Some((b, d))
                    },
                    None => Some((i, dt)),
                };
            }
        }
        i = i + 1;
    }
    match at {
        Some((b, _)) => Some(b),
        None => None,
    }
}

fn find_latency(log: &ParsedLog, hash: &LogHash) -> (latency: Option<u64>)
    ensures
        forall|ps: PreSealedBlockView|
            ps.post_hash == hash@ ==> latency == #[trigger] latency_of(log@, ps),
{
    let full = match hash.full {
        Some(full) => full,
        None => {
            return None;
        },
    };
    let mut latency: Option<u64> = None;
    let mut i: usize = 0;
    let ghost ok = |i: int| log@.collation_fetches[i].para_head.full == Some(full@);
    while i < log.collation_fetches.len()
        invariant
            i <= log.collation_fetches@.len(),
            ok == (|i: int| log@.collation_fetches[i].para_head.full == Some(full@)),
            match last_where(i as nat, ok) {
                Some(b) => 0 <= b < i && latency == Some(log@.collation_fetches[b].latency_ms),
                None => latency is None,
            },
        decreases log.collation_fetches@.len() - i,
    {
        assert(log@.collation_fetches[i as int] == log.collation_fetches@[i as int]@);
        if let Some(head) = log.collation_fetches[i].para_head.full {
            if same_hash(&head, &full) {
                latency = Some(log.collation_fetches[i].latency_ms);
            }
        }
        i = i + 1;
    }
    latency
}

fn find_parent(log: &ParsedLog, number: u32) -> (parent: LogHash)
    ensures
        parent@ == parent_of(log@, number),
{
    let mut at: Option<usize> = None;
    let mut i: usize = 0;
    let ghost ok = |i: int| log@.para_imports[i].block_number == number;
    while i < log.para_imports.len()
        invariant
            i <= log.para_imports@.len(),
            ok == (|i: int| log@.para_imports[i].block_number == number),
            match at {
                Some(b) => last_where(i as nat, ok) == Some(b as int) && b < i,
                None => last_where(i as nat, ok) is None,
            },
        decreases log.para_imports@.len() - i,
    {
        assert(log@.para_imports[i as int] == log.para_imports@[i as int]@);
        if log.para_imports[i].block_number == number {
            at = Some(i);
        }
        i = i + 1;
    }
    match at {
        Some(b) => {
            assert(log@.para_imports[b as int] == log.para_imports@[b as int]@);
            log.para_imports[b].parent_hash.clone()
        },
        None => LogHash::from_auto(""),
    }
}

/// Identifies all blocks that were built by the collator: the sealed blocks, each with the
/// decision to build near it, the latency of its fetch and the parent of its import.
pub fn identify_built_blocks(log: &ParsedLog) -> (built: Vec<BuiltBlock>)
    ensures
        views(built@) == built_blocks_of(log@),
{
    let mut sealed: Vec<BuiltBlock> = Vec::new();
    let mut keys: Vec<i128> = Vec::new();
    let mut s: usize = 0;
    while s < log.pre_sealed.len()
        invariant
            s <= log.pre_sealed@.len(),
            views(sealed@) == sealed_blocks(log@).take(s as int),
            keys@.len() == s,
            forall|k: int| 0 <= k < s ==> #[trigger] keys@[k] == log@.pre_sealed[k].block_number,
        decreases log.pre_sealed@.len() - s,
    {
        let seal = &log.pre_sealed[s];
        assert(log@.pre_sealed[s as int] == seal@);
        let found = find_attempt(log, s);
        let (relay_parent_num, relay_parent_hash, relay_parent_offset) = match found {
            Some(i) => {
                let attempt = &log.build_attempts[i];
                assert(log@.build_attempts[i as int] == attempt@);
                (
                    attempt.relay_parent_num,
                    attempt.relay_parent.clone(),
                    attempt.relay_parent_offset,
                )
            },
            None => (0, LogHash::from_truncated("unknown"), None),
        };
        let block = BuiltBlock {
            block_number: seal.block_number,
            block_hash: seal.post_hash.clone(),
            parent_hash: find_parent(log, seal.block_number),
            relay_parent_num,
            relay_parent_hash,
            built_at: seal.timestamp,
            collation_fetch_latency_ms: find_latency(log, &seal.post_hash),
            relay_parent_offset,
        };
        proof {
            assert(block@ =~= built_of(log@, seal@));
            views_push(sealed@, block);
            assert(sealed_blocks(log@).take(s + 1) =~= sealed_blocks(log@).take(s as int).push(
                block@,
            ));
        }
        keys.push(seal.block_number as i128);
        sealed.push(block);
        s = s + 1;
    }
    assert(views(sealed@) =~= sealed_blocks(log@));
    assert(crate::search::ints(keys@) =~= numbers_of(sealed_blocks(log@)));
    let order = stable_order(&keys);
    let mut built: Vec<BuiltBlock> = Vec::new();
    let mut k: usize = 0;
    let ghost all = built_blocks_of(log@);
    while k < order.len()
        invariant
            k <= order@.len(),
            crate::search::positions(order@) == sort_order(numbers_of(sealed_blocks(log@))),
            forall|a: int| 0 <= a < order@.len() ==> #[trigger] order@[a] < sealed@.len(),
            all == built_blocks_of(log@),
            views(sealed@) == sealed_blocks(log@),
            views(built@) == all.take(k as int),
        decreases order@.len() - k,
    {
        let block = sealed[order[k]].clone();
        proof {
            assert(crate::search::positions(order@)[k as int] == order@[k as int]);
            assert(views(sealed@)[order@[k as int] as int] == block@);
            views_push(built@, block);
            assert(all.take(k + 1) =~= all.take(k as int).push(block@));
        }
        built.push(block);
        k = k + 1;
    }
    assert(views(built@) =~= all);
    built
}

} // verus!
