//! Who built which blocks, and whose blocks won, across collators.

use crate::hash::{
    empty_registry, full_hash_key, hash_key, merged, resolve_hash_key, resolved_key, HashRegistry,
    RegistryView,
};
use crate::logs::MultiCollatorLogs;
use crate::model::{views, views_push};
use crate::search::{
    count_where, first_min, first_min_is_least, first_where, first_where_stays, last_where,
};
use crate::slot_boundaries::{build_height, follows, height_of, SEAL_WINDOW_MS};
use crate::time::elapsed;
use crate::types::{
    BuildAttemptView, CollatorLogView, CollatorStats, CollatorStatsView, ParsedLog, ParsedLogView,
    PreSealedBlock, PreSealedBlockView, Ratio,
};
use vstd::prelude::*;

verus! {

// ---- Who built a block, and on what ----
/// What the registries of the first `n` collators know together.
pub open spec fn registry_of(multi: Seq<CollatorLogView>, n: nat) -> RegistryView
    decreases n,
{
    if n == 0 {
        empty_registry()
    } else {
        merged(registry_of(multi, (n - 1) as nat), multi[n - 1].log.hash_registry)
    }
}

/// What the registries of all collators know together.
pub open spec fn whole_registry(multi: Seq<CollatorLogView>) -> RegistryView {
    registry_of(multi, multi.len())
}

/// Whether a collator sealed a block, given by its number and the text of its hash.
pub open spec fn sealed(log: ParsedLogView, number: u32, key: Seq<char>) -> bool {
    first_where(
        log.pre_sealed.len(),
        |j: int|
            log.pre_sealed[j].block_number == number && hash_key(log.pre_sealed[j].post_hash)
                == key,
    ) is Some
}

/// The collator that sealed a block; the last one where several did.
pub open spec fn sealer_of(multi: Seq<CollatorLogView>, number: u32, key: Seq<char>) -> Option<
    int,
> {
    last_where(multi.len(), |c: int| sealed(multi[c].log, number, key))
}

/// How long before a seal a decision to build counts where no height fits.
pub const NEAR_SEAL_MS: i64 = 2000;

/// How long after a decision a block was sealed.
pub open spec fn build_time(ps: PreSealedBlockView, ba: BuildAttemptView) -> int {
    elapsed(ba.timestamp, ps.timestamp)
}

/// The decision to build that a seal came from: the nearest one before it that leads to its height,
/// and else the nearest one before it.
pub open spec fn attempt_for(log: ParsedLogView, ps: PreSealedBlockView) -> Option<int> {
    let n = log.build_attempts.len();
    let time = |i: int| build_time(ps, log.build_attempts[i]);
    match first_min(
        n,
        |i: int|
            follows(ps, log.build_attempts[i], SEAL_WINDOW_MS as int) && height_of(
                log.build_attempts[i],
            ) == ps.block_number,
        time,
    ) {
        Some(i) => Some(i),
        None => first_min(
            n,
            |i: int| follows(ps, log.build_attempts[i], NEAR_SEAL_MS as int),
            time,
        ),
    }
}

/// The relay parent and slot of the last seal of a block number that a decision is found for.
pub open spec fn rp_and_slot(log: ParsedLogView, number: u32) -> Option<(u32, u64)> {
    match last_where(
        log.pre_sealed.len(),
        |j: int|
            log.pre_sealed[j].block_number == number && attempt_for(log, log.pre_sealed[j]) is Some,
    ) {
        Some(j) => {
            let ba = log.build_attempts[attempt_for(log, log.pre_sealed[j])->0];
            Some((ba.relay_parent_num, ba.slot))
        },
        None => None,
    }
}

/// A decision found for a seal is one to build, before it.
pub proof fn attempt_comes_before(log: ParsedLogView, ps: PreSealedBlockView)
    ensures
        attempt_for(log, ps) matches Some(i) ==> 0 <= i < log.build_attempts.len() && follows(
            ps,
            log.build_attempts[i],
            SEAL_WINDOW_MS as int,
        ),
{
    let n = log.build_attempts.len();
    let time = |i: int| build_time(ps, log.build_attempts[i]);
    first_min_is_least(
        n,
        |i: int|
            follows(ps, log.build_attempts[i], SEAL_WINDOW_MS as int) && height_of(
                log.build_attempts[i],
            ) == ps.block_number,
        time,
    );
    first_min_is_least(
        n,
        |i: int| follows(ps, log.build_attempts[i], NEAR_SEAL_MS as int),
        time,
    );
}

/// Puts together what the registries of all collators know; where several know a text, the last
/// one counts.
pub fn merge_registries(multi: &MultiCollatorLogs) -> (registry: HashRegistry)
    requires
        multi.wf(),
    ensures
        registry@ == whole_registry(multi@),
        registry.wf(),
{
    let mut registry = HashRegistry::new();
    let mut c: usize = 0;
    while c < multi.len()
        invariant
            c <= multi@.len(),
            multi.wf(),
            registry.wf(),
            registry@ == registry_of(multi@, c as nat),
        decreases multi@.len() - c,
    {
        registry.absorb(&multi.log(c).hash_registry);
        c = c + 1;
    }
    registry
}

fn has_sealed(log: &ParsedLog, number: u32, key: &String) -> (yes: bool)
    ensures
        yes == sealed(log@, number, key@),
{
    let ghost ok = |j: int|
        log@.pre_sealed[j].block_number == number && hash_key(log@.pre_sealed[j].post_hash) == key@;
    let mut j: usize = 0;
    while j < log.pre_sealed.len()
        invariant
            j <= log.pre_sealed@.len(),
            ok == (|j: int|
                log@.pre_sealed[j].block_number == number && hash_key(log@.pre_sealed[j].post_hash)
                    == key@),
            first_where(j as nat, ok) is None,
        decreases log.pre_sealed@.len() - j,
    {
        assert(log@.pre_sealed[j as int] == log.pre_sealed@[j as int]@);
        if log.pre_sealed[j].block_number == number {
            if full_hash_key(&log.pre_sealed[j].post_hash) == *key {
                proof {
                    first_where_stays(log@.pre_sealed.len(), (j + 1) as nat, ok);
                }
                return true;
            }
        }
        j = j + 1;
    }
    false
}

/// Finds the collator that sealed a block, the last one where several did.
pub fn find_sealer(multi: &MultiCollatorLogs, number: u32, key: &String) -> (sealer: Option<usize>)
    requires
        multi.wf(),
    ensures
        match sealer {
            Some(c) => sealer_of(multi@, number, key@) == Some(c as int) && c < multi@.len(),
            None => sealer_of(multi@, number, key@) is None,
        },
{
    let ghost ok = |c: int| sealed(multi@[c].log, number, key@);
    let mut sealer: Option<usize> = None;
    let mut c: usize = 0;
    while c < multi.len()
        invariant
            c <= multi@.len(),
            multi.wf(),
            ok == (|c: int| sealed(multi@[c].log, number, key@)),
            match sealer {
                Some(b) => last_where(c as nat, ok) == Some(b as int) && b < c,
                None => last_where(c as nat, ok) is None,
            },
        decreases multi@.len() - c,
    {
        if has_sealed(multi.log(c), number, key) {
            sealer = Some(c);
        }
        c = c + 1;
    }
    sealer
}

/// Finds the decision to build that a seal came from.
pub fn find_attempt_for(log: &ParsedLog, seal: &PreSealedBlock) -> (at: Option<usize>)
    ensures
        match at {
            Some(i) => attempt_for(log@, seal@) == Some(i as int) && i < log.build_attempts@.len(),
            None => attempt_for(log@, seal@) is None,
        },
{
    let ghost ps = seal@;
    let ghost time = |i: int| build_time(ps, log@.build_attempts[i]);
    let ghost fits = |i: int|
        follows(ps, log@.build_attempts[i], SEAL_WINDOW_MS as int) && height_of(
            log@.build_attempts[i],
        ) == ps.block_number;
    let ghost near = |i: int| follows(ps, log@.build_attempts[i], NEAR_SEAL_MS as int);
    let mut by_height: Option<(usize, i64)> = None;
    let mut by_time: Option<(usize, i64)> = None;
    let mut i: usize = 0;
    while i < log.build_attempts.len()
        invariant
            i <= log.build_attempts@.len(),
            ps == seal@,
            time == (|i: int| build_time(ps, log@.build_attempts[i])),
            fits == (|i: int|
                follows(ps, log@.build_attempts[i], SEAL_WINDOW_MS as int) && height_of(
                    log@.build_attempts[i],
                ) == ps.block_number),
            near == (|i: int| follows(ps, log@.build_attempts[i], NEAR_SEAL_MS as int)),
            match by_height {
                Some((b, d)) => first_min(i as nat, fits, time) == Some(b as int) && b < i && d
                    == time(b as int),
                None => first_min(i as nat, fits, time) is None,
            },
            match by_time {
                Some((b, d)) => first_min(i as nat, near, time) == Some(b as int) && b < i && d
                    == time(b as int),
                None => first_min(i as nat, near, time) is None,
            },
        decreases log.build_attempts@.len() - i,
    {
        let attempt = &log.build_attempts[i];
        assert(log@.build_attempts[i as int] == attempt@);
        if attempt.building {
            let dt = seal.timestamp.since(&attempt.timestamp);
            if dt >= 0 && dt < SEAL_WINDOW_MS && build_height(attempt) == seal.block_number as u64 {
                by_height = match by_height {
                    Some((b, d)) => if dt < d {
                        Some((i, dt))
                    } else {
                        Some((b, d))
                    },
                    None => Some((i, dt)),
                };
            }
            if dt >= 0 && dt < NEAR_SEAL_MS {
                by_time = match by_time {
                    Some((b, d)) => if dt < d {
                        Some((i, dt))
                    } else {
                        Some((b, d))
                    },
                    None => Some((i, dt)),
                };
            }
        }
        i = i + 1;
    }
    match by_height {
        Some((b, _)) => Some(b),
        None => match by_time {
            Some((b, _)) => Some(b),
            None => None,
        },
    }
}

/// Finds the relay parent and slot on which a block number was built.
pub fn find_rp_and_slot(log: &ParsedLog, number: u32) -> (found: Option<(u32, u64)>)
    ensures
        found == rp_and_slot(log@, number),
{
    let ghost ok = |j: int|
        log@.pre_sealed[j].block_number == number && attempt_for(log@, log@.pre_sealed[j]) is Some;
    let mut found: Option<(u32, u64)> = None;
    let mut j: usize = 0;
    while j < log.pre_sealed.len()
        invariant
            j <= log.pre_sealed@.len(),
            ok == (|j: int|
                log@.pre_sealed[j].block_number == number && attempt_for(
                    log@,
                    log@.pre_sealed[j],
                ) is Some),
            match last_where(j as nat, ok) {
                Some(b) => 0 <= b < j && attempt_for(log@, log@.pre_sealed[b]) is Some && found
                    == Some(
                    (
                        log@.build_attempts[attempt_for(
                            log@,
                            log@.pre_sealed[b],
                        )->0].relay_parent_num,
                        log@.build_attempts[attempt_for(log@, log@.pre_sealed[b])->0].slot,
                    ),
                ),
                None => found is None,
            },
        decreases log.pre_sealed@.len() - j,
    {
        assert(log@.pre_sealed[j as int] == log.pre_sealed@[j as int]@);
        if log.pre_sealed[j].block_number == number {
            if let Some(i) = find_attempt_for(log, &log.pre_sealed[j]) {
                assert(log@.build_attempts[i as int] == log.build_attempts@[i as int]@);
                found = Some((log.build_attempts[i].relay_parent_num, log.build_attempts[i].slot));
            }
        }
        j = j + 1;
    }
    found
}

// ---- Authorship ----
/// The last best import of a block number.
pub open spec fn final_best(log: ParsedLogView, number: u32) -> Option<int> {
    last_where(
        log.para_imports.len(),
        |i: int| log.para_imports[i].is_best && log.para_imports[i].block_number == number,
    )
}

/// The text of the hash of import `i`.
pub open spec fn import_key(log: ParsedLogView, registry: RegistryView, i: int) -> Seq<char> {
    resolved_key(log.para_imports[i].block_hash, registry)
}

/// Whether import `i` of the first collator is the final best at its height and was sealed by
/// collator `c`.
pub open spec fn won_by(multi: Seq<CollatorLogView>, c: int, i: int) -> bool {
    let log = multi[0].log;
    let number = log.para_imports[i].block_number;
    &&& final_best(log, number) == Some(i)
    &&& sealer_of(multi, number, import_key(log, whole_registry(multi), i)) == Some(c)
}

/// Whether seal `j` of collator `c` is not the final best that the first collator saw at its
/// height.
pub open spec fn lost_by(multi: Seq<CollatorLogView>, c: int, j: int) -> bool {
    let log = multi[0].log;
    let ps = multi[c].log.pre_sealed[j];
    match final_best(log, ps.block_number) {
        Some(i) => hash_key(ps.post_hash) != import_key(log, whole_registry(multi), i),
        None => false,
    }
}

/// What collator `c` built, won and lost.
pub open spec fn stats_of(multi: Seq<CollatorLogView>, c: int) -> CollatorStatsView {
    let built = multi[c].log.pre_sealed.len();
    let won = count_where(multi[0].log.para_imports.len(), |i: int| won_by(multi, c, i));
    CollatorStatsView {
        name: multi[c].name,
        blocks_built: built as usize,
        blocks_won: won as usize,
        blocks_lost: count_where(built, |j: int| lost_by(multi, c, j)) as usize,
        win_rate: if built > 0 {
            Ratio { num: won as i128, den: built as u128 }
        } else {
            Ratio { num: 0, den: 1 }
        },
    }
}

/// No height is won twice: a final best has one sealer, and a height one final best.
pub proof fn heights_are_won_once(multi: Seq<CollatorLogView>, c: int, d: int, i: int, k: int)
    requires
        0 <= i < multi[0].log.para_imports.len(),
        0 <= k < multi[0].log.para_imports.len(),
        multi[0].log.para_imports[i].block_number == multi[0].log.para_imports[k].block_number,
        won_by(multi, c, i),
        won_by(multi, d, k),
    ensures
        c == d,
        i == k,
{
}

fn find_final_best(log: &ParsedLog, number: u32) -> (at: Option<usize>)
    ensures
        match at {
            Some(i) => final_best(log@, number) == Some(i as int) && i < log.para_imports@.len(),
            None => final_best(log@, number) is None,
        },
{
    let ghost ok = |i: int|
        log@.para_imports[i].is_best && log@.para_imports[i].block_number == number;
    let mut at: Option<usize> = None;
    let mut i: usize = 0;
    while i < log.para_imports.len()
        invariant
            i <= log.para_imports@.len(),
            ok == (|i: int|
                log@.para_imports[i].is_best && log@.para_imports[i].block_number == number),
            match at {
                Some(b) => last_where(i as nat, ok) == Some(b as int) && b < i,
                None => last_where(i as nat, ok) is None,
            },
        decreases log.para_imports@.len() - i,
    {
        assert(log@.para_imports[i as int] == log.para_imports@[i as int]@);
        if log.para_imports[i].is_best && log.para_imports[i].block_number == number {
            at = Some(i);
        }
        i = i + 1;
    }
    at
}

fn count_won(multi: &MultiCollatorLogs, registry: &HashRegistry, c: usize) -> (n: usize)
    requires
        multi.wf(),
        c < multi@.len(),
        registry@ == whole_registry(multi@),
    ensures
        n == count_where(
            multi@[0].log.para_imports.len(),
            |i: int| won_by(multi@, c as int, i),
        ),
{
    let log = multi.log(0);
    let ghost ok = |i: int| won_by(multi@, c as int, i);
    let mut n: usize = 0;
    let mut i: usize = 0;
    while i < log.para_imports.len()
        invariant
            i <= log.para_imports@.len(),
            multi.wf(),
            c < multi@.len(),
            log@ == multi@[0].log,
            registry@ == whole_registry(multi@),
            ok == (|i: int| won_by(multi@, c as int, i)),
            n == count_where(i as nat, ok),
            n <= i,
        decreases log.para_imports@.len() - i,
    {
        let import = &log.para_imports[i];
        assert(log@.para_imports[i as int] == import@);
        if find_final_best(log, import.block_number) == Some(i) {
            let key = resolve_hash_key(&import.block_hash, registry);
            if find_sealer(multi, import.block_number, &key) == Some(c) {
                n = n + 1;
            }
        }
        i = i + 1;
    }
    n
}

fn count_lost(multi: &MultiCollatorLogs, registry: &HashRegistry, c: usize) -> (n: usize)
    requires
        multi.wf(),
        c < multi@.len(),
        registry@ == whole_registry(multi@),
    ensures
        n == count_where(
            multi@[c as int].log.pre_sealed.len(),
            |j: int| lost_by(multi@, c as int, j),
        ),
{
    let reference = multi.log(0);
    let log = multi.log(c);
    let ghost ok = |j: int| lost_by(multi@, c as int, j);
    let mut n: usize = 0;
    let mut j: usize = 0;
    while j < log.pre_sealed.len()
        invariant
            j <= log.pre_sealed@.len(),
            c < multi@.len(),
            reference@ == multi@[0].log,
            log@ == multi@[c as int].log,
            registry@ == whole_registry(multi@),
            ok == (|j: int| lost_by(multi@, c as int, j)),
            n == count_where(j as nat, ok),
            n <= j,
        decreases log.pre_sealed@.len() - j,
    {
        let seal = &log.pre_sealed[j];
        assert(log@.pre_sealed[j as int] == seal@);
        if let Some(i) = find_final_best(reference, seal.block_number) {
            assert(reference@.para_imports[i as int] == reference.para_imports@[i as int]@);
            let best = resolve_hash_key(&reference.para_imports[i].block_hash, registry);
            if full_hash_key(&seal.post_hash) != best {
                n = n + 1;
            }
        }
        j = j + 1;
    }
    n
}

/// What each collator built, won and lost.
pub open spec fn all_stats(multi: Seq<CollatorLogView>) -> Seq<CollatorStatsView> {
    Seq::new(multi.len(), |c: int| stats_of(multi, c))
}

/// Counts, for each collator, the blocks that it built, those that became the final best, and those
/// that were replaced.
pub fn collator_stats(multi: &MultiCollatorLogs, registry: &HashRegistry) -> (stats: Vec<
    CollatorStats,
>)
    requires
        multi.wf(),
        registry@ == whole_registry(multi@),
    ensures
        views(stats@) == all_stats(multi@),
{
    let mut stats: Vec<CollatorStats> = Vec::new();
    assert(views(stats@) =~= all_stats(multi@).take(0));
    let mut c: usize = 0;
    while c < multi.len()
        invariant
            c <= multi@.len(),
            multi.wf(),
            registry@ == whole_registry(multi@),
            views(stats@) == all_stats(multi@).take(c as int),
        decreases multi@.len() - c,
    {
        let built = multi.log(c).pre_sealed.len();
        let won = count_won(multi, registry, c);
        let stat = CollatorStats {
            name: multi.name(c).clone(),
            blocks_built: built,
            blocks_won: won,
            blocks_lost: count_lost(multi, registry, c),
            win_rate: if built > 0 {
                Ratio { num: won as i128, den: built as u128 }
            } else {
                Ratio { num: 0, den: 1 }
            },
        };
        proof {
            assert(multi@[c as int].log.pre_sealed.len() == built);
            assert(stat@ =~= stats_of(multi@, c as int));
            views_push(stats@, stat);
            assert(all_stats(multi@).take(c + 1) =~= all_stats(multi@).take(c as int).push(stat@));
        }
        stats.push(stat);
        c = c + 1;
    }
    assert(all_stats(multi@).take(c as int) =~= all_stats(multi@));
    stats
}

} // verus!
