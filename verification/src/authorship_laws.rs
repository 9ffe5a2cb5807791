//! What holds of who built and won which blocks, said of the seals, decisions and imports of the
//! collators themselves.

use crate::authorship::{
    all_stats, attempt_for, build_time, final_best, import_key, lost_by, registry_of, rp_and_slot,
    sealed, sealer_of, whole_registry, won_by,
};
use crate::hash::{hash_key, resolved_key};
use crate::search::{
    count_where, count_where_bound, first_min, first_min_is_least, first_where_is_first,
    last_where_is_last,
};
use crate::slot_boundaries::{follows, height_of};
use crate::time::elapsed;
use crate::types::{
    BuildAttemptView, CollatorLogView, ParsedLogView, PreSealedBlockView, Ratio,
};
use vstd::prelude::*;

verus! {

// ---- The decision that a seal came from ----
/// Whether a decision is one to build, at most `within` milliseconds (and less) before a seal.
pub open spec fn precedes_seal(
    ba: BuildAttemptView,
    ps: PreSealedBlockView,
    within: int,
) -> bool {
    ba.building && 0 <= elapsed(ba.timestamp, ps.timestamp) < within
}

/// Whether the block of a decision is at the height of a seal: one more than the included block and
/// the blocks not yet included.
pub open spec fn at_height(ba: BuildAttemptView, ps: PreSealedBlockView) -> bool {
    ba.included_num + ba.unincluded_segment_len + 1 == ps.block_number
}

/// Whether decision `i` precedes a seal by less than five seconds and is at its height.
pub open spec fn builds_height(log: ParsedLogView, ps: PreSealedBlockView, i: int) -> bool {
    precedes_seal(log.build_attempts[i], ps, 5000) && at_height(log.build_attempts[i], ps)
}

/// Whether decision `i` is a candidate for a seal: one at its height, or one that precedes it by
/// less than two seconds where no decision is at its height.
pub open spec fn may_be_origin(log: ParsedLogView, ps: PreSealedBlockView, i: int) -> bool {
    if exists|k: int| 0 <= k < log.build_attempts.len() && #[trigger] builds_height(log, ps, k) {
        builds_height(log, ps, i)
    } else {
        precedes_seal(log.build_attempts[i], ps, 2000)
    }
}

/// Whether decision `i` is the one that a seal came from: the latest candidate, the first of equally
/// late ones.
pub open spec fn is_origin(log: ParsedLogView, ps: PreSealedBlockView, i: int) -> bool {
    &&& 0 <= i < log.build_attempts.len()
    &&& may_be_origin(log, ps, i)
    &&& forall|k: int|
        0 <= k < log.build_attempts.len() && #[trigger] may_be_origin(log, ps, k) ==> {
            let mine = elapsed(log.build_attempts[i].timestamp, ps.timestamp);
            let other = elapsed(log.build_attempts[k].timestamp, ps.timestamp);
            mine < other || (mine == other && i <= k)
        }
}

/// The decision found for a seal is the one that it came from; where none is found, there is none.
pub proof fn origin_is_found(log: ParsedLogView, ps: PreSealedBlockView)
    ensures
        match attempt_for(log, ps) {
            Some(i) => is_origin(log, ps, i),
            None => forall|i: int|
                0 <= i < log.build_attempts.len() ==> !(#[trigger] may_be_origin(log, ps, i)),
        },
{
    let n = log.build_attempts.len();
    let time = |i: int| build_time(ps, log.build_attempts[i]);
    let fits = |i: int|
        follows(ps, log.build_attempts[i], crate::slot_boundaries::SEAL_WINDOW_MS as int)
            && height_of(log.build_attempts[i]) == ps.block_number;
    let near = |i: int|
        follows(ps, log.build_attempts[i], crate::authorship::NEAR_SEAL_MS as int);
    first_min_is_least(n, fits, time);
    first_min_is_least(n, near, time);
    assert forall|i: int| 0 <= i < n implies #[trigger] fits(i) == builds_height(log, ps, i) by {}
    assert forall|i: int| 0 <= i < n implies #[trigger] near(i) == precedes_seal(
        log.build_attempts[i],
        ps,
        2000,
    ) by {}
    let some = exists|k: int| 0 <= k < n && #[trigger] builds_height(log, ps, k);
    match first_min(n, fits, time) {
        Some(b) => {
            assert(builds_height(log, ps, b));
            assert(some);
            assert(attempt_for(log, ps) == Some(b));
            assert forall|k: int| 0 <= k < n && #[trigger] may_be_origin(log, ps, k) implies {
                let mine = elapsed(log.build_attempts[b].timestamp, ps.timestamp);
                let other = elapsed(log.build_attempts[k].timestamp, ps.timestamp);
                mine < other || (mine == other && b <= k)
            } by {
                assert(fits(k));
                assert(time(b) <= time(k));
            }
            assert(may_be_origin(log, ps, b));
        },
        None => {
            assert(!some) by {
                if some {
                    let k = choose|k: int| 0 <= k < n && #[trigger] builds_height(log, ps, k);
                    assert(fits(k));
                }
            }
            match first_min(n, near, time) {
                Some(b) => {
                    assert(near(b));
                    assert forall|k: int|
                        0 <= k < n && #[trigger] may_be_origin(log, ps, k) implies {
                        let mine = elapsed(log.build_attempts[b].timestamp, ps.timestamp);
                        let other = elapsed(log.build_attempts[k].timestamp, ps.timestamp);
                        mine < other || (mine == other && b <= k)
                    } by {
                        assert(near(k));
                        assert(time(b) <= time(k));
                    }
                    assert(may_be_origin(log, ps, b));
                },
                None => {
                    assert forall|i: int| 0 <= i < n implies !(#[trigger] may_be_origin(
                        log,
                        ps,
                        i,
                    )) by {
                        assert(!near(i));
                    }
                },
            }
        },
    }
}

/// A seal came from one decision at most.
pub proof fn origin_is_unique(log: ParsedLogView, ps: PreSealedBlockView, i: int, k: int)
    requires
        is_origin(log, ps, i),
        is_origin(log, ps, k),
    ensures
        i == k,
{
    assert(may_be_origin(log, ps, i) && may_be_origin(log, ps, k));
}

/// Whether seal `j` is of a block number and came from decision `i`.
pub open spec fn sealed_from(log: ParsedLogView, number: u32, j: int, i: int) -> bool {
    &&& 0 <= j < log.pre_sealed.len()
    &&& log.pre_sealed[j].block_number == number
    &&& is_origin(log, log.pre_sealed[j], i)
}

/// The relay parent and slot told for a block number are those of one and the same decision: the
/// one that the last seal of the number that has one came from.
pub proof fn relay_parent_and_slot_are_of_origin(log: ParsedLogView, number: u32)
    ensures
        match rp_and_slot(log, number) {
            Some((rp, slot)) => exists|j: int, i: int| #[trigger]
                sealed_from(log, number, j, i) && rp == log.build_attempts[i].relay_parent_num
                    && slot == log.build_attempts[i].slot && forall|k: int, l: int| #[trigger]
                    sealed_from(log, number, k, l) ==> k <= j,
            None => forall|j: int, i: int| !(#[trigger] sealed_from(log, number, j, i)),
        },
{
    let ok = |j: int|
        log.pre_sealed[j].block_number == number && attempt_for(log, log.pre_sealed[j]) is Some;
    let n = log.pre_sealed.len();
    last_where_is_last(n, ok);
    assert forall|k: int, l: int| #[trigger] sealed_from(log, number, k, l) implies ok(k) by {
        origin_is_found(log, log.pre_sealed[k]);
        assert(may_be_origin(log, log.pre_sealed[k], l));
    }
    match crate::search::last_where(n, ok) {
        Some(j) => {
            assert(ok(j));
            let i = attempt_for(log, log.pre_sealed[j])->0;
            origin_is_found(log, log.pre_sealed[j]);
            assert(sealed_from(log, number, j, i));
            assert forall|k: int, l: int| #[trigger] sealed_from(log, number, k, l) implies k
                <= j by {
                assert(ok(k));
            }
        },
        None => {
            assert forall|j: int, i: int| !(#[trigger] sealed_from(log, number, j, i)) by {
                if sealed_from(log, number, j, i) {
                    assert(ok(j));
                }
            }
        },
    }
}

// ---- The collator that sealed a block ----
/// Whether seal `j` of a log is of a block, given by its number and the text of its hash.
pub open spec fn is_seal_of(log: ParsedLogView, number: u32, key: Seq<char>, j: int) -> bool {
    &&& 0 <= j < log.pre_sealed.len()
    &&& log.pre_sealed[j].block_number == number
    &&& hash_key(log.pre_sealed[j].post_hash) == key
}

/// Whether a collator has a seal of a block.
pub open spec fn has_seal_of(
    multi: Seq<CollatorLogView>,
    c: int,
    number: u32,
    key: Seq<char>,
) -> bool {
    0 <= c < multi.len() && exists|j: int| #[trigger] is_seal_of(multi[c].log, number, key, j)
}

/// Whether a collator is the one that a block is attributed to: the last one, by name, that has a
/// seal of it.
pub open spec fn is_sealer(
    multi: Seq<CollatorLogView>,
    c: int,
    number: u32,
    key: Seq<char>,
) -> bool {
    &&& has_seal_of(multi, c, number, key)
    &&& forall|d: int| c < d ==> !(#[trigger] has_seal_of(multi, d, number, key))
}

proof fn seal_means(log: ParsedLogView, number: u32, key: Seq<char>)
    ensures
        sealed(log, number, key) == exists|j: int| #[trigger] is_seal_of(log, number, key, j),
{
    let ok = |j: int|
        log.pre_sealed[j].block_number == number && hash_key(log.pre_sealed[j].post_hash) == key;
    first_where_is_first(log.pre_sealed.len(), ok);
    if sealed(log, number, key) {
        let j = crate::search::first_where(log.pre_sealed.len(), ok)->0;
        assert(ok(j));
        assert(is_seal_of(log, number, key, j));
    }
    if exists|j: int| #[trigger] is_seal_of(log, number, key, j) {
        let j = choose|j: int| #[trigger] is_seal_of(log, number, key, j);
        assert(ok(j));
    }
}

/// A block is attributed to a collator that has a seal of it, and to none exactly where none has.
pub proof fn blocks_are_attributed(multi: Seq<CollatorLogView>, number: u32, key: Seq<char>)
    ensures
        match sealer_of(multi, number, key) {
            Some(c) => is_sealer(multi, c, number, key),
            None => forall|c: int| !(#[trigger] has_seal_of(multi, c, number, key)),
        },
        forall|c: int| #[trigger]
            is_sealer(multi, c, number, key) <==> sealer_of(multi, number, key) == Some(c),
{
    let ok = |c: int| sealed(multi[c].log, number, key);
    last_where_is_last(multi.len(), ok);
    assert forall|c: int| #[trigger]
        has_seal_of(multi, c, number, key) <==> 0 <= c < multi.len() && ok(c) by {
        if 0 <= c < multi.len() {
            seal_means(multi[c].log, number, key);
        }
    }
    match sealer_of(multi, number, key) {
        Some(c) => {
            assert(ok(c));
            assert(has_seal_of(multi, c, number, key));
            assert forall|d: int| #[trigger] is_sealer(multi, d, number, key) implies d == c by {
                assert(has_seal_of(multi, d, number, key));
            }
        },
        None => {},
    }
}

// ---- What the collators know together ----
/// Whether the registry of collator `c` is the last one to know a text, in one of the two maps.
pub open spec fn knows_last(
    maps: Seq<Map<Seq<char>, Seq<u8>>>,
    n: nat,
    text: Seq<char>,
    c: int,
) -> bool {
    &&& 0 <= c < n
    &&& maps[c].contains_key(text)
    &&& forall|d: int| c < d < n ==> !(#[trigger] maps[d]).contains_key(text)
}

/// Whether `whole` knows what the first `n` maps know, with the last one to count.
pub open spec fn joins(
    whole: Map<Seq<char>, Seq<u8>>,
    maps: Seq<Map<Seq<char>, Seq<u8>>>,
    n: nat,
) -> bool {
    &&& forall|text: Seq<char>, c: int| #[trigger]
        knows_last(maps, n, text, c) ==> whole.contains_key(text) && whole[text] == maps[c][text]
    &&& forall|text: Seq<char>| #[trigger]
        whole.contains_key(text) ==> exists|c: int| #[trigger] knows_last(maps, n, text, c)
}

/// What each registry knows by whole texts.
pub open spec fn whole_maps(multi: Seq<CollatorLogView>) -> Seq<Map<Seq<char>, Seq<u8>>> {
    Seq::new(multi.len(), |c: int| multi[c].log.hash_registry.by_full)
}

/// What each registry knows by truncated texts.
pub open spec fn truncated_maps(multi: Seq<CollatorLogView>) -> Seq<Map<Seq<char>, Seq<u8>>> {
    Seq::new(multi.len(), |c: int| multi[c].log.hash_registry.by_truncated)
}

proof fn map_is_joined(
    before: Map<Seq<char>, Seq<u8>>,
    maps: Seq<Map<Seq<char>, Seq<u8>>>,
    n: nat,
)
    requires
        0 < n <= maps.len(),
        joins(before, maps, (n - 1) as nat),
    ensures
        joins(before.union_prefer_right(maps[n - 1]), maps, n),
{
    let m = (n - 1) as nat;
    let whole = before.union_prefer_right(maps[n - 1]);
    assert forall|text: Seq<char>, c: int| #[trigger] knows_last(maps, n, text, c) implies
        whole.contains_key(text) && whole[text] == maps[c][text] by {
        if c < n - 1 {
            assert(knows_last(maps, m, text, c)) by {
                assert forall|d: int| c < d < m implies !(#[trigger] maps[d]).contains_key(
                    text,
                ) by {}
            }
            assert(!maps[n - 1].contains_key(text));
        }
    }
    assert forall|text: Seq<char>| #[trigger] whole.contains_key(text) implies exists|c: int|
        #[trigger] knows_last(maps, n, text, c) by {
        if maps[n - 1].contains_key(text) {
            assert(knows_last(maps, n, text, n - 1));
        } else {
            assert(before.contains_key(text));
            let c = choose|c: int| #[trigger] knows_last(maps, m, text, c);
            assert(knows_last(maps, n, text, c)) by {
                assert forall|d: int| c < d < n implies !(#[trigger] maps[d]).contains_key(
                    text,
                ) by {
                    if d < m {
                        assert(!maps[d].contains_key(text));
                    }
                }
            }
        }
    }
}

proof fn registries_join(multi: Seq<CollatorLogView>, n: nat)
    requires
        n <= multi.len(),
    ensures
        joins(registry_of(multi, n).by_full, whole_maps(multi), n),
        joins(registry_of(multi, n).by_truncated, truncated_maps(multi), n),
    decreases n,
{
    if n > 0 {
        registries_join(multi, (n - 1) as nat);
        let before = registry_of(multi, (n - 1) as nat);
        map_is_joined(before.by_full, whole_maps(multi), n);
        map_is_joined(before.by_truncated, truncated_maps(multi), n);
    }
}

/// The collators together know a text exactly where one of them does, and then what the last of them
/// knows.
pub proof fn registries_are_joined(multi: Seq<CollatorLogView>)
    ensures
        joins(whole_registry(multi).by_full, whole_maps(multi), multi.len()),
        joins(whole_registry(multi).by_truncated, truncated_maps(multi), multi.len()),
{
    registries_join(multi, multi.len());
}

// ---- Wins and losses ----
/// Whether import `i` is best, and no later import of its number is.
pub open spec fn stays_best(log: ParsedLogView, i: int) -> bool {
    &&& 0 <= i < log.para_imports.len()
    &&& log.para_imports[i].is_best
    &&& forall|k: int|
        i < k < log.para_imports.len() && (#[trigger] log.para_imports[k]).block_number
            == log.para_imports[i].block_number ==> !log.para_imports[k].is_best
}

/// The text of the hash of import `i` of the first collator, with what all collators know.
pub open spec fn best_key(multi: Seq<CollatorLogView>, i: int) -> Seq<char> {
    resolved_key(multi[0].log.para_imports[i].block_hash, whole_registry(multi))
}

/// Whether a collator is credited with a win for import `i` of the first collator.
pub open spec fn wins(multi: Seq<CollatorLogView>, c: int, i: int) -> bool {
    &&& stays_best(multi[0].log, i)
    &&& is_sealer(multi, c, multi[0].log.para_imports[i].block_number, best_key(multi, i))
}

/// Whether seal `j` of a collator is of another block than the one that stays best at its height.
pub open spec fn loses(multi: Seq<CollatorLogView>, c: int, j: int) -> bool {
    exists|i: int| #[trigger]
        stays_best(multi[0].log, i) && multi[0].log.para_imports[i].block_number
            == multi[c].log.pre_sealed[j].block_number && hash_key(
            multi[c].log.pre_sealed[j].post_hash,
        ) != best_key(multi, i)
}

proof fn final_best_means(log: ParsedLogView, number: u32)
    ensures
        forall|i: int| #[trigger]
            stays_best(log, i) && log.para_imports[i].block_number == number <==> final_best(
                log,
                number,
            ) == Some(i),
{
    let ok = |i: int| log.para_imports[i].is_best && log.para_imports[i].block_number == number;
    let n = log.para_imports.len();
    last_where_is_last(n, ok);
    assert forall|i: int| #[trigger]
        stays_best(log, i) && log.para_imports[i].block_number == number <==> final_best(log, number)
            == Some(i) by {
        if stays_best(log, i) && log.para_imports[i].block_number == number {
            assert(ok(i));
            let b = final_best(log, number)->0;
            assert(ok(b));
            assert(log.para_imports[b].block_number == number);
        }
        if final_best(log, number) == Some(i) {
            assert(ok(i));
            assert forall|k: int|
                i < k < n && (#[trigger] log.para_imports[k]).block_number
                    == log.para_imports[i].block_number implies !log.para_imports[k].is_best by {
                assert(!ok(k));
            }
        }
    }
}

proof fn wins_mean(multi: Seq<CollatorLogView>, c: int, n: nat)
    requires
        n <= multi[0].log.para_imports.len(),
    ensures
        count_where(n, |i: int| won_by(multi, c, i)) == count_where(n, |i: int| wins(multi, c, i)),
    decreases n,
{
    if n > 0 {
        wins_mean(multi, c, (n - 1) as nat);
        let i = n - 1;
        let log = multi[0].log;
        let number = log.para_imports[i].block_number;
        final_best_means(log, number);
        assert(stays_best(log, i) <==> final_best(log, number) == Some(i));
        assert(import_key(log, whole_registry(multi), i) == best_key(multi, i));
        blocks_are_attributed(multi, number, best_key(multi, i));
        assert(won_by(multi, c, i) == wins(multi, c, i));
    }
}

proof fn losses_mean(multi: Seq<CollatorLogView>, c: int, n: nat)
    requires
        n <= multi[c].log.pre_sealed.len(),
    ensures
        count_where(n, |j: int| lost_by(multi, c, j)) == count_where(
            n,
            |j: int| loses(multi, c, j),
        ),
    decreases n,
{
    if n > 0 {
        losses_mean(multi, c, (n - 1) as nat);
        let j = n - 1;
        let log = multi[0].log;
        let number = multi[c].log.pre_sealed[j].block_number;
        final_best_means(log, number);
        if lost_by(multi, c, j) {
            let i = final_best(log, number)->0;
            assert(stays_best(log, i));
            assert(loses(multi, c, j));
        }
        if loses(multi, c, j) {
            let i = choose|i: int| #[trigger]
                stays_best(multi[0].log, i) && multi[0].log.para_imports[i].block_number
                    == multi[c].log.pre_sealed[j].block_number && hash_key(
                    multi[c].log.pre_sealed[j].post_hash,
                ) != best_key(multi, i);
            assert(final_best(log, number) == Some(i));
        }
    }
}

/// For each collator: as many blocks built as it has seals; as many won as there are imports of the
/// first collator that stay best and are attributed to it; as many lost as it has seals at heights
/// where another block stays best. The win rate is what was won of what was built.
pub proof fn wins_and_losses_are_counted(multi: Seq<CollatorLogView>, c: int)
    requires
        0 <= c < multi.len(),
        multi[c].log.pre_sealed.len() <= usize::MAX,
        multi[0].log.para_imports.len() <= usize::MAX,
    ensures
        all_stats(multi).len() == multi.len(),
        ({
            let s = all_stats(multi)[c];
            &&& s.name == multi[c].name
            &&& s.blocks_built == multi[c].log.pre_sealed.len()
            &&& s.blocks_won == count_where(
                multi[0].log.para_imports.len(),
                |i: int| wins(multi, c, i),
            )
            &&& s.blocks_lost == count_where(
                multi[c].log.pre_sealed.len(),
                |j: int| loses(multi, c, j),
            )
            &&& s.blocks_built > 0 ==> s.win_rate == (Ratio {
                num: s.blocks_won as i128,
                den: s.blocks_built as u128,
            })
            &&& s.blocks_built == 0 ==> s.win_rate == (Ratio { num: 0, den: 1 })
        }),
{
    wins_mean(multi, c, multi[0].log.para_imports.len());
    losses_mean(multi, c, multi[c].log.pre_sealed.len());
    count_where_bound(multi[0].log.para_imports.len(), |i: int| won_by(multi, c, i));
    count_where_bound(multi[c].log.pre_sealed.len(), |j: int| lost_by(multi, c, j));
}

/// Of an import that stays best, the collator that its block is attributed to is credited with a
/// win, and no other collator; every seal at that height with another hash is lost, and none with
/// that hash.
pub proof fn last_best_import_decides(multi: Seq<CollatorLogView>, i: int, c: int, j: int)
    requires
        stays_best(multi[0].log, i),
        0 <= c < multi.len(),
        0 <= j < multi[c].log.pre_sealed.len(),
        multi[c].log.pre_sealed[j].block_number == multi[0].log.para_imports[i].block_number,
    ensures
        won_by(multi, c, i) <==> is_sealer(
            multi,
            c,
            multi[0].log.para_imports[i].block_number,
            best_key(multi, i),
        ),
        lost_by(multi, c, j) <==> hash_key(multi[c].log.pre_sealed[j].post_hash) != best_key(
            multi,
            i,
        ),
{
    let log = multi[0].log;
    let number = log.para_imports[i].block_number;
    final_best_means(log, number);
    blocks_are_attributed(multi, number, best_key(multi, i));
    assert(import_key(log, whole_registry(multi), i) == best_key(multi, i));
}

} // verus!
