//! What holds of blocks that several collators built on one relay parent, said of their seals and
//! decisions themselves.

use crate::authorship::attempt_for;
use crate::authorship_laws::{is_origin, origin_is_found, origin_is_unique, sealed_from};
use crate::duplicates::{
    duplicates_among, duplicates_of, pair_key, producer_of, producers_among, producers_of, seal_at,
    seal_key, seals_among, with_seals,
};
use crate::search::{first_where_is_first, strictly_ascending, with_value_adds};
use crate::selection::{picked, picked_selects, selects};
use crate::types::{
    CollatorLogView, DuplicateBlockOnSameRPView, DuplicateProducerView, ParsedLogView,
};
use vstd::prelude::*;

verus! {

/// Whether seal `j` of a log is of a block number and came from decision `i`, on a relay parent.
pub open spec fn sealed_on_from(
    log: ParsedLogView,
    number: u32,
    rp: u32,
    j: int,
    i: int,
) -> bool {
    sealed_from(log, number, j, i) && log.build_attempts[i].relay_parent_num == rp
}

/// Whether a collator built a block number on a relay parent.
pub open spec fn produces(log: ParsedLogView, number: u32, rp: u32) -> bool {
    exists|j: int, i: int| #[trigger] sealed_on_from(log, number, rp, j, i)
}

/// Whether a producer is told from the first seal of a block number on a relay parent at a
/// collator, with the slot of the decision that this very seal came from.
pub open spec fn tells_of_producer(
    c: CollatorLogView,
    number: u32,
    rp: u32,
    p: DuplicateProducerView,
) -> bool {
    &&& p.collator == c.name
    &&& exists|j: int, i: int| #[trigger]
        sealed_on_from(c.log, number, rp, j, i) && p.slot == c.log.build_attempts[i].slot
            && p.timestamp == c.log.pre_sealed[j].timestamp && p.block_hash
            == c.log.pre_sealed[j].post_hash && forall|k: int, l: int| #[trigger]
            sealed_on_from(c.log, number, rp, k, l) ==> j <= k
}

/// Whether a duplicate is told of all collators that built its block number on its relay parent, at
/// least two, in their order.
pub open spec fn tells_of_producers(
    multi: Seq<CollatorLogView>,
    d: DuplicateBlockOnSameRPView,
) -> bool {
    let ok = |c: int| produces(multi[c].log, d.block_number, d.relay_parent_num);
    exists|at: Seq<int>| #[trigger]
        selects(at, multi.len(), ok) && at.len() == d.producers.len() && at.len() >= 2 && forall|
            k: int,
        |
            0 <= k < at.len() ==> tells_of_producer(
                multi[at[k]],
                d.block_number,
                d.relay_parent_num,
                #[trigger] d.producers[k],
            )
}

proof fn pair_splits(number: u32, rp: u32)
    ensures
        pair_key(number, rp) as int == number * 0x1_0000_0000 + rp,
        pair_key(number, rp) / 0x1_0000_0000 == number,
        pair_key(number, rp) % 0x1_0000_0000 == rp,
{
    assert(number * 0x1_0000_0000 + rp <= u64::MAX);
}

proof fn key_is_pair(key: u64)
    ensures
        pair_key((key / 0x1_0000_0000) as u32, (key % 0x1_0000_0000) as u32) == key,
{
    let number = (key / 0x1_0000_0000) as u32;
    let rp = (key % 0x1_0000_0000) as u32;
    pair_splits(number, rp);
}

proof fn seal_key_means(log: ParsedLogView, j: int, number: u32, rp: u32)
    requires
        0 <= j < log.pre_sealed.len(),
    ensures
        seal_key(log, log.pre_sealed[j]) == Some(pair_key(number, rp)) <==> exists|i: int|
            #[trigger] sealed_on_from(log, number, rp, j, i),
{
    let ps = log.pre_sealed[j];
    origin_is_found(log, ps);
    pair_splits(number, rp);
    if let Some(i) = attempt_for(log, ps) {
        pair_splits(ps.block_number, log.build_attempts[i].relay_parent_num);
        if seal_key(log, ps) == Some(pair_key(number, rp)) {
            assert(sealed_on_from(log, number, rp, j, i));
        }
    }
    if exists|i: int| #[trigger] sealed_on_from(log, number, rp, j, i) {
        let i = choose|i: int| #[trigger] sealed_on_from(log, number, rp, j, i);
        assert(is_origin(log, ps, i));
        assert(crate::authorship_laws::may_be_origin(log, ps, i));
        origin_is_unique(log, ps, i, attempt_for(log, ps)->0);
    }
}

proof fn seal_at_means(c: CollatorLogView, number: u32, rp: u32)
    ensures
        seal_at(c.log, pair_key(number, rp)) is Some <==> produces(c.log, number, rp),
        produces(c.log, number, rp) ==> tells_of_producer(
            c,
            number,
            rp,
            producer_of(c, pair_key(number, rp)),
        ),
{
    let log = c.log;
    let key = pair_key(number, rp);
    let ok = |j: int| seal_key(log, log.pre_sealed[j]) == Some(key);
    first_where_is_first(log.pre_sealed.len(), ok);
    if produces(log, number, rp) {
        let (j, i) = choose|j: int, i: int| #[trigger] sealed_on_from(log, number, rp, j, i);
        seal_key_means(log, j, number, rp);
        assert(ok(j));
    }
    if let Some(j) = seal_at(log, key) {
        assert(ok(j));
        seal_key_means(log, j, number, rp);
        let i = choose|i: int| #[trigger] sealed_on_from(log, number, rp, j, i);
        assert(sealed_on_from(log, number, rp, j, i));
        origin_is_found(log, log.pre_sealed[j]);
        assert(crate::authorship_laws::may_be_origin(log, log.pre_sealed[j], i));
        origin_is_unique(log, log.pre_sealed[j], i, attempt_for(log, log.pre_sealed[j])->0);
        assert forall|k: int, l: int| #[trigger] sealed_on_from(log, number, rp, k, l) implies j
            <= k by {
            seal_key_means(log, k, number, rp);
            assert(ok(k));
        }
    }
}

proof fn producers_are_picked(multi: Seq<CollatorLogView>, number: u32, rp: u32, n: nat)
    ensures
        ({
            let ok = |c: int| produces(multi[c].log, number, rp);
            let at = picked(n, ok);
            let producers = producers_among(multi, pair_key(number, rp), n);
            &&& at.len() == producers.len()
            &&& forall|k: int|
                0 <= k < at.len() ==> #[trigger] producers[k] == producer_of(
                    multi[at[k]],
                    pair_key(number, rp),
                ) && produces(multi[at[k]].log, number, rp)
        }),
    decreases n,
{
    if n > 0 {
        producers_are_picked(multi, number, rp, (n - 1) as nat);
        seal_at_means(multi[n - 1], number, rp);
    }
}

proof fn with_seals_holds(keys: Seq<u64>, log: ParsedLogView, n: nat)
    requires
        strictly_ascending(keys),
        n <= log.pre_sealed.len(),
    ensures
        strictly_ascending(with_seals(keys, log, n)),
        forall|k: u64| keys.contains(k) ==> #[trigger] with_seals(keys, log, n).contains(k),
        forall|j: int|
            0 <= j < n && seal_key(log, #[trigger] log.pre_sealed[j]) is Some ==> with_seals(
                keys,
                log,
                n,
            ).contains(seal_key(log, log.pre_sealed[j])->0),
    decreases n,
{
    if n > 0 {
        with_seals_holds(keys, log, (n - 1) as nat);
        let before = with_seals(keys, log, (n - 1) as nat);
        if let Some(key) = seal_key(log, log.pre_sealed[n - 1]) {
            with_value_adds(before, key);
        }
    }
}

proof fn seals_hold(multi: Seq<CollatorLogView>, n: nat)
    requires
        n <= multi.len(),
    ensures
        strictly_ascending(seals_among(multi, n)),
        forall|c: int, j: int|
            0 <= c < n && 0 <= j < multi[c].log.pre_sealed.len() && seal_key(
                multi[c].log,
                #[trigger] multi[c].log.pre_sealed[j],
            ) is Some ==> seals_among(multi, n).contains(
                seal_key(multi[c].log, multi[c].log.pre_sealed[j])->0,
            ),
    decreases n,
{
    if n > 0 {
        seals_hold(multi, (n - 1) as nat);
        let log = multi[n - 1].log;
        with_seals_holds(seals_among(multi, (n - 1) as nat), log, log.pre_sealed.len());
        assert forall|c: int, j: int|
            0 <= c < n && 0 <= j < multi[c].log.pre_sealed.len() && seal_key(
                multi[c].log,
                #[trigger] multi[c].log.pre_sealed[j],
            ) is Some implies seals_among(multi, n).contains(
            seal_key(multi[c].log, multi[c].log.pre_sealed[j])->0,
        ) by {
            if c < n - 1 {
                assert(seals_among(multi, (n - 1) as nat).contains(
                    seal_key(multi[c].log, multi[c].log.pre_sealed[j])->0,
                ));
            }
        }
    }
}

proof fn duplicates_hold(multi: Seq<CollatorLogView>, keys: Seq<u64>, n: nat)
    requires
        n <= keys.len(),
        strictly_ascending(keys),
    ensures
        ({
            let ok = |k: int| producers_of(multi, keys[k]).len() >= 2;
            let at = picked(n, ok);
            let d = duplicates_among(multi, keys, n);
            &&& at.len() == d.len()
            &&& forall|k: int|
                0 <= k < at.len() ==> (#[trigger] d[k]).block_number == (keys[at[k]]
                    / 0x1_0000_0000) as u32 && d[k].relay_parent_num == (keys[at[k]]
                    % 0x1_0000_0000) as u32 && d[k].producers == producers_of(multi, keys[at[k]])
        }),
    decreases n,
{
    if n > 0 {
        duplicates_hold(multi, keys, (n - 1) as nat);
    }
}

/// Each duplicate tells of all the collators that built its number on its relay parent; they are
/// ordered by number and relay parent; and wherever two collators built a number on one relay
/// parent, there is one.
pub proof fn duplicates_tell_of_producers(multi: Seq<CollatorLogView>)
    ensures
        ({
            let d = duplicates_of(multi);
            &&& forall|k: int| 0 <= k < d.len() ==> tells_of_producers(multi, #[trigger] d[k])
            &&& forall|a: int, b: int|
                0 <= a < b < d.len() ==> (#[trigger] d[a]).block_number < (
                #[trigger] d[b]).block_number || d[a].block_number == d[b].block_number
                    && d[a].relay_parent_num < d[b].relay_parent_num
        }),
        forall|x: int, y: int, number: u32, rp: u32|
            0 <= x < y < multi.len() && #[trigger] produces(multi[x].log, number, rp)
                && #[trigger] produces(multi[y].log, number, rp) ==> exists|k: int|
                0 <= k < duplicates_of(multi).len() && (
                #[trigger] duplicates_of(multi)[k]).block_number == number && duplicates_of(
                    multi,
                )[k].relay_parent_num == rp,
{
    let keys = seals_among(multi, multi.len());
    let d = duplicates_of(multi);
    let many = |k: int| producers_of(multi, keys[k]).len() >= 2;
    let at = picked(keys.len(), many);
    seals_hold(multi, multi.len());
    duplicates_hold(multi, keys, keys.len());
    picked_selects(keys.len(), many);
    assert forall|k: int| 0 <= k < d.len() implies tells_of_producers(multi, #[trigger] d[k]) by {
        let key = keys[at[k]];
        let (number, rp) = (d[k].block_number, d[k].relay_parent_num);
        key_is_pair(key);
        assert(many(at[k]));
        producers_are_picked(multi, number, rp, multi.len());
        let ok = |c: int| produces(multi[c].log, number, rp);
        picked_selects(multi.len(), ok);
        let who = picked(multi.len(), ok);
        assert forall|p: int| 0 <= p < who.len() implies tells_of_producer(
            multi[who[p]],
            number,
            rp,
            #[trigger] d[k].producers[p],
        ) by {
            seal_at_means(multi[who[p]], number, rp);
        }
        assert(selects(who, multi.len(), ok));
    }
    assert forall|a: int, b: int| 0 <= a < b < d.len() implies (#[trigger] d[a]).block_number < (
    #[trigger] d[b]).block_number || d[a].block_number == d[b].block_number && d[a].relay_parent_num
        < d[b].relay_parent_num by {
        assert(at[a] < at[b]);
        assert(0 <= at[a] < keys.len() && 0 <= at[b] < keys.len());
        assert(keys[at[a]] < keys[at[b]]);
    }
    assert forall|x: int, y: int, number: u32, rp: u32|
        0 <= x < y < multi.len() && #[trigger] produces(multi[x].log, number, rp)
            && #[trigger] produces(multi[y].log, number, rp) implies exists|k: int|
        0 <= k < d.len() && (#[trigger] d[k]).block_number == number && d[k].relay_parent_num
            == rp by {
        let key = pair_key(number, rp);
        pair_splits(number, rp);
        let (j, i) = choose|j: int, i: int| #[trigger]
            sealed_on_from(multi[x].log, number, rp, j, i);
        seal_key_means(multi[x].log, j, number, rp);
        assert(seal_key(multi[x].log, multi[x].log.pre_sealed[j]) == Some(key));
        assert(keys.contains(key));
        let p = choose|p: int| 0 <= p < keys.len() && keys[p] == key;
        producers_are_picked(multi, number, rp, multi.len());
        let ok = |c: int| produces(multi[c].log, number, rp);
        picked_selects(multi.len(), ok);
        let who = picked(multi.len(), ok);
        assert(ok(x) && ok(y));
        assert(who.contains(x) && who.contains(y));
        let a = choose|a: int| 0 <= a < who.len() && who[a] == x;
        let b = choose|b: int| 0 <= b < who.len() && who[b] == y;
        assert(a != b);
        assert(many(p));
        assert(at.contains(p));
        let k = choose|k: int| 0 <= k < at.len() && at[k] == p;
        assert(d[k].block_number == number && d[k].relay_parent_num == rp);
    }
}

} // verus!
