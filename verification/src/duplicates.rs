//! Blocks that different collators built at the same height on the same relay parent.

use crate::authorship::{attempt_for, find_attempt_for};
use crate::logs::MultiCollatorLogs;
use crate::model::{views, views_push};
use crate::search::{
    add_ascending, first_where, first_where_is_first, first_where_stays, strictly_ascending,
    with_value, with_value_adds,
};
use crate::types::{
    CollatorLogView, DuplicateBlockOnSameRP, DuplicateBlockOnSameRPView, DuplicateProducer,
    DuplicateProducerView, ParsedLog, ParsedLogView, PreSealedBlockView,
};
use vstd::prelude::*;

verus! {

/// A block number and a relay parent as one number, by which they are ordered.
pub open spec fn pair_key(number: u32, rp: u32) -> u64 {
    (number * 0x1_0000_0000 + rp) as u64
}

/// The block number and relay parent of a seal as one number, if the decision to build is known.
pub open spec fn seal_key(log: ParsedLogView, ps: PreSealedBlockView) -> Option<u64> {
    match attempt_for(log, ps) {
        Some(i) => Some(pair_key(ps.block_number, log.build_attempts[i].relay_parent_num)),
        None => None,
    }
}

/// The first seal of a block number on a relay parent.
pub open spec fn seal_at(log: ParsedLogView, key: u64) -> Option<int> {
    first_where(log.pre_sealed.len(), |j: int| seal_key(log, log.pre_sealed[j]) == Some(key))
}

/// Whether a collator sealed a block number on a relay parent.
pub open spec fn sealed_on(log: ParsedLogView, number: u32, rp: u32) -> bool {
    exists|j: int|
        0 <= j < log.pre_sealed.len() && (#[trigger] log.pre_sealed[j]).block_number == number
            && attempt_for(log, log.pre_sealed[j]) is Some && log.build_attempts[attempt_for(
            log,
            log.pre_sealed[j],
        )->0].relay_parent_num == rp
}

/// What a collator that sealed a block number on a relay parent produced first.
pub open spec fn producer_of(c: CollatorLogView, key: u64) -> DuplicateProducerView {
    let ps = c.log.pre_sealed[seal_at(c.log, key)->0];
    DuplicateProducerView {
        collator: c.name,
        slot: c.log.build_attempts[attempt_for(c.log, ps)->0].slot,
        timestamp: ps.timestamp,
        block_hash: ps.post_hash,
    }
}

/// The producers of a block number on a relay parent among the first `n` collators.
pub open spec fn producers_among(multi: Seq<CollatorLogView>, key: u64, n: nat) -> Seq<
    DuplicateProducerView,
>
    decreases n,
{
    if n == 0 {
        Seq::empty()
    } else {
        let before = producers_among(multi, key, (n - 1) as nat);
        if seal_at(multi[n - 1].log, key) is Some {
            before.push(producer_of(multi[n - 1], key))
        } else {
            before
        }
    }
}

/// The producers of a block number on a relay parent.
pub open spec fn producers_of(multi: Seq<CollatorLogView>, key: u64) -> Seq<
    DuplicateProducerView,
> {
    producers_among(multi, key, multi.len())
}

/// `keys` with those of the first `n` seals of a log.
pub open spec fn with_seals(keys: Seq<u64>, log: ParsedLogView, n: nat) -> Seq<u64>
    decreases n,
{
    if n == 0 {
        keys
    } else {
        let before = with_seals(keys, log, (n - 1) as nat);
        match seal_key(log, log.pre_sealed[n - 1]) {
            Some(key) => with_value(before, key),
            None => before,
        }
    }
}

/// The block numbers and relay parents of the seals of the first `n` collators, ascending.
pub open spec fn seals_among(multi: Seq<CollatorLogView>, n: nat) -> Seq<u64>
    decreases n,
{
    if n == 0 {
        Seq::empty()
    } else {
        with_seals(
            seals_among(multi, (n - 1) as nat),
            multi[n - 1].log,
            multi[n - 1].log.pre_sealed.len(),
        )
    }
}

/// The duplicates among the first `n` block numbers and relay parents: those with two producers.
pub open spec fn duplicates_among(multi: Seq<CollatorLogView>, keys: Seq<u64>, n: nat) -> Seq<
    DuplicateBlockOnSameRPView,
>
    decreases n,
{
    if n == 0 {
        Seq::empty()
    } else {
        let before = duplicates_among(multi, keys, (n - 1) as nat);
        let producers = producers_of(multi, keys[n - 1]);
        if producers.len() >= 2 {
            before.push(
                DuplicateBlockOnSameRPView {
                    block_number: (keys[n - 1] / 0x1_0000_0000) as u32,
                    relay_parent_num: (keys[n - 1] % 0x1_0000_0000) as u32,
                    producers,
                },
            )
        } else {
            before
        }
    }
}

/// The block numbers that different collators built on the same relay parent, by number and relay
/// parent.
pub open spec fn duplicates_of(multi: Seq<CollatorLogView>) -> Seq<DuplicateBlockOnSameRPView> {
    let keys = seals_among(multi, multi.len());
    duplicates_among(multi, keys, keys.len())
}

proof fn pair_key_splits(number: u32, rp: u32)
    ensures
        pair_key(number, rp) / 0x1_0000_0000 == number,
        pair_key(number, rp) % 0x1_0000_0000 == rp,
{
    assert(number * 0x1_0000_0000 + rp <= u64::MAX);
}

proof fn with_seals_adds(keys: Seq<u64>, log: ParsedLogView, n: nat)
    requires
        strictly_ascending(keys),
    ensures
        strictly_ascending(with_seals(keys, log, n)),
        forall|k: u64| #[trigger]
            with_seals(keys, log, n).contains(k) <==> keys.contains(k) || first_where(
                n,
                |j: int| seal_key(log, log.pre_sealed[j]) == Some(k),
            ) is Some,
    decreases n,
{
    if n > 0 {
        with_seals_adds(keys, log, (n - 1) as nat);
        let before = with_seals(keys, log, (n - 1) as nat);
        if let Some(key) = seal_key(log, log.pre_sealed[n - 1]) {
            with_value_adds(before, key);
        }
    }
}

proof fn seals_are_all(multi: Seq<CollatorLogView>, n: nat)
    requires
        n <= multi.len(),
    ensures
        strictly_ascending(seals_among(multi, n)),
        forall|k: u64| #[trigger]
            seals_among(multi, n).contains(k) <==> first_where(
                n,
                |c: int| seal_at(multi[c].log, k) is Some,
            ) is Some,
    decreases n,
{
    if n > 0 {
        seals_are_all(multi, (n - 1) as nat);
        with_seals_adds(
            seals_among(multi, (n - 1) as nat),
            multi[n - 1].log,
            multi[n - 1].log.pre_sealed.len(),
        );
    }
}

proof fn sealed_on_has_key(log: ParsedLogView, number: u32, rp: u32)
    ensures
        sealed_on(log, number, rp) <==> seal_at(log, pair_key(number, rp)) is Some,
{
    let key = pair_key(number, rp);
    let ok = |j: int| seal_key(log, log.pre_sealed[j]) == Some(key);
    first_where_is_first(log.pre_sealed.len(), ok);
    pair_key_splits(number, rp);
    if sealed_on(log, number, rp) {
        let j = choose|j: int|
            0 <= j < log.pre_sealed.len() && (#[trigger] log.pre_sealed[j]).block_number == number
                && attempt_for(log, log.pre_sealed[j]) is Some && log.build_attempts[attempt_for(
                log,
                log.pre_sealed[j],
            )->0].relay_parent_num == rp;
        assert(ok(j));
    }
    if let Some(j) = seal_at(log, key) {
        assert(ok(j));
        let ps = log.pre_sealed[j];
        pair_key_splits(
            ps.block_number,
            log.build_attempts[attempt_for(log, ps)->0].relay_parent_num,
        );
    }
}

proof fn producers_count(multi: Seq<CollatorLogView>, key: u64, n: nat)
    requires
        n <= multi.len(),
    ensures
        producers_among(multi, key, n).len() >= 1 <==> exists|c: int|
            0 <= c < n && seal_at((#[trigger] multi[c]).log, key) is Some,
        producers_among(multi, key, n).len() >= 2 <==> exists|c: int, d: int|
            0 <= c < d < n && seal_at((#[trigger] multi[c]).log, key) is Some && seal_at(
                (#[trigger] multi[d]).log,
                key,
            ) is Some,
    decreases n,
{
    if n > 0 {
        producers_count(multi, key, (n - 1) as nat);
        let last = seal_at(multi[n - 1].log, key) is Some;
        if producers_among(multi, key, n).len() >= 2 {
            if producers_among(multi, key, (n - 1) as nat).len() >= 2 {
                let (c, d) = choose|c: int, d: int|
                    0 <= c < d < n - 1 && seal_at((#[trigger] multi[c]).log, key) is Some && seal_at(
                        (#[trigger] multi[d]).log,
                        key,
                    ) is Some;
                assert(0 <= c < d < n);
            } else {
                let c = choose|c: int| 0 <= c < n - 1 && seal_at((#[trigger] multi[c]).log, key) is Some;
                assert(last);
                assert(0 <= c < n - 1 < n && seal_at(multi[n - 1].log, key) is Some);
            }
        }
    }
}

proof fn duplicates_listed(multi: Seq<CollatorLogView>, keys: Seq<u64>, n: nat)
    requires
        n <= keys.len(),
    ensures
        duplicates_among(multi, keys, n).len() == 0 <==> forall|k: int|
            0 <= k < n ==> producers_of(multi, #[trigger] keys[k]).len() < 2,
    decreases n,
{
    if n > 0 {
        duplicates_listed(multi, keys, (n - 1) as nat);
    }
}

/// There are no duplicates exactly where no two collators sealed the same block number on the same
/// relay parent.
pub proof fn no_duplicates_where_clean(multi: Seq<CollatorLogView>)
    ensures
        duplicates_of(multi).len() == 0 <==> !exists|c: int, d: int, number: u32, rp: u32|
            0 <= c < d < multi.len() && #[trigger] sealed_on(multi[c].log, number, rp)
                && #[trigger] sealed_on(multi[d].log, number, rp),
{
    let keys = seals_among(multi, multi.len());
    seals_are_all(multi, multi.len());
    duplicates_listed(multi, keys, keys.len());
    if exists|c: int, d: int, number: u32, rp: u32|
        0 <= c < d < multi.len() && #[trigger] sealed_on(multi[c].log, number, rp)
            && #[trigger] sealed_on(multi[d].log, number, rp) {
        let (c, d, number, rp) = choose|c: int, d: int, number: u32, rp: u32|
            0 <= c < d < multi.len() && #[trigger] sealed_on(multi[c].log, number, rp)
                && #[trigger] sealed_on(multi[d].log, number, rp);
        let key = pair_key(number, rp);
        sealed_on_has_key(multi[c].log, number, rp);
        sealed_on_has_key(multi[d].log, number, rp);
        producers_count(multi, key, multi.len());
        let ok = |c: int| seal_at(multi[c].log, key) is Some;
        first_where_is_first(multi.len(), ok);
        assert(ok(c));
        assert(keys.contains(key));
        let k = choose|k: int| 0 <= k < keys.len() && keys[k] == key;
        assert(producers_of(multi, keys[k]).len() >= 2);
    }
    if duplicates_of(multi).len() > 0 {
        let k = choose|k: int|
            0 <= k < keys.len() && producers_of(multi, #[trigger] keys[k]).len() >= 2;
        let key = keys[k];
        producers_count(multi, key, multi.len());
        let (c, d) = choose|c: int, d: int|
            0 <= c < d < multi.len() && seal_at((#[trigger] multi[c]).log, key) is Some && seal_at(
                (#[trigger] multi[d]).log,
                key,
            ) is Some;
        let log = multi[c].log;
        let ok = |j: int| seal_key(log, log.pre_sealed[j]) == Some(key);
        first_where_is_first(log.pre_sealed.len(), ok);
        let ps = log.pre_sealed[seal_at(log, key)->0];
        assert(ok(seal_at(log, key)->0));
        let number = ps.block_number;
        let rp = log.build_attempts[attempt_for(log, ps)->0].relay_parent_num;
        sealed_on_has_key(multi[c].log, number, rp);
        sealed_on_has_key(multi[d].log, number, rp);
        assert(sealed_on(multi[c].log, number, rp) && sealed_on(multi[d].log, number, rp));
    }
}

// ---- Reading the logs ----
fn find_seal_key(log: &ParsedLog, j: usize) -> (key: Option<u64>)
    requires
        j < log.pre_sealed@.len(),
    ensures
        key == seal_key(log@, log@.pre_sealed[j as int]),
{
    let seal = &log.pre_sealed[j];
    assert(log@.pre_sealed[j as int] == seal@);
    match find_attempt_for(log, seal) {
        Some(i) => {
            assert(log@.build_attempts[i as int] == log.build_attempts@[i as int]@);
            let rp = log.build_attempts[i].relay_parent_num;
            assert(seal.block_number * 0x1_0000_0000 + rp <= u64::MAX);
            Some(seal.block_number as u64 * 0x1_0000_0000 + rp as u64)
        },
        None => None,
    }
}

/// The block numbers and relay parents of the seals of a log.
pub open spec fn seal_keys(log: ParsedLogView) -> Seq<Option<u64>> {
    Seq::new(log.pre_sealed.len(), |j: int| seal_key(log, log.pre_sealed[j]))
}

fn keys_of_seals(log: &ParsedLog) -> (keys: Vec<Option<u64>>)
    ensures
        keys@ == seal_keys(log@),
{
    let mut keys: Vec<Option<u64>> = Vec::new();
    let mut j: usize = 0;
    while j < log.pre_sealed.len()
        invariant
            j <= log.pre_sealed@.len(),
            keys@ == seal_keys(log@).take(j as int),
        decreases log.pre_sealed@.len() - j,
    {
        let key = find_seal_key(log, j);
        assert(seal_keys(log@).take(j + 1) =~= seal_keys(log@).take(j as int).push(key));
        keys.push(key);
        j = j + 1;
    }
    assert(seal_keys(log@).take(j as int) =~= seal_keys(log@));
    keys
}

fn find_seal_at(log: &ParsedLog, keys: &Vec<Option<u64>>, key: u64) -> (at: Option<usize>)
    requires
        keys@ == seal_keys(log@),
    ensures
        match at {
            Some(j) => seal_at(log@, key) == Some(j as int) && j < log.pre_sealed@.len() && seal_key(
                log@,
                log@.pre_sealed[j as int],
            ) == Some(key),
            None => seal_at(log@, key) is None,
        },
{
    let ghost ok = |j: int| seal_key(log@, log@.pre_sealed[j]) == Some(key);
    let mut j: usize = 0;
    while j < keys.len()
        invariant
            j <= keys@.len(),
            keys@ == seal_keys(log@),
            ok == (|j: int| seal_key(log@, log@.pre_sealed[j]) == Some(key)),
            first_where(j as nat, ok) is None,
        decreases keys@.len() - j,
    {
        if keys[j] == Some(key) {
            proof {
                first_where_stays(log@.pre_sealed.len(), (j + 1) as nat, ok);
            }
            return Some(j);
        }
        j = j + 1;
    }
    None
}

fn add_keys(all: &mut Vec<u64>, log: &ParsedLog, keys: &Vec<Option<u64>>)
    requires
        keys@ == seal_keys(log@),
    ensures
        final(all)@ == with_seals(old(all)@, log@, log@.pre_sealed.len()),
{
    let mut j: usize = 0;
    while j < keys.len()
        invariant
            j <= keys@.len(),
            keys@ == seal_keys(log@),
            all@ == with_seals(old(all)@, log@, j as nat),
        decreases keys@.len() - j,
    {
        assert(keys@[j as int] == seal_key(log@, log@.pre_sealed[j as int]));
        if let Some(key) = keys[j] {
            add_ascending(all, key);
        }
        j = j + 1;
    }
}

fn read_producers(
    multi: &MultiCollatorLogs,
    keys: &Vec<Vec<Option<u64>>>,
    key: u64,
) -> (producers: Vec<DuplicateProducer>)
    requires
        multi.wf(),
        keys@.len() == multi@.len(),
        forall|k: int|
            0 <= k < multi@.len() ==> (#[trigger] keys@[k])@ == seal_keys(multi@[k].log),
    ensures
        views(producers@) == producers_of(multi@, key),
{
    let mut producers: Vec<DuplicateProducer> = Vec::new();
    assert(views(producers@) =~= Seq::<DuplicateProducerView>::empty());
    let mut c: usize = 0;
    while c < multi.len()
        invariant
            c <= multi@.len(),
            multi.wf(),
            keys@.len() == multi@.len(),
            forall|k: int|
                0 <= k < multi@.len() ==> (#[trigger] keys@[k])@ == seal_keys(multi@[k].log),
            views(producers@) == producers_among(multi@, key, c as nat),
        decreases multi@.len() - c,
    {
        let log = multi.log(c);
        if let Some(j) = find_seal_at(log, &keys[c], key) {
            let seal = &log.pre_sealed[j];
            assert(log@.pre_sealed[j as int] == seal@);
            if let Some(i) = find_attempt_for(log, seal) {
                assert(log@.build_attempts[i as int] == log.build_attempts@[i as int]@);
                let producer = DuplicateProducer {
                    collator: multi.name(c).clone(),
                    slot: log.build_attempts[i].slot,
                    timestamp: seal.timestamp,
                    block_hash: seal.post_hash.clone(),
                };
                proof {
                    assert(producer@ =~= producer_of(multi@[c as int], key));
                    views_push(producers@, producer);
                }
                producers.push(producer);
            }
        }
        c = c + 1;
    }
    producers
}

/// Finds the block numbers that different collators built on the same relay parent.
pub fn find_duplicates(multi: &MultiCollatorLogs) -> (duplicates: Vec<DuplicateBlockOnSameRP>)
    requires
        multi.wf(),
    ensures
        views(duplicates@) == duplicates_of(multi@),
{
    let mut all: Vec<u64> = Vec::new();
    let mut keys: Vec<Vec<Option<u64>>> = Vec::new();
    let mut c: usize = 0;
    while c < multi.len()
        invariant
            c <= multi@.len(),
            multi.wf(),
            all@ == seals_among(multi@, c as nat),
            keys@.len() == c,
            forall|k: int| 0 <= k < c ==> (#[trigger] keys@[k])@ == seal_keys(multi@[k].log),
        decreases multi@.len() - c,
    {
        let log = multi.log(c);
        let log_keys = keys_of_seals(log);
        add_keys(&mut all, log, &log_keys);
        keys.push(log_keys);
        c = c + 1;
    }
    let mut duplicates: Vec<DuplicateBlockOnSameRP> = Vec::new();
    assert(views(duplicates@) =~= Seq::<DuplicateBlockOnSameRPView>::empty());
    let mut k: usize = 0;
    while k < all.len()
        invariant
            k <= all@.len(),
            multi.wf(),
            keys@.len() == multi@.len(),
            forall|k: int|
                0 <= k < multi@.len() ==> (#[trigger] keys@[k])@ == seal_keys(multi@[k].log),
            views(duplicates@) == duplicates_among(multi@, all@, k as nat),
        decreases all@.len() - k,
    {
        let key = all[k];
        let producers = read_producers(multi, &keys, key);
        assert(views(producers@).len() == producers@.len());
        if producers.len() >= 2 {
            let duplicate = DuplicateBlockOnSameRP {
                block_number: (key / 0x1_0000_0000) as u32,
                relay_parent_num: (key % 0x1_0000_0000) as u32,
                producers,
            };
            proof {
                views_push(duplicates@, duplicate);
            }
            duplicates.push(duplicate);
        }
        k = k + 1;
    }
    duplicates
}

} // verus!
