//! What holds of rebuilds, said of the imports, seals and decisions of the collators and of the relay
//! blocks themselves.

use crate::authorship::{rp_and_slot, sealer_of, whole_registry};
use crate::authorship_laws::{
    blocks_are_attributed, has_seal_of, is_sealer, relay_parent_and_slot_are_of_origin,
    sealed_from,
};
use crate::chain_client::{blake2b_256, para_number};
use crate::collations::expired_on;
use crate::drop_laws::{
    are_expired_on, are_known_blocks, blocks_between_are_known, expired_entries_are_told,
};
use crate::hash::{full_text, resolved_key, RegistryView};
use crate::rebuilds::{
    blocks_from_to, by_number, cause_of, expired_at, first_best, has_block, includes_block,
    is_block, is_rebuild, rebuild_numbers, rebuild_of, rebuilds_in, rebuilds_of, rebuilds_seen,
    rp_and_slot_at, same_rebuild, winner_of, without_repeats,
};
use crate::search::{first_where_is_first, sort_order, sort_order_is_stable};
use crate::selection::{picked, picked_selects};
use crate::types::{
    CollationExpiredView, CollatorLogView, OnChainBlockInfoView, OnChainWinner, ParsedLogView,
    RebuildCause, RebuildEventView,
};
use vstd::prelude::*;

verus! {

// ---- Imports ----
/// Whether import `i` is not best at a height where another import, earlier or later, is.
pub open spec fn is_replaced(log: ParsedLogView, i: int) -> bool {
    &&& 0 <= i < log.para_imports.len()
    &&& !log.para_imports[i].is_best
    &&& exists|k: int|
        0 <= k < log.para_imports.len() && (#[trigger] log.para_imports[k]).is_best
            && log.para_imports[k].block_number == log.para_imports[i].block_number
}

/// Whether import `f` is the first best one of a block number.
pub open spec fn is_first_best(log: ParsedLogView, number: u32, f: int) -> bool {
    &&& 0 <= f < log.para_imports.len()
    &&& log.para_imports[f].is_best
    &&& log.para_imports[f].block_number == number
    &&& forall|k: int|
        0 <= k < f && (#[trigger] log.para_imports[k]).block_number == number
            ==> !log.para_imports[k].is_best
}

proof fn replaced_means(log: ParsedLogView, i: int)
    requires
        0 <= i < log.para_imports.len(),
    ensures
        is_rebuild(log, i) == is_replaced(log, i),
        is_replaced(log, i) ==> is_first_best(
            log,
            log.para_imports[i].block_number,
            first_best(log, log.para_imports[i].block_number)->0,
        ),
{
    let number = log.para_imports[i].block_number;
    let ok = |k: int| log.para_imports[k].is_best && log.para_imports[k].block_number == number;
    let n = log.para_imports.len();
    first_where_is_first(n, ok);
    match first_best(log, number) {
        Some(f) => {
            assert(ok(f));
            assert(log.para_imports[f].is_best);
            assert forall|k: int|
                0 <= k < f && (#[trigger] log.para_imports[k]).block_number
                    == number implies !log.para_imports[k].is_best by {
                assert(!ok(k));
            }
        },
        None => {
            assert forall|k: int|
                0 <= k < n && (#[trigger] log.para_imports[k]).is_best implies log.para_imports[k].block_number
                != number by {
                assert(!ok(k));
            }
        },
    }
}

// ---- Attribution ----
/// Whether a relay parent and a slot are those of the decision that the last seal of a block number
/// came from, or neither is told because there is no such decision.
pub open spec fn are_of_origin(
    log: ParsedLogView,
    number: u32,
    rp: Option<u32>,
    slot: Option<u64>,
) -> bool {
    ||| exists|j: int, i: int| #[trigger]
        sealed_from(log, number, j, i) && rp == Some(log.build_attempts[i].relay_parent_num)
            && slot == Some(log.build_attempts[i].slot) && forall|k: int, l: int| #[trigger]
            sealed_from(log, number, k, l) ==> k <= j
    ||| {
        &&& forall|j: int, i: int| !(#[trigger] sealed_from(log, number, j, i))
        &&& rp is None
        &&& slot is None
    }
}

/// Whether a block, given by its number and the text of its hash, is told to be by the collator that
/// sealed it, on the relay parent and in the slot that this collator built it; or nothing is told
/// because no collator sealed it.
pub open spec fn is_told_by(
    multi: Seq<CollatorLogView>,
    number: u32,
    key: Seq<char>,
    name: Option<Seq<char>>,
    rp: Option<u32>,
    slot: Option<u64>,
) -> bool {
    ||| exists|c: int| #[trigger]
        is_sealer(multi, c, number, key) && name == Some(multi[c].name) && are_of_origin(
            multi[c].log,
            number,
            rp,
            slot,
        )
    ||| {
        &&& forall|c: int| !(#[trigger] has_seal_of(multi, c, number, key))
        &&& name is None
        &&& rp is None
        &&& slot is None
    }
}

proof fn builder_is_told(multi: Seq<CollatorLogView>, number: u32, key: Seq<char>)
    ensures
        ({
            let s = sealer_of(multi, number, key);
            let found = rp_and_slot_at(multi, s, number);
            is_told_by(
                multi,
                number,
                key,
                crate::rebuilds::name_of(multi, s),
                crate::rebuilds::rp_in(found),
                crate::rebuilds::slot_in(found),
            )
        }),
{
    blocks_are_attributed(multi, number, key);
    if let Some(c) = sealer_of(multi, number, key) {
        let log = multi[c].log;
        relay_parent_and_slot_are_of_origin(log, number);
        assert(is_sealer(multi, c, number, key));
        let found = rp_and_slot(log, number);
        if let Some((rp, slot)) = found {
            let (j, i) = choose|j: int, i: int| #[trigger]
                sealed_from(log, number, j, i) && rp == log.build_attempts[i].relay_parent_num
                    && slot == log.build_attempts[i].slot && forall|k: int, l: int| #[trigger]
                    sealed_from(log, number, k, l) ==> k <= j;
            assert(sealed_from(log, number, j, i));
        }
        assert(are_of_origin(
            log,
            number,
            crate::rebuilds::rp_in(found),
            crate::rebuilds::slot_in(found),
        ));
    }
}

// ---- Causes ----
/// Whether two values are both known and differ.
pub open spec fn differ<T>(a: Option<T>, b: Option<T>) -> bool {
    a is Some && b is Some && a != b
}

/// Whether a cause is the right one for two blocks.
pub open spec fn cause_fits(
    a: Option<Seq<char>>,
    b: Option<Seq<char>>,
    a_rp: Option<u32>,
    b_rp: Option<u32>,
    a_slot: Option<u64>,
    b_slot: Option<u64>,
    cause: RebuildCause,
) -> bool {
    let again = a is Some && a == b && differ(a_rp, b_rp);
    let apart = differ(a_slot, b_slot);
    let guessed = (a_slot is None || b_slot is None) && differ(a_rp, b_rp) && differ(a, b);
    match cause {
        RebuildCause::SlotBoundaryOverlap { outgoing_slot, incoming_slot } => {
            &&& !again
            &&& apart || guessed
            &&& apart ==> outgoing_slot < incoming_slot && (a_slot == Some(outgoing_slot) && b_slot
                == Some(incoming_slot) || b_slot == Some(outgoing_slot) && a_slot == Some(
                incoming_slot,
            ))
            &&& !apart ==> outgoing_slot == 0 && incoming_slot == 0
        },
        RebuildCause::NewerRelayParent { old_rp, new_rp } => {
            &&& again || !(apart || guessed)
            &&& old_rp < new_rp
            &&& a_rp == Some(old_rp) && b_rp == Some(new_rp) || b_rp == Some(old_rp) && a_rp
                == Some(new_rp)
        },
        RebuildCause::Unknown => !again && !apart && !differ(a_rp, b_rp),
    }
}

/// The cause given is the right one. Two relay parents of one collator: the newer one. Else two
/// slots: an overlap at their boundary. Else two relay parents: an overlap where a slot is missing
/// and two collators are known, and else the newer one. Else it is unknown.
pub proof fn causes_fit(
    a: Option<Seq<char>>,
    b: Option<Seq<char>>,
    a_rp: Option<u32>,
    b_rp: Option<u32>,
    a_slot: Option<u64>,
    b_slot: Option<u64>,
)
    ensures
        cause_fits(
            a,
            b,
            a_rp,
            b_rp,
            a_slot,
            b_slot,
            cause_of(a, b, a_rp, b_rp, a_slot, b_slot),
        ),
{
}

// ---- What was included ----
/// Whether a relay block includes a candidate whose head data holds a block number and has a hash of
/// a given text.
pub open spec fn on_chain(
    chain: Map<u32, OnChainBlockInfoView>,
    number: u32,
    key: Seq<char>,
) -> bool {
    exists|n: u32, i: int|
        #![trigger chain[n].included_para_candidates[i]]
        chain.contains_key(n) && 0 <= i < chain[n].included_para_candidates.len() && (
        chain[n].included_para_candidates[i].para_head_data matches Some(head) && para_number(head)
            == Some(number) && full_text(blake2b_256(head)) == key)
}

proof fn on_chain_means(chain: Map<u32, OnChainBlockInfoView>, number: u32, key: Seq<char>)
    ensures
        includes_block(chain, number, key) == on_chain(chain, number, key),
{
    if includes_block(chain, number, key) {
        let n = choose|n: u32| #[trigger]
            chain.contains_key(n) && has_block(chain[n], number, key);
        let i = choose|i: int|
            0 <= i < chain[n].included_para_candidates.len() && is_block(
                #[trigger] chain[n].included_para_candidates[i],
                number,
                key,
            );
        assert(is_block(chain[n].included_para_candidates[i], number, key));
        assert(on_chain(chain, number, key));
    }
    if on_chain(chain, number, key) {
        let (n, i) = choose|n: u32, i: int|
            #![trigger chain[n].included_para_candidates[i]]
            chain.contains_key(n) && 0 <= i < chain[n].included_para_candidates.len() && (
            chain[n].included_para_candidates[i].para_head_data matches Some(head)
                && para_number(head) == Some(number) && full_text(blake2b_256(head)) == key);
        assert(is_block(chain[n].included_para_candidates[i], number, key));
        assert(has_block(chain[n], number, key));
    }
}

/// The block that is told to have won is one that was included: the original best where it was, else
/// the replacement where that was, and else none is told.
pub proof fn winner_was_included(
    chain: Map<u32, OnChainBlockInfoView>,
    number: u32,
    best: Seq<char>,
    rebuilt: Seq<char>,
)
    ensures
        match winner_of(chain, number, best, rebuilt) {
            OnChainWinner::OriginalBest => on_chain(chain, number, best),
            OnChainWinner::Replacement => on_chain(chain, number, rebuilt) && !on_chain(
                chain,
                number,
                best,
            ),
            OnChainWinner::Unknown => !on_chain(chain, number, best) && !on_chain(
                chain,
                number,
                rebuilt,
            ),
        },
{
    on_chain_means(chain, number, best);
    on_chain_means(chain, number, rebuilt);
}

// ---- Expired collations ----
/// Whether `expired` are the entries of all collators for a relay parent, collator by collator.
pub open spec fn are_expired_anywhere(
    multi: Seq<CollatorLogView>,
    rp: u32,
    expired: Seq<CollationExpiredView>,
) -> bool {
    exists|parts: Seq<Seq<CollationExpiredView>>|
        parts.len() == multi.len() && expired == #[trigger] parts.flatten() && forall|c: int|
            0 <= c < multi.len() ==> are_expired_on(multi[c].log, rp, #[trigger] parts[c])
}

proof fn expired_at_is_flat(multi: Seq<CollatorLogView>, rp: u32, n: nat)
    ensures
        expired_at(multi, rp, n) == Seq::new(
            n,
            |c: int| expired_on(multi[c].log, rp),
        ).flatten_alt(),
    decreases n,
{
    let parts = Seq::new(n, |c: int| expired_on(multi[c].log, rp));
    if n > 0 {
        expired_at_is_flat(multi, rp, (n - 1) as nat);
        assert(parts.drop_last() =~= Seq::new(
            (n - 1) as nat,
            |c: int| expired_on(multi[c].log, rp),
        ));
    }
}

proof fn expired_anywhere(multi: Seq<CollatorLogView>, rp: u32)
    ensures
        are_expired_anywhere(multi, rp, expired_at(multi, rp, multi.len())),
{
    let parts = Seq::new(multi.len(), |c: int| expired_on(multi[c].log, rp));
    expired_at_is_flat(multi, rp, multi.len());
    parts.lemma_flatten_and_flatten_alt_are_equivalent();
    assert forall|c: int| 0 <= c < multi.len() implies are_expired_on(
        multi[c].log,
        rp,
        #[trigger] parts[c],
    ) by {
        expired_entries_are_told(multi[c].log, rp);
    }
    assert(parts.flatten() == expired_at(multi, rp, multi.len()));
}

// ---- Rebuilds ----
/// Whether an event tells of import `i` of collator `c`, which is not best, and of the first best
/// import `f` of the same number there.
pub open spec fn tells_of_imports(
    multi: Seq<CollatorLogView>,
    chain: Map<u32, OnChainBlockInfoView>,
    c: int,
    i: int,
    f: int,
    e: RebuildEventView,
) -> bool {
    let log = multi[c].log;
    let registry = whole_registry(multi);
    let best = resolved_key(log.para_imports[f].block_hash, registry);
    let rebuilt = resolved_key(log.para_imports[i].block_hash, registry);
    &&& e.observer == multi[c].name
    &&& e.block_number == log.para_imports[i].block_number
    &&& e.block_hash_rebuilt == log.para_imports[i].block_hash
    &&& e.parent_hash_rebuilt == log.para_imports[i].parent_hash
    &&& e.rebuilt_timestamp == log.para_imports[i].timestamp
    &&& e.block_hash_best == log.para_imports[f].block_hash
    &&& e.parent_hash_best == log.para_imports[f].parent_hash
    &&& e.best_timestamp == log.para_imports[f].timestamp
    &&& is_told_by(
        multi,
        e.block_number,
        best,
        e.best_collator,
        e.best_relay_parent,
        e.best_slot,
    )
    &&& is_told_by(
        multi,
        e.block_number,
        rebuilt,
        e.rebuilt_collator,
        e.rebuilt_relay_parent,
        e.rebuilt_slot,
    )
    &&& cause_fits(
        e.best_collator,
        e.rebuilt_collator,
        e.best_relay_parent,
        e.rebuilt_relay_parent,
        e.best_slot,
        e.rebuilt_slot,
        e.cause,
    )
    &&& match e.on_chain_winner {
        OnChainWinner::OriginalBest => on_chain(chain, e.block_number, best),
        OnChainWinner::Replacement => on_chain(chain, e.block_number, rebuilt) && !on_chain(
            chain,
            e.block_number,
            best,
        ),
        OnChainWinner::Unknown => !on_chain(chain, e.block_number, best) && !on_chain(
            chain,
            e.block_number,
            rebuilt,
        ),
    }
    &&& match (e.best_relay_parent, e.rebuilt_relay_parent) {
        (Some(a), Some(b)) => are_known_blocks(
            chain,
            if a < b {
                a as int
            } else {
                b as int
            },
            if a < b {
                b as int
            } else {
                a as int
            },
            e.relay_block_sequence,
        ),
        _ => e.relay_block_sequence.len() == 0,
    }
    &&& match e.best_relay_parent {
        Some(rp) => are_expired_anywhere(multi, rp, e.collation_expired),
        None => e.collation_expired.len() == 0,
    }
}

proof fn rebuild_tells(
    multi: Seq<CollatorLogView>,
    chain: Map<u32, OnChainBlockInfoView>,
    c: int,
    i: int,
)
    requires
        is_replaced(multi[c].log, i),
    ensures
        ({
            let log = multi[c].log;
            let f = first_best(log, log.para_imports[i].block_number)->0;
            &&& is_first_best(log, log.para_imports[i].block_number, f)
            &&& tells_of_imports(multi, chain, c, i, f, rebuild_of(multi, chain, c, i))
        }),
{
    let log = multi[c].log;
    let number = log.para_imports[i].block_number;
    replaced_means(log, i);
    let f = first_best(log, number)->0;
    let registry = whole_registry(multi);
    let best = resolved_key(log.para_imports[f].block_hash, registry);
    let rebuilt = resolved_key(log.para_imports[i].block_hash, registry);
    let e = rebuild_of(multi, chain, c, i);
    builder_is_told(multi, number, best);
    builder_is_told(multi, number, rebuilt);
    causes_fit(
        e.best_collator,
        e.rebuilt_collator,
        e.best_relay_parent,
        e.rebuilt_relay_parent,
        e.best_slot,
        e.rebuilt_slot,
    );
    winner_was_included(chain, number, best, rebuilt);
    if let (Some(a), Some(b)) = (e.best_relay_parent, e.rebuilt_relay_parent) {
        let (low, high) = if a < b {
            (a as int, b as int)
        } else {
            (b as int, a as int)
        };
        blocks_between_are_known(chain, low, high);
        assert(e.relay_block_sequence == blocks_from_to(chain, Some(a), Some(b)));
    }
    if let Some(rp) = e.best_relay_parent {
        expired_anywhere(multi, rp);
    }
}

/// Whether one import of one collator comes before another import of that or another collator.
pub open spec fn comes_first(a: (int, int), b: (int, int)) -> bool {
    a.0 < b.0 || (a.0 == b.0 && a.1 < b.1)
}

/// Whether an import of a collator is one that was replaced.
pub open spec fn is_observed(multi: Seq<CollatorLogView>, at: (int, int)) -> bool {
    0 <= at.0 < multi.len() && is_replaced(multi[at.0].log, at.1)
}

/// Whether two imports that were replaced show the same two blocks: of one number, with the same
/// hashes, and with the same hashes of the first best imports.
pub open spec fn show_same_blocks(
    multi: Seq<CollatorLogView>,
    a: (int, int),
    f: int,
    b: (int, int),
    g: int,
) -> bool {
    let x = multi[a.0].log;
    let y = multi[b.0].log;
    let registry = whole_registry(multi);
    &&& x.para_imports[a.1].block_number == y.para_imports[b.1].block_number
    &&& resolved_key(x.para_imports[a.1].block_hash, registry) == resolved_key(
        y.para_imports[b.1].block_hash,
        registry,
    )
    &&& resolved_key(x.para_imports[f].block_hash, registry) == resolved_key(
        y.para_imports[g].block_hash,
        registry,
    )
}

// The imports that were replaced, in the order of collators and imports.
spec fn origins_in(multi: Seq<CollatorLogView>, c: int, n: nat) -> Seq<(int, int)>
    decreases n,
{
    if n == 0 {
        Seq::empty()
    } else {
        let before = origins_in(multi, c, (n - 1) as nat);
        if is_replaced(multi[c].log, n - 1) {
            before.push((c, n - 1))
        } else {
            before
        }
    }
}

spec fn origins(multi: Seq<CollatorLogView>, n: nat) -> Seq<(int, int)>
    decreases n,
{
    if n == 0 {
        Seq::empty()
    } else {
        origins(multi, (n - 1) as nat) + origins_in(
            multi,
            n - 1,
            multi[n - 1].log.para_imports.len(),
        )
    }
}

proof fn origins_in_fit(
    multi: Seq<CollatorLogView>,
    chain: Map<u32, OnChainBlockInfoView>,
    c: int,
    n: nat,
)
    requires
        n <= multi[c].log.para_imports.len(),
    ensures
        ({
            let at = origins_in(multi, c, n);
            let seen = rebuilds_in(multi, chain, c, n);
            &&& at.len() == seen.len()
            &&& forall|k: int|
                0 <= k < at.len() ==> (#[trigger] at[k]).0 == c && 0 <= at[k].1 < n && is_replaced(
                    multi[c].log,
                    at[k].1,
                ) && seen[k] == rebuild_of(multi, chain, c, at[k].1)
            &&& forall|a: int, b: int| 0 <= a < b < at.len() ==> at[a].1 < at[b].1
            &&& forall|i: int|
                0 <= i < n && #[trigger] is_replaced(multi[c].log, i) ==> at.contains((c, i))
        }),
    decreases n,
{
    if n > 0 {
        origins_in_fit(multi, chain, c, (n - 1) as nat);
        replaced_means(multi[c].log, n - 1);
        let before = origins_in(multi, c, (n - 1) as nat);
        let at = origins_in(multi, c, n);
        assert forall|i: int|
            0 <= i < n && #[trigger] is_replaced(multi[c].log, i) implies at.contains((c, i)) by {
            if i < n - 1 {
                assert(before.contains((c, i)));
                let k = choose|k: int| 0 <= k < before.len() && before[k] == (c, i);
                assert(at[k] == (c, i));
            } else {
                assert(at[before.len() as int] == (c, i));
            }
        }
    }
}

proof fn origins_fit(multi: Seq<CollatorLogView>, chain: Map<u32, OnChainBlockInfoView>, n: nat)
    requires
        n <= multi.len(),
    ensures
        ({
            let at = origins(multi, n);
            let seen = rebuilds_seen(multi, chain, n);
            &&& at.len() == seen.len()
            &&& forall|k: int|
                0 <= k < at.len() ==> 0 <= (#[trigger] at[k]).0 < n && is_observed(multi, at[k])
                    && seen[k] == rebuild_of(multi, chain, at[k].0, at[k].1)
            &&& forall|a: int, b: int|
                0 <= a < b < at.len() ==> comes_first(#[trigger] at[a], #[trigger] at[b])
            &&& forall|o: (int, int)|
                #[trigger] is_observed(multi, o) && o.0 < n ==> at.contains(o)
        }),
    decreases n,
{
    if n > 0 {
        let m = (n - 1) as nat;
        let c = n - 1;
        origins_fit(multi, chain, m);
        origins_in_fit(multi, chain, c, multi[c].log.para_imports.len());
        let before = origins(multi, m);
        let mine = origins_in(multi, c, multi[c].log.para_imports.len());
        let at = origins(multi, n);
        assert forall|k: int| 0 <= k < at.len() implies 0 <= (#[trigger] at[k]).0 < n
            && is_observed(multi, at[k]) && rebuilds_seen(multi, chain, n)[k] == rebuild_of(
            multi,
            chain,
            at[k].0,
            at[k].1,
        ) by {
            if k < before.len() {
                assert(at[k] == before[k]);
            } else {
                assert(at[k] == mine[k - before.len()]);
            }
        }
        assert forall|a: int, b: int| 0 <= a < b < at.len() implies comes_first(
            #[trigger] at[a],
            #[trigger] at[b],
        ) by {
            if b < before.len() {
                assert(at[a] == before[a] && at[b] == before[b]);
            } else {
                assert(at[b] == mine[b - before.len()]);
                if a < before.len() {
                    assert(at[a] == before[a]);
                    assert(before[a].0 < m);
                } else {
                    assert(at[a] == mine[a - before.len()]);
                }
            }
        }
        assert forall|o: (int, int)| #[trigger] is_observed(multi, o) && o.0 < n implies at.contains(
            o,
        ) by {
            if o.0 < m {
                assert(before.contains(o));
                let k = choose|k: int| 0 <= k < before.len() && before[k] == o;
                assert(at[k] == o);
            } else {
                assert(is_replaced(multi[c].log, o.1));
                assert(mine.contains((c, o.1)));
                let k = choose|k: int| 0 <= k < mine.len() && mine[k] == (c, o.1);
                assert(at[before.len() + k] == o);
            }
        }
    }
}

spec fn is_new(registry: RegistryView, s: Seq<RebuildEventView>, i: int) -> bool {
    !exists|k: int| 0 <= k < i && same_rebuild(registry, #[trigger] s[k], s[i])
}

proof fn kept_are_picked(registry: RegistryView, s: Seq<RebuildEventView>, n: nat)
    ensures
        ({
            let at = picked(n, |i: int| is_new(registry, s, i));
            let kept = without_repeats(registry, s, n);
            &&& at.len() == kept.len()
            &&& forall|k: int| 0 <= k < at.len() ==> #[trigger] kept[k] == s[at[k]]
        }),
    decreases n,
{
    if n > 0 {
        kept_are_picked(registry, s, (n - 1) as nat);
    }
}

/// Whether `e` tells of the import at `o`, and no import before it shows the same two blocks.
pub open spec fn tells_of_first(
    multi: Seq<CollatorLogView>,
    chain: Map<u32, OnChainBlockInfoView>,
    o: (int, int),
    e: RebuildEventView,
) -> bool {
    &&& is_observed(multi, o)
    &&& exists|f: int| #[trigger]
        is_first_best(multi[o.0].log, multi[o.0].log.para_imports[o.1].block_number, f)
            && tells_of_imports(multi, chain, o.0, o.1, f, e) && forall|p: (int, int), g: int|
            #![trigger is_first_best(multi[p.0].log, multi[p.0].log.para_imports[p.1].block_number, g)]
            is_observed(multi, p) && is_first_best(
                multi[p.0].log,
                multi[p.0].log.para_imports[p.1].block_number,
                g,
            ) && show_same_blocks(multi, o, f, p, g) ==> p == o || comes_first(o, p)
}

/// Each rebuild tells of an import that was replaced, at the first collator and place where those
/// two blocks show. The rebuilds are ordered by block number and, of one number, by that place.
pub proof fn rebuilds_tell_of_imports(
    multi: Seq<CollatorLogView>,
    chain: Map<u32, OnChainBlockInfoView>,
)
    ensures
        exists|at: Seq<(int, int)>|
            {
                let kept = rebuilds_of(multi, chain);
                &&& #[trigger] at.len() == kept.len()
                &&& forall|k: int|
                    0 <= k < kept.len() ==> tells_of_first(multi, chain, at[k], #[trigger] kept[k])
                &&& forall|a: int, b: int|
                    0 <= a < b < kept.len() ==> (#[trigger] kept[a]).block_number < (
                    #[trigger] kept[b]).block_number || kept[a].block_number
                        == kept[b].block_number && comes_first(at[a], at[b])
            },
{
    let registry = whole_registry(multi);
    let n = multi.len();
    let seen = rebuilds_seen(multi, chain, n);
    let from = origins(multi, n);
    let keys = rebuild_numbers(seen);
    let order = sort_order(keys);
    let all = by_number(seen);
    let ok = |i: int| is_new(registry, all, i);
    let pick = picked(all.len(), ok);
    let kept = rebuilds_of(multi, chain);
    origins_fit(multi, chain, n);
    sort_order_is_stable(keys);
    picked_selects(all.len(), ok);
    kept_are_picked(registry, all, all.len());
    let at = Seq::new(kept.len(), |k: int| from[order[pick[k]]]);
    assert forall|k: int| 0 <= k < kept.len() implies tells_of_first(
        multi,
        chain,
        at[k],
        #[trigger] kept[k],
    ) by {
        let p = pick[k];
        assert(0 <= p < all.len() && ok(p));
        let q = order[p];
        assert(0 <= q < seen.len());
        let o = from[q];
        let log = multi[o.0].log;
        let number = log.para_imports[o.1].block_number;
        assert(kept[k] == all[p] && all[p] == seen[q]);
        assert(seen[q] == rebuild_of(multi, chain, o.0, o.1));
        assert(is_observed(multi, o));
        rebuild_tells(multi, chain, o.0, o.1);
        let f = first_best(log, number)->0;
        assert(is_first_best(log, number, f));
        assert forall|r: (int, int), g: int|
            #![trigger is_first_best(multi[r.0].log, multi[r.0].log.para_imports[r.1].block_number, g)]
            is_observed(multi, r) && is_first_best(
                multi[r.0].log,
                multi[r.0].log.para_imports[r.1].block_number,
                g,
            ) && show_same_blocks(multi, o, f, r, g) implies r == o || comes_first(o, r) by {
            assert(from.contains(r));
            let t = choose|t: int| 0 <= t < from.len() && from[t] == r;
            assert(seen[t] == rebuild_of(multi, chain, r.0, r.1));
            rebuild_tells(multi, chain, r.0, r.1);
            let h = first_best(
                multi[r.0].log,
                multi[r.0].log.para_imports[r.1].block_number,
            )->0;
            assert(h == g) by {
                let l = multi[r.0].log;
                if h < g {
                    assert(l.para_imports[h].block_number == l.para_imports[r.1].block_number);
                }
                if g < h {
                    assert(l.para_imports[g].block_number == l.para_imports[r.1].block_number);
                }
            }
            assert(same_rebuild(registry, seen[t], seen[q]));
            assert(order.contains(t));
            let u = choose|u: int| 0 <= u < order.len() && order[u] == t;
            assert(all[u] == seen[t]);
            if u < p {
                assert(same_rebuild(registry, all[u], all[p]));
                assert(false);
            }
            if u > p {
                assert(keys[order[p]] == keys[order[u]]);
                assert(order[p] < order[u]);
                assert(comes_first(from[q], from[t]));
            }
        }
    }
    assert forall|a: int, b: int| 0 <= a < b < kept.len() implies (
    #[trigger] kept[a]).block_number < (#[trigger] kept[b]).block_number || kept[a].block_number
        == kept[b].block_number && comes_first(at[a], at[b]) by {
        let (p, q) = (pick[a], pick[b]);
        assert(p < q);
        assert(0 <= p < all.len() && 0 <= q < all.len());
        assert(kept[a] == all[p] && kept[b] == all[q]);
        assert(0 <= order[p] < seen.len() && 0 <= order[q] < seen.len());
        assert(all[p] == seen[order[p]] && all[q] == seen[order[q]]);
        if kept[a].block_number == kept[b].block_number {
            assert(keys[order[p]] == keys[order[q]]);
            assert(order[p] < order[q]);
            assert(comes_first(from[order[p]], from[order[q]]));
        } else {
            assert(keys[order[p]] <= keys[order[q]]);
        }
    }
    assert(at.len() == kept.len());
}

/// Every import that is not best, at a height where an earlier or a later import is, gives a
/// rebuild: of its block, with the first best one of that height.
pub proof fn replaced_imports_are_told(
    multi: Seq<CollatorLogView>,
    chain: Map<u32, OnChainBlockInfoView>,
    c: int,
    i: int,
    f: int,
)
    requires
        0 <= c < multi.len(),
        is_replaced(multi[c].log, i),
        is_first_best(multi[c].log, multi[c].log.para_imports[i].block_number, f),
    ensures
        exists|k: int|
            {
                let e = #[trigger] rebuilds_of(multi, chain)[k];
                let registry = whole_registry(multi);
                &&& 0 <= k < rebuilds_of(multi, chain).len()
                &&& e.block_number == multi[c].log.para_imports[i].block_number
                &&& resolved_key(e.block_hash_rebuilt, registry) == resolved_key(
                    multi[c].log.para_imports[i].block_hash,
                    registry,
                )
                &&& resolved_key(e.block_hash_best, registry) == resolved_key(
                    multi[c].log.para_imports[f].block_hash,
                    registry,
                )
            },
{
    let registry = whole_registry(multi);
    let n = multi.len();
    origins_fit(multi, chain, n);
    let from = origins(multi, n);
    let seen = rebuilds_seen(multi, chain, n);
    assert(is_observed(multi, (c, i)));
    assert(from.contains((c, i)));
    let t = choose|t: int| 0 <= t < from.len() && from[t] == (c, i);
    assert(seen[t] == rebuild_of(multi, chain, c, i));
    let log = multi[c].log;
    let number = log.para_imports[i].block_number;
    replaced_means(log, i);
    let h = first_best(log, number)->0;
    assert(h == f) by {
        if h < f {
            assert(log.para_imports[h].block_number == number);
        }
        if f < h {
            assert(log.para_imports[f].block_number == number);
        }
    }
    crate::rebuilds::rebuilds_are_distinct(multi, chain);
    let kept = rebuilds_of(multi, chain);
    assert(crate::rebuilds::has_rebuild(registry, kept, seen[t]));
    let k = choose|k: int| 0 <= k < kept.len() && same_rebuild(registry, #[trigger] kept[k], seen[t]);
    assert(kept[k].block_number == number);
}

/// The analysis across collators tells of every collator in the order of the logs, of the rebuilds, of
/// the slot boundaries and of the duplicates.
pub proof fn analysis_has_every_part(
    multi: Seq<CollatorLogView>,
    chain: Map<u32, OnChainBlockInfoView>,
)
    ensures
        ({
            let m = crate::rebuilds::rebuild_analysis(multi, chain);
            &&& m.per_collator.len() == multi.len()
            &&& forall|c: int|
                0 <= c < multi.len() ==> (#[trigger] m.per_collator[c]).name == multi[c].name
                    && m.per_collator[c].blocks_built == multi[c].log.pre_sealed.len() as usize
            &&& m.rebuilds == rebuilds_of(multi, chain)
            &&& m.slot_boundary_analysis == Some(crate::slot_boundaries::slot_analysis(multi))
            &&& m.duplicate_blocks_same_rp == crate::duplicates::duplicates_of(multi)
        }),
{
}

} // verus!
