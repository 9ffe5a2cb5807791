//! Expired collations, with the times of what came before.

use crate::hash::{full_hash_key, hash_key, LogHash, LogHashView};
use crate::model::{copy_texts, opt_view, views, views_push};
use crate::search::{first_where, first_where_stays};
use crate::time::Timestamp;
use crate::types::{CollationExpired, CollationExpiredView, ParsedLog, ParsedLogView};
use vstd::prelude::*;

verus! {

/// When a block was sealed.
pub open spec fn sealed_at(log: ParsedLogView, head: LogHashView) -> Option<int> {
    match first_where(
        log.pre_sealed.len(),
        |i: int| hash_key(log.pre_sealed[i].post_hash) == hash_key(head),
    ) {
        Some(i) => Some(log.pre_sealed[i].timestamp),
        None => None,
    }
}

/// When the collation of a block was submitted.
pub open spec fn submitted_at(log: ParsedLogView, head: LogHashView) -> Option<int> {
    match first_where(
        log.collation_submissions.len(),
        |i: int| hash_key(log.collation_submissions[i].hash) == hash_key(head),
    ) {
        Some(i) => Some(log.collation_submissions[i].timestamp),
        None => None,
    }
}

/// When the collation of a block was fetched.
pub open spec fn fetched_at(log: ParsedLogView, head: LogHashView) -> Option<int> {
    match first_where(
        log.collation_fetches.len(),
        |i: int| hash_key(log.collation_fetches[i].para_head) == hash_key(head),
    ) {
        Some(i) => Some(log.collation_fetches[i].timestamp),
        None => None,
    }
}

/// The peers that a candidate was advertised to.
pub open spec fn peers_of(log: ParsedLogView, candidate: Seq<char>) -> Seq<Seq<char>> {
    match first_where(
        log.advertising_peers.len(),
        |i: int| log.advertising_peers[i].candidate_hash == candidate,
    ) {
        Some(i) => log.advertising_peers[i].peers,
        None => Seq::empty(),
    }
}

/// An expired collation, with the times at which its block was sealed, submitted and fetched, and
/// with the peers that it was advertised to.
pub open spec fn enriched(log: ParsedLogView, e: CollationExpiredView) -> CollationExpiredView {
    CollationExpiredView {
        produced_at: match e.head {
            Some(h) => sealed_at(log, h),
            None => None,
        },
        advertised_at: match e.head {
            Some(h) => submitted_at(log, h),
            None => None,
        },
        fetched_at: match e.head {
            Some(h) => fetched_at(log, h),
            None => None,
        },
        advertised_to_peers: match e.candidate_hash {
            Some(c) => peers_of(log, c.raw),
            None => Seq::empty(),
        },
        ..e
    }
}

/// The expired collations on a relay parent, among the first `n`.
pub open spec fn expired_among(log: ParsedLogView, rp: u32, n: nat) -> Seq<CollationExpiredView>
    decreases n,
{
    if n == 0 {
        Seq::empty()
    } else {
        let before = expired_among(log, rp, (n - 1) as nat);
        if log.collation_expired[n - 1].relay_parent_num == rp {
            before.push(enriched(log, log.collation_expired[n - 1]))
        } else {
            before
        }
    }
}

/// The expired collations on a relay parent.
pub open spec fn expired_on(log: ParsedLogView, rp: u32) -> Seq<CollationExpiredView> {
    expired_among(log, rp, log.collation_expired.len())
}

fn find_sealed(log: &ParsedLog, head: &LogHash) -> (time: Option<Timestamp>)
    ensures
        opt_view(time) == sealed_at(log@, head@),
{
    let key = full_hash_key(head);
    let ghost ok = |i: int| hash_key(log@.pre_sealed[i].post_hash) == hash_key(head@);
    let mut i: usize = 0;
    while i < log.pre_sealed.len()
        invariant
            i <= log.pre_sealed@.len(),
            key@ == hash_key(head@),
            ok == (|i: int| hash_key(log@.pre_sealed[i].post_hash) == hash_key(head@)),
            first_where(i as nat, ok) is None,
        decreases log.pre_sealed@.len() - i,
    {
        assert(log@.pre_sealed[i as int] == log.pre_sealed@[i as int]@);
        if full_hash_key(&log.pre_sealed[i].post_hash) == key {
            proof {
                first_where_stays(log@.pre_sealed.len(), (i + 1) as nat, ok);
            }
            return Some(log.pre_sealed[i].timestamp);
        }
        i = i + 1;
    }
    None
}

fn find_submitted(log: &ParsedLog, head: &LogHash) -> (time: Option<Timestamp>)
    ensures
        opt_view(time) == submitted_at(log@, head@),
{
    let key = full_hash_key(head);
    let ghost ok = |i: int| hash_key(log@.collation_submissions[i].hash) == hash_key(head@);
    let mut i: usize = 0;
    while i < log.collation_submissions.len()
        invariant
            i <= log.collation_submissions@.len(),
            key@ == hash_key(head@),
            ok == (|i: int| hash_key(log@.collation_submissions[i].hash) == hash_key(head@)),
            first_where(i as nat, ok) is None,
        decreases log.collation_submissions@.len() - i,
    {
        assert(log@.collation_submissions[i as int] == log.collation_submissions@[i as int]@);
        if full_hash_key(&log.collation_submissions[i].hash) == key {
            proof {
                first_where_stays(log@.collation_submissions.len(), (i + 1) as nat, ok);
            }
            return Some(log.collation_submissions[i].timestamp);
        }
        i = i + 1;
    }
    None
}

fn find_fetched(log: &ParsedLog, head: &LogHash) -> (time: Option<Timestamp>)
    ensures
        opt_view(time) == fetched_at(log@, head@),
{
    let key = full_hash_key(head);
    let ghost ok = |i: int| hash_key(log@.collation_fetches[i].para_head) == hash_key(head@);
    let mut i: usize = 0;
    while i < log.collation_fetches.len()
        invariant
            i <= log.collation_fetches@.len(),
            key@ == hash_key(head@),
            ok == (|i: int| hash_key(log@.collation_fetches[i].para_head) == hash_key(head@)),
            first_where(i as nat, ok) is None,
        decreases log.collation_fetches@.len() - i,
    {
        assert(log@.collation_fetches[i as int] == log.collation_fetches@[i as int]@);
        if full_hash_key(&log.collation_fetches[i].para_head) == key {
            proof {
                first_where_stays(log@.collation_fetches.len(), (i + 1) as nat, ok);
            }
            return Some(log.collation_fetches[i].timestamp);
        }
        i = i + 1;
    }
    None
}

fn find_peers(log: &ParsedLog, candidate: &String) -> (peers: Vec<String>)
    ensures
        views(peers@) == peers_of(log@, candidate@),
{
    let ghost ok = |i: int| log@.advertising_peers[i].candidate_hash == candidate@;
    let mut i: usize = 0;
    while i < log.advertising_peers.len()
        invariant
            i <= log.advertising_peers@.len(),
            ok == (|i: int| log@.advertising_peers[i].candidate_hash == candidate@),
            first_where(i as nat, ok) is None,
        decreases log.advertising_peers@.len() - i,
    {
        assert(log@.advertising_peers[i as int] == log.advertising_peers@[i as int]@);
        if log.advertising_peers[i].candidate_hash == *candidate {
            proof {
                first_where_stays(log@.advertising_peers.len(), (i + 1) as nat, ok);
            }
            return copy_texts(&log.advertising_peers[i].peers);
        }
        i = i + 1;
    }
    let none: Vec<String> = Vec::new();
    assert(views(none@) =~= Seq::<Seq<char>>::empty());
    none
}

fn enrich(log: &ParsedLog, e: &CollationExpired) -> (full: CollationExpired)
    ensures
        full@ == enriched(log@, e@),
{
    let mut full = e.clone();
    assert(opt_view(full.head) == opt_view(e.head));
    assert(opt_view(full.candidate_hash) == opt_view(e.candidate_hash));
    full.produced_at = match &e.head {
        Some(h) => find_sealed(log, h),
        None => None,
    };
    full.advertised_at = match &e.head {
        Some(h) => find_submitted(log, h),
        None => None,
    };
    full.fetched_at = match &e.head {
        Some(h) => find_fetched(log, h),
        None => None,
    };
    full.advertised_to_peers = match &e.candidate_hash {
        Some(c) => find_peers(log, &c.raw),
        None => Vec::new(),
    };
    assert(full@ =~= enriched(log@, e@));
    full
}

/// The expired collations on a relay parent.
pub fn collations_expired_on(log: &ParsedLog, rp: u32) -> (expired: Vec<CollationExpired>)
    ensures
        views(expired@) == expired_on(log@, rp),
{
    let mut expired: Vec<CollationExpired> = Vec::new();
    assert(views(expired@) =~= Seq::<CollationExpiredView>::empty());
    let mut i: usize = 0;
    while i < log.collation_expired.len()
        invariant
            i <= log.collation_expired@.len(),
            views(expired@) == expired_among(log@, rp, i as nat),
        decreases log.collation_expired@.len() - i,
    {
        let e = &log.collation_expired[i];
        assert(log@.collation_expired[i as int] == e@);
        if e.relay_parent_num == rp {
            let full = enrich(log, e);
            proof {
                views_push(expired@, full);
            }
            expired.push(full);
        }
        i = i + 1;
    }
    expired
}

} // verus!
