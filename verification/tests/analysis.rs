use block_confidence_monitor::built_blocks::{identify_built_blocks, BuiltBlock};
use block_confidence_monitor::drops::{
    classify_drop, detect_and_classify_drops, detect_n_cores, known_blocks_between,
    relay_blocks_to_query,
};
use block_confidence_monitor::hash::{text_of_hash, LogHash};
use block_confidence_monitor::time::Timestamp;
use block_confidence_monitor::types::{
    AdvertisedCandidate, BuildAttempt, CollationExpired, CollationFetchLatency,
    CollationSubmission, DropReason, OnChainBlockInfo, ParaBlockImport, ParaCandidateEvent,
    ParsedLog, PreSealedBlock, RelayBlockImport,
};
use parity_scale_codec::Encode;
use std::collections::BTreeMap;

fn at(millis: i64) -> Timestamp {
    Timestamp::from_millis(millis).unwrap()
}

fn whole(n: u8) -> LogHash {
    LogHash::from_full(&text_of_hash(&[n; 32]))
}

fn attempt(rp: u32, millis: i64) -> BuildAttempt {
    BuildAttempt {
        building: true,
        unincluded_segment_len: 1,
        relay_parent: whole(rp as u8),
        relay_parent_num: rp,
        relay_parent_offset: Some(1),
        included_hash: whole(200),
        included_num: 98,
        parent: whole(201),
        slot: 7,
        timestamp: at(millis),
    }
}

fn seal(number: u32, hash: u8, millis: i64) -> PreSealedBlock {
    PreSealedBlock {
        block_number: number,
        post_hash: whole(hash),
        pre_hash: whole(0),
        timestamp: at(millis),
    }
}

fn submission(number: u32, hash: u8, core: u32) -> CollationSubmission {
    CollationSubmission {
        core_index: core,
        hash: whole(hash),
        block_number: number,
        timestamp: at(0),
    }
}

fn relay_import(number: u32) -> RelayBlockImport {
    RelayBlockImport {
        block_number: number,
        parent_hash: whole(0),
        block_hash: whole(0),
        timestamp: at(number as i64),
    }
}

fn built(number: u32, rp: u32) -> BuiltBlock {
    BuiltBlock {
        block_number: number,
        block_hash: whole(1),
        parent_hash: whole(2),
        relay_parent_num: rp,
        relay_parent_hash: whole(rp as u8),
        built_at: at(5),
        collation_fetch_latency_ms: None,
        relay_parent_offset: None,
    }
}

fn candidate(number: u32) -> ParaCandidateEvent {
    let mut head = vec![0u8; 32];
    head.extend(parity_scale_codec::Compact(number).encode());
    ParaCandidateEvent {
        para_id: 1,
        relay_parent: None,
        core_index: None,
        group_index: None,
        para_head_data: Some(head),
    }
}

fn info(number: u32, included: Vec<u32>) -> OnChainBlockInfo {
    OnChainBlockInfo {
        block_number: number,
        block_hash: [number as u8; 32],
        session_index: 1,
        backed_para_candidates: vec![],
        included_para_candidates: included.into_iter().map(candidate).collect(),
        claim_queue_cores: vec![],
    }
}

fn chain(infos: Vec<OnChainBlockInfo>) -> BTreeMap<u32, OnChainBlockInfo> {
    infos.into_iter().map(|i| (i.block_number, i)).collect()
}

#[test]
fn the_nearest_decision_is_taken() {
    let mut log = ParsedLog::new();
    log.pre_sealed = vec![seal(100, 1, 10_000)];
    log.build_attempts = vec![attempt(50, 8_500), attempt(51, 9_900), attempt(52, 10_100)];
    let found = identify_built_blocks(&log);
    assert_eq!(found.len(), 1);
    assert_eq!(found[0].relay_parent_num, 51);
    assert_eq!(found[0].relay_parent_offset, Some(1));
    assert_eq!(found[0].block_hash.full, Some([1; 32]));
    assert_eq!(found[0].parent_hash.raw, "");
    assert_eq!(found[0].built_at, at(10_000));
}

#[test]
fn a_submitted_block_takes_the_first_decision() {
    let mut log = ParsedLog::new();
    log.pre_sealed = vec![seal(100, 1, 10_000)];
    log.build_attempts = vec![attempt(49, 7_999), attempt(50, 8_500), attempt(51, 9_900)];
    log.collation_submissions = vec![submission(100, 9, 0), submission(100, 1, 0)];
    assert_eq!(identify_built_blocks(&log)[0].relay_parent_num, 50);
    log.collation_submissions = vec![submission(100, 1, 0), submission(100, 9, 0)];
    assert_eq!(identify_built_blocks(&log)[0].relay_parent_num, 51);
}

#[test]
fn seals_without_a_decision() {
    let mut log = ParsedLog::new();
    let mut idle = attempt(50, 10_000);
    idle.building = false;
    log.build_attempts = vec![idle, attempt(51, 12_001), attempt(52, 7_999)];
    log.pre_sealed = vec![seal(100, 1, 10_000)];
    let found = identify_built_blocks(&log);
    assert_eq!(found[0].relay_parent_num, 0);
    assert_eq!(found[0].relay_parent_hash.raw, "unknown");
    assert_eq!(found[0].relay_parent_offset, None);
}

#[test]
fn latencies_parents_and_order() {
    let mut log = ParsedLog::new();
    log.pre_sealed = vec![seal(101, 2, 1), seal(100, 1, 2), seal(101, 3, 3)];
    let fetch = |hash: u8, ms: u64| CollationFetchLatency {
        latency_ms: ms,
        para_head: whole(hash),
        para_id: 1,
        timestamp: at(0),
    };
    log.collation_fetches = vec![fetch(2, 5), fetch(2, 6), fetch(9, 7)];
    log.para_imports = vec![ParaBlockImport {
        block_number: 100,
        parent_hash: whole(77),
        block_hash: whole(1),
        timestamp: at(0),
        is_best: true,
        collator: None,
    }];
    let found = identify_built_blocks(&log);
    let hashes: Vec<Option<[u8; 32]>> = found.iter().map(|b| b.block_hash.full).collect();
    assert_eq!(hashes, vec![Some([1; 32]), Some([2; 32]), Some([3; 32])]);
    assert_eq!(found[1].collation_fetch_latency_ms, Some(6));
    assert_eq!(found[0].collation_fetch_latency_ms, None);
    assert_eq!(found[0].parent_hash.full, Some([77; 32]));
}

#[test]
fn blocks_to_query() {
    assert_eq!(relay_blocks_to_query(&vec![built(1, 10)], 1), vec![9, 10, 11, 12, 13]);
    assert_eq!(relay_blocks_to_query(&vec![built(1, 0)], 0), vec![0, 1, 2]);
    assert_eq!(
        relay_blocks_to_query(&vec![built(1, 20), built(1, 18)], 0),
        vec![17, 18, 19, 20, 21, 22]
    );
    assert_eq!(relay_blocks_to_query(&vec![built(1, u32::MAX)], 3), vec![u32::MAX - 1, u32::MAX]);
    assert!(relay_blocks_to_query(&vec![], 3).is_empty());
}

#[test]
fn known_blocks_in_a_range() {
    let top = u32::MAX;
    let c = chain(vec![info(5, vec![]), info(7, vec![]), info(9, vec![]), info(top, vec![])]);
    let numbers = |from, to| -> Vec<u32> {
        known_blocks_between(&c, from, to).iter().map(|i| i.block_number).collect()
    };
    assert_eq!(numbers(5, 8), vec![5, 7]);
    assert_eq!(numbers(6, 2000), vec![7, 9]);
    assert_eq!(numbers(top as u64 - 9, u64::MAX), vec![top]);
    assert!(numbers(8, 6).is_empty());
    assert!(numbers(1 << 40, 1 << 41).is_empty());
}

#[test]
fn reasons_for_drops() {
    let log = ParsedLog::new();
    let c = chain(vec![info(50, vec![])]);
    let boundary = vec![(53, 4, 5), (52, 6, 7)];
    match classify_drop(&built(1, 50), &c, &boundary, 3, &log) {
        DropReason::SessionBoundary { session_before, session_after, boundary_relay_block } => {
            assert_eq!((session_before, session_after, boundary_relay_block), (4, 5, 53));
        },
        _ => panic!(),
    }
    for (rp, hit) in [(50, true), (53, false), (49, true), (48, false)] {
        let r = classify_drop(&built(1, rp), &chain(vec![]), &vec![(53, 4, 5)], 3, &log);
        assert_eq!(matches!(r, DropReason::SessionBoundary { .. }), hit);
    }
    let mut forked = built(1, 50);
    forked.relay_parent_hash = whole(9);
    let r = classify_drop(&forked, &c, &vec![], 3, &log);
    assert!(matches!(r, DropReason::WrongFork { relay_parent_num: 50, .. }));
    assert_eq!(r.to_text(), "Built on wrong fork (RP #50)");
    let r = classify_drop(&built(1, 50), &c, &vec![], 3, &log);
    assert_eq!(r.to_text(), "Relay parent expired (RP #50, viability window 3)");
    let r = classify_drop(&forked, &chain(vec![]), &vec![], 3, &log);
    assert!(matches!(r, DropReason::Unknown));
    let text = DropReason::SessionBoundary {
        session_before: 1,
        session_after: 2,
        boundary_relay_block: 3,
    };
    assert_eq!(text.to_text(), "Session boundary (session 1 → 2 at relay block #3)");
    assert_eq!(DropReason::Unknown.to_text(), "Unknown");
}

#[test]
fn the_reason_is_unknown_without_data() {
    let log = ParsedLog::new();
    let unknown = |known: Vec<u32>, boundaries: Vec<(u32, u32, u32)>| {
        let c = chain(known.into_iter().map(|n| info(n, vec![])).collect());
        matches!(classify_drop(&built(1, 50), &c, &boundaries, 3, &log), DropReason::Unknown)
    };
    assert!(unknown(vec![], vec![]));
    assert!(unknown(vec![49, 54], vec![(55, 1, 2)]));
    assert!(!unknown(vec![], vec![(54, 1, 2)]));
    assert!(!unknown(vec![50], vec![]));
    assert!(!unknown(vec![53], vec![]));
    let top = u32::MAX;
    let c = chain(vec![info(3, vec![])]);
    let r = classify_drop(&built(1, top), &c, &vec![], 9, &log);
    assert!(matches!(r, DropReason::Unknown));
    let r = classify_drop(&built(1, top - 1), &chain(vec![info(top, vec![])]), &vec![], 9, &log);
    assert!(matches!(r, DropReason::RelayParentExpired { viability_window: 9, .. }));
}

#[test]
fn truncated_relay_parents() {
    let mut log = ParsedLog::new();
    let c = chain(vec![info(50, vec![])]);
    let mut b = built(1, 50);
    b.relay_parent_hash = LogHash::from_auto("0x3232…3232");
    assert!(matches!(
        classify_drop(&b, &c, &vec![], 3, &log),
        DropReason::RelayParentExpired { .. }
    ));
    b.relay_parent_hash = LogHash::from_auto("0x0909…0909");
    assert!(matches!(
        classify_drop(&b, &c, &vec![], 3, &log),
        DropReason::RelayParentExpired { .. }
    ));
    log.hash_registry.register_full(&text_of_hash(&[9; 32]));
    assert!(matches!(classify_drop(&b, &c, &vec![], 3, &log), DropReason::WrongFork { .. }));
}

#[test]
fn drops_are_detected_and_sorted() {
    let mut log = ParsedLog::new();
    log.relay_imports = vec![relay_import(10), relay_import(200)];
    log.collation_submissions =
        vec![submission(1, 1, 4), submission(2, 1, 9), submission(3, 1, 4)];
    let mut forked = built(103, 60);
    forked.relay_parent_hash = whole(9);
    let blocks = vec![
        built(100, 50),
        built(101, 51),
        built(102, 55),
        forked,
        built(104, 15),
        built(105, 195),
        built(106, 100),
        built(107, 150),
    ];
    let c = chain(vec![info(52, vec![100]), info(60, vec![]), info(102, vec![7]), info(103, vec![])]);
    let boundaries = vec![(57, 1, 2)];
    let a = detect_and_classify_drops(&blocks, &log, &c, &boundaries, 3);
    assert_eq!(a.total_built, 8);
    assert_eq!(a.total_included, 1);
    assert_eq!(a.total_dropped, 5);
    let numbers = |d: &Vec<block_confidence_monitor::types::DroppedBlock>| -> Vec<u32> {
        d.iter().map(|d| d.para_block_number).collect()
    };
    assert_eq!(numbers(&a.session_boundary_drops), vec![102]);
    assert_eq!(numbers(&a.relay_parent_expired_drops), vec![101, 106]);
    assert_eq!(numbers(&a.wrong_fork_drops), vec![103]);
    assert_eq!(numbers(&a.unknown_drops), vec![107]);
    assert_eq!((a.min_relay_block, a.max_relay_block), (Some(10), Some(200)));
    assert_eq!(numbers(&a.edge_of_window_drops), vec![104, 105]);
    assert_eq!(a.total_built, a.total_included + a.total_dropped + a.edge_of_window_drops.len());
    assert_eq!(a.n_cores, 2);
    assert_eq!(detect_n_cores(&ParsedLog::new()), 1);
    assert_eq!(a.time_window, (at(10), at(200)));
    let near: Vec<u32> =
        a.relay_parent_expired_drops[1].nearby_relay_blocks.iter().map(|i| i.block_number).collect();
    assert_eq!(near, vec![102, 103]);
    let (avg, min, max) = a.session_drop_stats();
    assert_eq!((avg.num, avg.den, min, max), (1, 1, 1, 1));
}

#[test]
fn edges_of_the_window() {
    let mut log = ParsedLog::new();
    log.relay_imports = vec![relay_import(100), relay_import(200)];
    let class = |rp: u32| {
        let a = detect_and_classify_drops(&vec![built(1, rp)], &log, &chain(vec![]), &vec![], 3);
        a.edge_of_window_drops.len()
    };
    assert_eq!((class(105), class(106), class(194), class(195)), (1, 0, 0, 1));
}

#[test]
fn nothing_was_built() {
    let a = detect_and_classify_drops(&vec![], &ParsedLog::new(), &chain(vec![]), &vec![], 3);
    assert_eq!((a.total_built, a.total_included, a.total_dropped), (0, 0, 0));
    assert_eq!(a.time_window, (Timestamp::epoch(), Timestamp::epoch()));
    assert_eq!((a.min_relay_block, a.max_relay_block), (None, None));
    let (avg, min, max) = a.session_drop_stats();
    assert_eq!((avg.num, avg.den, min, max), (0, 1, 0, 0));
}

#[test]
fn drops_per_session_change() {
    let mut log = ParsedLog::new();
    log.relay_imports = vec![relay_import(1), relay_import(1000)];
    let blocks = vec![built(1, 99), built(2, 98), built(3, 297), built(4, 99)];
    let boundaries = vec![(100, 1, 2), (300, 2, 3), (500, 3, 4)];
    let a = detect_and_classify_drops(&blocks, &log, &chain(vec![]), &boundaries, 3);
    assert_eq!(a.session_boundary_drops.len(), 4);
    let (avg, min, max) = a.session_drop_stats();
    assert_eq!((avg.num, avg.den, min, max), (4, 3, 0, 3));
}

#[test]
fn expired_collations_come_with_their_times() {
    let mut log = ParsedLog::new();
    log.relay_imports = vec![relay_import(1), relay_import(1000)];
    let expired = |rp: u32, head: Option<LogHash>| CollationExpired {
        collation_state: "fetched".to_string(),
        relay_parent_num: rp,
        relay_parent_hash: whole(1),
        age: Some(3),
        head,
        candidate_hash: Some(LogHash::from_auto("0xcand")),
        timestamp: at(99),
        produced_at: None,
        advertised_at: None,
        fetched_at: None,
        advertised_to_peers: vec![],
    };
    log.collation_expired = vec![expired(50, Some(whole(8))), expired(51, None), expired(50, None)];
    log.pre_sealed = vec![seal(7, 8, 11)];
    let mut sub = submission(7, 8, 0);
    sub.timestamp = at(12);
    log.collation_submissions = vec![sub];
    log.collation_fetches = vec![CollationFetchLatency {
        latency_ms: 1,
        para_head: whole(8),
        para_id: 1,
        timestamp: at(13),
    }];
    log.advertising_peers = vec![AdvertisedCandidate {
        candidate_hash: "0xcand".to_string(),
        peers: vec!["peer".to_string()],
    }];
    let a = detect_and_classify_drops(&vec![built(7, 50)], &log, &chain(vec![]), &vec![], 3);
    let e = &a.unknown_drops[0].collation_expired;
    assert_eq!(e.len(), 2);
    assert_eq!(e[0].produced_at, Some(at(11)));
    assert_eq!(e[0].advertised_at, Some(at(12)));
    assert_eq!(e[0].fetched_at, Some(at(13)));
    assert_eq!(e[0].advertised_to_peers, vec!["peer"]);
    assert_eq!(e[1].produced_at, None);
}
