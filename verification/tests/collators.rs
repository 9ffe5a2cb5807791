use block_confidence_monitor::chain_client::compute_block_hash_from_head_data;
use block_confidence_monitor::hash::{text_of_hash, LogHash};
use block_confidence_monitor::logs::MultiCollatorLogs;
use block_confidence_monitor::rebuilds::{analyze_rebuilds, classify_rebuild_cause};
use block_confidence_monitor::slot_boundaries::{analyze_slot_boundaries, build_height};
use block_confidence_monitor::time::Timestamp;
use block_confidence_monitor::types::{
    BuildAttempt, CollationExpired, OnChainBlockInfo, OnChainWinner, ParaBlockImport,
    ParaCandidateEvent, ParsedLog, PreSealedBlock, RebuildCause, RelayBlockImport,
};
use parity_scale_codec::Encode;
use std::collections::BTreeMap;

fn at(millis: i64) -> Timestamp {
    Timestamp::from_millis(millis).unwrap()
}

fn whole(hash: &[u8; 32]) -> LogHash {
    LogHash::from_full(&text_of_hash(hash))
}

fn attempt(height: u32, rp: u32, slot: u64, millis: i64) -> BuildAttempt {
    BuildAttempt {
        building: true,
        unincluded_segment_len: 2,
        relay_parent: whole(&[1; 32]),
        relay_parent_num: rp,
        relay_parent_offset: None,
        included_hash: whole(&[2; 32]),
        included_num: height - 3,
        parent: whole(&[3; 32]),
        slot,
        timestamp: at(millis),
    }
}

fn seal(number: u32, hash: &[u8; 32], millis: i64) -> PreSealedBlock {
    PreSealedBlock {
        block_number: number,
        post_hash: whole(hash),
        pre_hash: whole(&[0; 32]),
        timestamp: at(millis),
    }
}

fn import(number: u32, raw: &str, is_best: bool, millis: i64) -> ParaBlockImport {
    ParaBlockImport {
        block_number: number,
        parent_hash: LogHash::from_auto("0xpppp…pppp"),
        block_hash: LogHash::from_auto(raw),
        timestamp: at(millis),
        is_best,
        collator: None,
    }
}

fn head(number: u32, salt: u8) -> Vec<u8> {
    let mut h = vec![salt; 32];
    h.extend(parity_scale_codec::Compact(number).encode());
    h
}

fn hash_of(number: u32, salt: u8) -> [u8; 32] {
    compute_block_hash_from_head_data(&head(number, salt))
}

fn truncated(h: &[u8; 32]) -> String {
    let t = text_of_hash(h);
    format!("{}…{}", &t[..6], &t[62..])
}

fn info(number: u32, heads: Vec<Vec<u8>>) -> (u32, OnChainBlockInfo) {
    let candidates = heads
        .into_iter()
        .map(|h| ParaCandidateEvent {
            para_id: 1,
            relay_parent: None,
            core_index: None,
            group_index: None,
            para_head_data: Some(h),
        })
        .collect();
    (
        number,
        OnChainBlockInfo {
            block_number: number,
            block_hash: [number as u8; 32],
            session_index: 1,
            backed_para_candidates: vec![],
            included_para_candidates: candidates,
            claim_queue_cores: vec![],
        },
    )
}

/// Collator "a" builds 100 and 101 in slot 7; collator "b" builds 101 again in slot 8, which wins.
fn two_collators() -> MultiCollatorLogs {
    let (a100, a101, b101) = (hash_of(100, 1), hash_of(101, 1), hash_of(101, 2));
    let mut a = ParsedLog::new();
    a.build_attempts = vec![attempt(100, 50, 7, 1_000), attempt(101, 50, 7, 1_500)];
    a.pre_sealed = vec![seal(100, &a100, 1_100), seal(101, &a101, 1_600)];
    a.para_imports = vec![
        import(100, &truncated(&a100), true, 1_150),
        import(101, &truncated(&a101), true, 1_650),
        import(101, &truncated(&b101), false, 1_900),
    ];
    for h in [&a100, &a101] {
        a.hash_registry.register_full(&text_of_hash(h));
    }
    let mut b = ParsedLog::new();
    b.build_attempts = vec![attempt(101, 52, 8, 1_550)];
    b.pre_sealed = vec![seal(101, &b101, 1_700)];
    b.para_imports = vec![
        import(101, &truncated(&a101), true, 1_660),
        import(101, &truncated(&b101), false, 1_950),
    ];
    b.hash_registry.register_full(&text_of_hash(&b101));
    let mut multi = MultiCollatorLogs::new();
    multi.insert("b".to_string(), b);
    multi.insert("a".to_string(), a);
    multi
}

#[test]
fn rebuilds_are_attributed() {
    let multi = two_collators();
    let chain: BTreeMap<u32, OnChainBlockInfo> =
        vec![info(49, vec![]), info(51, vec![]), info(52, vec![head(101, 2)]), info(53, vec![])]
            .into_iter()
            .collect();
    let analysis = analyze_rebuilds(&multi, &chain);
    assert_eq!(analysis.rebuilds.len(), 1);
    let r = &analysis.rebuilds[0];
    assert_eq!(r.block_number, 101);
    assert_eq!(r.best_collator.as_deref(), Some("a"));
    assert_eq!(r.rebuilt_collator.as_deref(), Some("b"));
    assert_eq!(r.observer, "a");
    assert_eq!((r.best_relay_parent, r.rebuilt_relay_parent), (Some(50), Some(52)));
    assert_eq!((r.best_slot, r.rebuilt_slot), (Some(7), Some(8)));
    assert_eq!(
        r.cause,
        RebuildCause::SlotBoundaryOverlap { outgoing_slot: 7, incoming_slot: 8 }
    );
    assert_eq!(r.on_chain_winner, OnChainWinner::Replacement);
    assert_eq!((r.best_timestamp, r.rebuilt_timestamp), (at(1_650), at(1_900)));
    assert_eq!(r.parent_hash_best.raw, "0xpppp…pppp");
    let between: Vec<u32> = r.relay_block_sequence.iter().map(|i| i.block_number).collect();
    assert_eq!(between, vec![51, 52]);
}

#[test]
fn the_original_can_win() {
    let chain: BTreeMap<u32, OnChainBlockInfo> =
        vec![info(52, vec![head(101, 1), head(101, 2)])].into_iter().collect();
    let analysis = analyze_rebuilds(&two_collators(), &chain);
    assert_eq!(analysis.rebuilds[0].on_chain_winner, OnChainWinner::OriginalBest);
    let analysis = analyze_rebuilds(&two_collators(), &BTreeMap::new());
    assert_eq!(analysis.rebuilds[0].on_chain_winner, OnChainWinner::Unknown);
    assert!(analysis.rebuilds[0].relay_block_sequence.is_empty());
}

#[test]
fn authorship_is_counted() {
    let analysis = analyze_rebuilds(&two_collators(), &BTreeMap::new());
    let stats: Vec<(&str, usize, usize, usize, i128, u128)> = analysis
        .per_collator
        .iter()
        .map(|s| {
            (
                s.name.as_str(),
                s.blocks_built,
                s.blocks_won,
                s.blocks_lost,
                s.win_rate.num,
                s.win_rate.den,
            )
        })
        .collect();
    assert_eq!(stats, vec![("a", 2, 2, 0, 2, 2), ("b", 1, 0, 1, 0, 1)]);
    let mut empty = MultiCollatorLogs::new();
    empty.insert("x".to_string(), ParsedLog::new());
    let analysis = analyze_rebuilds(&empty, &BTreeMap::new());
    assert_eq!((analysis.per_collator[0].win_rate.num, analysis.per_collator[0].win_rate.den), (0, 1));
    assert!(analysis.rebuilds.is_empty());
    assert!(analysis.slot_boundary_analysis.is_some());
}

#[test]
fn rebuilds_are_ordered_and_listed_once() {
    let mut log = ParsedLog::new();
    log.para_imports = vec![
        import(9, "0x99", true, 1),
        import(9, "0x98", false, 2),
        import(5, "0x55", true, 3),
        import(5, "0x54", false, 4),
        import(5, "0x54", false, 5),
        import(5, "0x53", false, 6),
        import(4, "0x44", false, 7),
    ];
    let mut multi = MultiCollatorLogs::new();
    multi.insert("x".to_string(), log);
    let analysis = analyze_rebuilds(&multi, &BTreeMap::new());
    let seen: Vec<(u32, &str)> =
        analysis.rebuilds.iter().map(|r| (r.block_number, r.block_hash_rebuilt.raw.as_str())).collect();
    assert_eq!(seen, vec![(5, "0x54"), (5, "0x53"), (9, "0x98")]);
    assert_eq!(analysis.rebuilds[0].cause, RebuildCause::Unknown);
    assert_eq!(analysis.rebuilds[0].best_collator, None);
}

#[test]
fn expired_collations_of_a_rebuild() {
    let mut multi = two_collators();
    let mut c = ParsedLog::new();
    c.collation_expired = vec![CollationExpired {
        collation_state: "created".to_string(),
        relay_parent_num: 50,
        relay_parent_hash: whole(&[1; 32]),
        age: None,
        head: None,
        candidate_hash: None,
        timestamp: at(1),
        produced_at: None,
        advertised_at: None,
        fetched_at: None,
        advertised_to_peers: vec![],
    }];
    multi.insert("c".to_string(), c);
    let analysis = analyze_rebuilds(&multi, &BTreeMap::new());
    assert_eq!(analysis.rebuilds[0].collation_expired.len(), 1);
}

#[test]
fn causes_of_rebuilds() {
    let name = |s: &str| Some(s.to_string());
    let overlap = |o, i| RebuildCause::SlotBoundaryOverlap { outgoing_slot: o, incoming_slot: i };
    let newer = |o, n| RebuildCause::NewerRelayParent { old_rp: o, new_rp: n };
    let c = classify_rebuild_cause;
    assert_eq!(c(&name("a"), &name("b"), Some(1), Some(2), Some(9), Some(8)), overlap(8, 9));
    assert_eq!(c(&name("a"), &name("a"), Some(5), Some(3), Some(8), Some(8)), newer(3, 5));
    assert_eq!(c(&name("a"), &name("a"), Some(10), Some(12), Some(5), Some(6)), newer(10, 12));
    assert_eq!(c(&name("a"), &name("a"), Some(12), Some(10), Some(6), Some(5)), newer(10, 12));
    assert_eq!(c(&name("a"), &name("a"), Some(10), Some(10), Some(5), Some(6)), overlap(5, 6));
    assert_eq!(c(&name("a"), &name("a"), None, Some(10), Some(5), Some(6)), overlap(5, 6));
    assert_eq!(c(&None, &None, Some(10), Some(12), Some(5), Some(6)), overlap(5, 6));
    assert_eq!(c(&None, &None, Some(3), Some(3), Some(8), Some(8)), RebuildCause::Unknown);
    assert_eq!(c(&name("a"), &name("b"), Some(3), Some(4), None, Some(8)), overlap(0, 0));
    assert_eq!(c(&name("a"), &name("a"), Some(4), Some(3), None, None), newer(3, 4));
    assert_eq!(c(&name("a"), &None, Some(4), Some(3), None, None), newer(3, 4));
    assert_eq!(c(&name("a"), &name("b"), Some(3), Some(3), None, None), RebuildCause::Unknown);
    assert_eq!(c(&name("a"), &name("b"), None, Some(3), None, None), RebuildCause::Unknown);
    assert_eq!(
        c(&name("b"), &name("a"), Some(2), Some(1), Some(8), Some(9)),
        c(&name("a"), &name("b"), Some(1), Some(2), Some(9), Some(8))
    );
}

#[test]
fn slots_meet_at_boundaries() {
    let multi = two_collators();
    assert_eq!(build_height(&attempt(101, 1, 1, 1)), 101);
    let a = analyze_slot_boundaries(&multi);
    assert_eq!(a.boundaries.len(), 1);
    let b = &a.boundaries[0];
    assert_eq!((b.outgoing_slot, b.incoming_slot), (7, 8));
    assert_eq!((b.outgoing_collator.as_str(), b.incoming_collator.as_str()), ("a", "b"));
    assert_eq!((b.outgoing_seal_time, b.incoming_build_time), (at(1_600), at(1_550)));
    assert_eq!(b.propagation_gap_ms, -50);
    assert_eq!(b.overlap_count, 1);
    assert_eq!((b.outgoing_rp, b.incoming_rp), (50, 52));
    assert_eq!((a.boundaries_with_overlap, a.boundaries_without_overlap), (1, 0));
    assert_eq!((a.avg_overlap_count.num, a.avg_overlap_count.den), (1, 1));
    assert_eq!(a.max_overlap_count, 1);
    assert_eq!(a.relay_parent_gaps, 1);
}

#[test]
fn gaps_are_aggregated() {
    let mut a = ParsedLog::new();
    let mut b = ParsedLog::new();
    a.build_attempts = vec![
        attempt(10, 1, 1, 0),
        attempt(30, 3, 3, 20_000),
        attempt(31, 3, 3, 20_100),
        attempt(50, 5, 5, 40_000),
    ];
    a.pre_sealed = vec![seal(10, &[1; 32], 500), seal(30, &[2; 32], 24_000)];
    b.build_attempts =
        vec![attempt(20, 2, 2, 10_000), attempt(40, 4, 4, 30_000), attempt(41, 9, 5, 40_000)];
    b.pre_sealed = vec![seal(20, &[3; 32], 10_010)];
    let mut multi = MultiCollatorLogs::new();
    multi.insert("a".to_string(), a);
    multi.insert("b".to_string(), b);
    let s = analyze_slot_boundaries(&multi);
    let gaps: Vec<i64> = s.boundaries.iter().map(|b| b.propagation_gap_ms).collect();
    assert_eq!(gaps, vec![9_500, 9_990, 6_000, 10_000]);
    assert_eq!(s.boundaries[3].incoming_collator, "a");
    assert_eq!((s.avg_propagation_gap_ms.num, s.avg_propagation_gap_ms.den), (35_490, 4));
    assert_eq!(s.median_propagation_gap_ms, 9_990);
    assert_eq!((s.min_propagation_gap_ms, s.max_propagation_gap_ms), (6_000, 10_000));
    assert_eq!((s.boundaries_with_overlap, s.boundaries_without_overlap), (0, 4));
    assert_eq!((s.avg_overlap_count.num, s.avg_overlap_count.den), (0, 1));
    assert_eq!(s.relay_parent_gaps, 0);
}

#[test]
fn no_boundaries_within_one_collator() {
    let mut a = ParsedLog::new();
    a.build_attempts = vec![attempt(10, 1, 1, 0), attempt(11, 1, 2, 100)];
    let mut multi = MultiCollatorLogs::new();
    multi.insert("a".to_string(), a);
    let s = analyze_slot_boundaries(&multi);
    assert!(s.boundaries.is_empty());
    assert_eq!((s.avg_propagation_gap_ms.num, s.avg_propagation_gap_ms.den), (0, 1));
    assert_eq!(s.median_propagation_gap_ms, 0);
    assert_eq!(s.max_overlap_count, 0);
}

#[test]
fn duplicates_are_found() {
    let clean = analyze_rebuilds(&two_collators(), &BTreeMap::new());
    assert!(clean.duplicate_blocks_same_rp.is_empty());
    let mut multi = two_collators();
    let mut c = ParsedLog::new();
    c.build_attempts = vec![attempt(101, 52, 9, 1_700)];
    c.pre_sealed = vec![seal(101, &[9; 32], 1_710), seal(101, &[8; 32], 1_720)];
    multi.insert("c".to_string(), c);
    let found = analyze_rebuilds(&multi, &BTreeMap::new()).duplicate_blocks_same_rp;
    assert_eq!(found.len(), 1);
    assert_eq!((found[0].block_number, found[0].relay_parent_num), (101, 52));
    let producers: Vec<(&str, u64, Timestamp)> =
        found[0].producers.iter().map(|p| (p.collator.as_str(), p.slot, p.timestamp)).collect();
    assert_eq!(producers, vec![("b", 8, at(1_700)), ("c", 9, at(1_710))]);
}

#[test]
fn ranges_over_all_collators() {
    let mut multi = MultiCollatorLogs::new();
    assert_eq!(multi.relay_block_range(), None);
    assert_eq!(multi.time_range(), None);
    multi.insert("empty".to_string(), ParsedLog::new());
    assert_eq!(multi.relay_block_range(), None);
    for (name, number) in [("x", 7u32), ("y", 3)] {
        let mut log = ParsedLog::new();
        log.relay_imports = vec![RelayBlockImport {
            block_number: number,
            parent_hash: whole(&[0; 32]),
            block_hash: whole(&[0; 32]),
            timestamp: at(number as i64 * 10),
        }];
        multi.insert(name.to_string(), log);
    }
    assert_eq!(multi.relay_block_range(), Some((3, 7)));
    assert_eq!(multi.time_range(), Some((at(30), at(70))));
    assert_eq!(multi.collator_names(), vec!["empty", "x", "y"]);
}
