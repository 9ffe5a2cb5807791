use block_confidence_monitor::hash::text_of_hash;
use block_confidence_monitor::log_parser::{
    add_expired, add_import, is_log_file, line_kind, parse_log, parse_log_dir, parse_timestamp,
    LineKind, LogDirError, LogFile,
};
use block_confidence_monitor::patterns::{patterns, Patterns};
use block_confidence_monitor::time::Timestamp;
use block_confidence_monitor::types::ParsedLog;

fn hash(n: u8) -> String {
    text_of_hash(&[n; 32])
}

fn at(message: &str) -> String {
    format!("2026-03-17T11:00:34Z 2026-03-17 11:00:34.007  INFO {}\n", message)
}

fn all_patterns() -> Patterns {
    patterns().expect("the patterns compile")
}

fn parse(messages: &[String]) -> ParsedLog {
    let lines: Vec<String> = messages.iter().map(|m| at(m)).collect();
    parse_log(&lines, 3428, &all_patterns())
}

fn time() -> Timestamp {
    Timestamp::from_millis(1_773_745_234_007).unwrap()
}

#[test]
fn kinds_of_lines() {
    assert_eq!(line_kind("x Imported #12"), LineKind::Import);
    assert_eq!(line_kind("Not building block. Building block."), LineKind::NotBuilding);
    assert_eq!(line_kind("Building block. x"), LineKind::Building);
    assert_eq!(line_kind("Building block. Not building"), LineKind::Other);
    assert_eq!(line_kind("Pre-sealed block for"), LineKind::PreSealed);
    assert_eq!(line_kind("Submitting collation for"), LineKind::Submission);
    assert_eq!(line_kind("Collation fetch latency is"), LineKind::FetchLatency);
    assert_eq!(line_kind("Candidate generated"), LineKind::Candidate);
    assert_eq!(line_kind("Our view updated"), LineKind::View);
    assert_eq!(line_kind("Collation expired"), LineKind::Expired);
    assert_eq!(line_kind("something else"), LineKind::Other);
}

#[test]
fn timestamps_in_lines() {
    let p = all_patterns();
    assert_eq!(parse_timestamp(&at("x"), &p), Some(time()));
    assert_eq!(parse_timestamp("no time here", &p), None);
    assert_eq!(parse_timestamp("2026-13-17 11:00:34.007", &p), None);
}

#[test]
fn best_and_other_imports() {
    let log = parse(&[
        "[Parachain] 🆕 Imported #1713770 (0xe05d…b05e → 0xaaaa…bbbb)".to_string(),
        "[Parachain] 🏆 Imported #1713769 (0xe05d…b05e → 0xd58a…29a8)".to_string(),
    ]);
    assert_eq!(log.para_imports.len(), 2);
    let first = &log.para_imports[0];
    assert_eq!(first.block_number, 1713769);
    assert!(first.is_best);
    assert_eq!(first.parent_hash.raw, "0xe05d…b05e");
    assert_eq!(first.block_hash.raw, "0xd58a…29a8");
    assert_eq!(first.block_hash.full, None);
    assert_eq!(first.timestamp, time());
    assert_eq!(first.collator, None);
    assert!(!log.para_imports[1].is_best);
    assert_eq!((log.best_imports(), log.non_best_imports()), (1, 1));
    let r = log.block_confidence();
    assert_eq!((r.num, r.den), (1, 2));
}

#[test]
fn relay_imports_register_whole_hashes() {
    let log = parse(&[format!("[Relaychain] 🏆 Imported #30400617 ({} → {})", hash(1), hash(2))]);
    assert_eq!(log.relay_imports.len(), 1);
    assert_eq!(log.relay_imports[0].block_number, 30400617);
    assert_eq!(log.relay_imports[0].block_hash.full, Some([2; 32]));
    assert_eq!(log.hash_registry.resolve("0x0101…0101"), Some([1; 32]));
    assert_eq!(log.hash_registry.resolve("0x0202…0202"), Some([2; 32]));
    assert_eq!(log.min_relay_block(), Some(30400617));
    assert_eq!(log.max_relay_block(), Some(30400617));
    assert_eq!(log.time_range(), Some((time(), time())));
    let log = parse(&["[Relaychain] 🏆 Imported #5 (0xe05d…b05e → 0xd58a…29a8)".to_string()]);
    assert_eq!(log.hash_registry.resolve("0xe05d…b05e"), None);
}

#[test]
fn decisions_not_to_build() {
    let log = parse(&[format!(
        "Not building block. unincluded_segment_len=33 relay_parent={} relay_parent_num=30400619 \
         included_hash={} included_num=1713735 parent={} slot=Slot(295627304)",
        hash(1),
        hash(2),
        hash(3)
    )]);
    assert_eq!(log.build_attempts.len(), 1);
    let ba = &log.build_attempts[0];
    assert!(!ba.building);
    assert_eq!(ba.unincluded_segment_len, 33);
    assert_eq!(ba.relay_parent.full, Some([1; 32]));
    assert_eq!(ba.relay_parent_num, 30400619);
    assert_eq!(ba.relay_parent_offset, None);
    assert_eq!(ba.included_hash.full, Some([2; 32]));
    assert_eq!(ba.included_num, 1713735);
    assert_eq!(ba.parent.full, Some([3; 32]));
    assert_eq!(ba.slot, 295627304);
    assert_eq!(log.hash_registry.resolve("0x0303…0303"), Some([3; 32]));
}

#[test]
fn decisions_to_build() {
    let log = parse(&[
        "Building block. unincluded_segment_len=38 relay_parent=0x5ec7…83e9 relay_parent_num=30400616 \
         included_hash=0xdd3c…adde included_num=1713705 parent=0x608f…580d slot=Slot(295627301)"
            .to_string(),
        "Building block. unincluded_segment_len=38 relay_parent=0x5ec7…83e9 relay_parent_num=30400616 \
         relay_parent_offset=1 included_hash=0xdd3c…adde included_num=1713705 parent=0x608f…580d \
         slot=Slot(295627301)"
            .to_string(),
    ]);
    assert_eq!(log.build_attempts.len(), 2);
    let ba = &log.build_attempts[0];
    assert!(ba.building);
    assert_eq!(ba.relay_parent_offset, Some(1));
    assert_eq!(ba.relay_parent.raw, "0x5ec7…83e9");
    assert_eq!(ba.included_num, 1713705);
    assert_eq!(ba.slot, 295627301);
    assert_eq!(log.build_attempts[1].relay_parent_offset, None);
}

#[test]
fn sealed_blocks_and_submissions() {
    let log = parse(&[
        format!("Submitting collation for core. core_index=CoreIndex(62) hash={} number=1713743", hash(7)),
        format!(
            "Pre-sealed block for proposal at 1713743. Hash now {}, previously {}",
            hash(7),
            hash(8)
        ),
    ]);
    assert_eq!(log.pre_sealed.len(), 1);
    assert_eq!(log.pre_sealed[0].block_number, 1713743);
    assert_eq!(log.pre_sealed[0].post_hash.full, Some([7; 32]));
    assert_eq!(log.pre_sealed[0].pre_hash.full, Some([8; 32]));
    assert_eq!(log.collation_submissions.len(), 1);
    assert_eq!(log.collation_submissions[0].core_index, 62);
    assert_eq!(log.collation_submissions[0].block_number, 1713743);
    assert_eq!(log.collation_submissions[0].hash.full, Some([7; 32]));
    assert_eq!(log.hash_registry.resolve("0x0808…0808"), Some([8; 32]));
}

#[test]
fn only_our_parachain_counts() {
    let log = parse(&[
        format!("Collation fetch latency is 3ms para_head={} our_para_id=3428", hash(7)),
        format!("Collation fetch latency is 4ms para_head={} our_para_id=2000", hash(9)),
        format!(
            "Candidate generated candidate_hash={} pov_hash={} relay_parent={} para_id=3428 \
             core_index=CoreIndex(62)",
            hash(4),
            hash(5),
            hash(6)
        ),
        format!(
            "Candidate generated candidate_hash={} pov_hash={} relay_parent={} para_id=1 \
             core_index=CoreIndex(62)",
            hash(4),
            hash(5),
            hash(6)
        ),
    ]);
    assert_eq!(log.collation_fetches.len(), 1);
    assert_eq!(log.collation_fetches[0].latency_ms, 3);
    assert_eq!(log.collation_fetches[0].para_id, 3428);
    assert_eq!(log.hash_registry.resolve("0x0909…0909"), None);
    assert_eq!(log.candidates_generated.len(), 1);
    assert_eq!(log.candidates_generated[0].candidate_hash.full, Some([4; 32]));
    assert_eq!(log.candidates_generated[0].relay_parent.full, Some([6; 32]));
    assert_eq!(log.candidates_generated[0].core_index, 62);
}

#[test]
fn view_updates() {
    let log = parse(&[format!(
        "Our view updated, current view: OurView {{ view: View {{ heads: [{}, {}], \
         finalized_number: 30400616 }} }}",
        hash(1),
        hash(2)
    )]);
    assert_eq!(log.view_updates.len(), 1);
    assert_eq!(log.view_updates[0].heads, vec![hash(1), hash(2)]);
    assert_eq!(log.view_updates[0].finalized_number, 30400616);
    assert_eq!(log.hash_registry.resolve("0x0202…0202"), Some([2; 32]));
}

#[test]
fn expired_collations() {
    let log = parse(&[
        format!(
            "Collation expired age=4 collation_state=\"advertised\" relay_parent=({}, 30511804) \
             para_id=Id(3428) head={} candidate_hash={}",
            hash(1),
            hash(2),
            hash(3)
        ),
        format!("Collation expired age=2 collation_state=fetched relay_parent={}, 7", hash(4)),
    ]);
    assert_eq!(log.collation_expired.len(), 2);
    let e = &log.collation_expired[1];
    assert_eq!(e.collation_state, "advertised");
    assert_eq!(e.relay_parent_num, 30511804);
    assert_eq!(e.relay_parent_hash.full, Some([1; 32]));
    assert_eq!(e.age, Some(4));
    assert_eq!(e.head.as_ref().unwrap().full, Some([2; 32]));
    assert_eq!(e.candidate_hash.as_ref().unwrap().full, Some([3; 32]));
    assert_eq!(e.produced_at, None);
    let e = &log.collation_expired[0];
    assert_eq!(e.collation_state, "fetched");
    assert_eq!(e.relay_parent_num, 7);
    assert!(e.head.is_none());
    assert!(e.candidate_hash.is_none());
}

#[test]
fn expired_collations_with_truncated_hashes() {
    let log = parse(&[
        "Collation expired age=4 collation_state=\"advertised\" \
         relay_parent=(0xd14e…bf1b, 30511804)"
            .to_string(),
        "Collation expired age=4 collation_state=created relay_parent=(0xd14e…bf1b, 30511805) \
         para_id=Id(3428) head=0x0a0b…0c0d candidate_hash=0x1a1b…1c1d"
            .to_string(),
    ]);
    assert_eq!(log.collation_expired.len(), 2);
    let e = &log.collation_expired[1];
    assert_eq!(e.age, Some(4));
    assert_eq!(e.collation_state, "advertised");
    assert_eq!(e.relay_parent_num, 30511804);
    assert_eq!(e.relay_parent_hash.raw, "0xd14e…bf1b");
    assert_eq!(e.relay_parent_hash.full, None);
    assert!(e.head.is_none());
    assert!(e.candidate_hash.is_none());
    let e = &log.collation_expired[0];
    assert_eq!(e.relay_parent_num, 30511805);
    assert_eq!(e.head.as_ref().unwrap().raw, "0x0a0b…0c0d");
    assert_eq!(e.head.as_ref().unwrap().full, None);
    assert_eq!(e.candidate_hash.as_ref().unwrap().raw, "0x1a1b…1c1d");
    assert_eq!(log.hash_registry.resolve("0xd14e…bf1b"), None);
}

#[test]
fn what_does_not_match_is_left_out() {
    let log = parse(&[
        "Imported # of nothing".to_string(),
        "Pre-sealed block".to_string(),
        "Our view updated".to_string(),
    ]);
    assert!(log.para_imports.is_empty() && log.relay_imports.is_empty());
    assert!(log.pre_sealed.is_empty() && log.view_updates.is_empty());
    let lines = vec!["[Parachain] 🏆 Imported #1 (0xaa…bb → 0xcc…dd)\n".to_string()];
    assert!(parse_log(&lines, 3428, &all_patterns()).para_imports.is_empty());
    assert_eq!(log.time_range(), None);
    assert_eq!(log.min_relay_block(), None);
    let r = log.block_confidence();
    assert_eq!((r.num, r.den), (1, 1));
}

#[test]
fn numbers_too_large_are_zero() {
    let log = parse(&["[Parachain] 🏆 Imported #99999999999 (0xaa…bb → 0xcc…dd)".to_string()]);
    assert_eq!(log.para_imports[0].block_number, 0);
}

#[test]
fn events_of_older_lines_come_first() {
    let newer = at("[Parachain] 🏆 Imported #2 (0xaa…bb → 0xcc…dd)");
    let older = at("[Parachain] 🏆 Imported #1 (0xaa…bb → 0xcc…dd)");
    let p = all_patterns();
    let log = parse_log(&vec![newer.clone(), older.clone()], 1, &p);
    let numbers: Vec<u32> = log.para_imports.iter().map(|i| i.block_number).collect();
    assert_eq!(numbers, vec![1, 2]);
    assert_eq!(parse_log(&vec![older], 1, &p).para_imports[0].block_number, 1);
}

#[test]
fn groups_that_are_missing_give_no_event() {
    let mut log = ParsedLog::new();
    let text = |s: &str| Some(s.to_string());
    add_import(&mut log, &vec![None, text("Parachain"), text("7")], "🏆", time());
    assert!(log.para_imports.is_empty());
    let groups = vec![None, text("Parachain"), text("7"), text("0xaa…bb"), text("0xcc…dd")];
    add_import(&mut log, &groups, "x 🏆 y", time());
    assert_eq!(log.para_imports.len(), 1);
    assert!(log.para_imports[0].is_best);
    let groups = vec![None, text("4"), text("created"), text("0xaa"), text("9")];
    add_expired(&mut log, &groups, &Some(vec![None, text("0xbb")]), &None, time());
    assert_eq!(log.collation_expired[0].head.as_ref().unwrap().raw, "0xbb");
    assert!(log.collation_expired[0].candidate_hash.is_none());
}

#[test]
fn names_of_log_files() {
    assert!(is_log_file("node-0.txt"));
    assert!(is_log_file("a.b.txt"));
    assert!(is_log_file("..txt"));
    assert!(!is_log_file(".txt"));
    assert!(!is_log_file("node-0.TXT"));
    assert!(!is_log_file("txt"));
    assert!(!is_log_file("node-0.log"));
}

fn file(name: &str, unicode: bool, number: u32) -> LogFile {
    LogFile {
        name: name.to_string(),
        unicode,
        lines: vec![at(&format!("[Parachain] 🏆 Imported #{} (0xaa…bb → 0xcc…dd)", number))],
    }
}

#[test]
fn logs_of_a_directory() {
    let files = vec![
        file("b.txt", true, 2),
        file("notes.md", true, 9),
        file("a.txt", true, 1),
        file("\u{fffd}.txt", false, 3),
    ];
    let multi = parse_log_dir(&files, 1, &all_patterns()).ok().unwrap();
    assert_eq!(multi.collator_names(), vec!["a", "b", "unknown"]);
    assert_eq!(multi.len(), 3);
    assert_eq!(multi.log(0).para_imports[0].block_number, 1);
    assert_eq!(multi.log(0).para_imports[0].collator.as_deref(), Some("a"));
    assert_eq!(multi.log(2).para_imports[0].collator.as_deref(), Some("unknown"));
    assert_eq!(multi.name(1), "b");
}

#[test]
fn a_later_log_replaces_one_of_its_name() {
    let files = vec![file("\u{fffd}.txt", false, 1), file("\u{fffd}\u{fffd}.txt", false, 2)];
    let multi = parse_log_dir(&files, 1, &all_patterns()).ok().unwrap();
    assert_eq!(multi.len(), 1);
    assert_eq!(multi.log(0).para_imports[0].block_number, 2);
}

#[test]
fn a_directory_without_logs() {
    let none = parse_log_dir(&vec![file("notes.md", true, 9)], 1, &all_patterns());
    assert_eq!(none.err(), Some(LogDirError::NoLogFiles));
    assert_eq!(parse_log_dir(&vec![], 1, &all_patterns()).err(), Some(LogDirError::NoLogFiles));
}
