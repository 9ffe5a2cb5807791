use block_confidence_monitor::document::Report;
use block_confidence_monitor::hash::{text_of_hash, LogHash};
use block_confidence_monitor::multi_report::generate_multi_collator_report;
use block_confidence_monitor::report::{generate_report, write_sample_data_points, ReportConfig};
use block_confidence_monitor::time::Timestamp;
use block_confidence_monitor::types::{
    Analysis, CollationExpired, CollatorStats, DropReason, DroppedBlock, DuplicateBlockOnSameRP,
    DuplicateProducer, MultiCollatorAnalysis, OnChainBlockInfo, OnChainWinner, ParaBlockImport,
    ParaCandidateEvent, ParsedLog, Ratio, RebuildCause, RebuildEvent, SlotBoundaryAnalysis,
    SlotBoundaryDetail,
};
use parity_scale_codec::Encode;

fn shown(report: &Report) -> String {
    let mut text = String::new();
    for (before, figure) in &report.pieces {
        text.push_str(before);
        let value = figure.ratio.num as f64 / figure.ratio.den as f64;
        let value = if figure.percent { value * 100.0 } else { value };
        text.push_str(&format!("{:.*}", figure.decimals as usize, value));
    }
    text.push_str(&report.tail);
    text
}

fn at(millis: i64) -> Timestamp {
    Timestamp::from_millis(millis).unwrap()
}

fn config() -> ReportConfig {
    ReportConfig {
        chain_name: "Kusama".to_string(),
        max_samples: 5,
        viability_window: 3,
        para_id: 3392,
        rpc_url: "wss://example".to_string(),
        n_collators: 2,
        detailed: false,
    }
}

fn analysis() -> Analysis {
    Analysis {
        time_window: (at(0), at(3_660_000)),
        min_relay_block: None,
        max_relay_block: None,
        total_built: 0,
        total_included: 0,
        total_dropped: 0,
        session_boundary_drops: vec![],
        relay_parent_expired_drops: vec![],
        wrong_fork_drops: vec![],
        unknown_drops: vec![],
        edge_of_window_drops: vec![],
        session_boundaries: vec![],
        n_cores: 3,
    }
}

fn import(is_best: bool) -> ParaBlockImport {
    ParaBlockImport {
        block_number: 1,
        parent_hash: LogHash::from_auto("0xaa…bb"),
        block_hash: LogHash::from_auto("0xcc…dd"),
        timestamp: at(0),
        is_best,
        collator: None,
    }
}

fn drop_at(rp: u32, reason: DropReason) -> DroppedBlock {
    DroppedBlock {
        para_block_number: 77,
        para_block_hash: LogHash::from_full(&text_of_hash(&[0xab; 32])),
        parent_hash: LogHash::from_auto("0xaaaa…bbbb"),
        relay_parent_num: rp,
        relay_parent_hash: LogHash::from_auto("0xcccc…dddd"),
        built_at: at(3_723_004),
        collation_fetch_latency_ms: Some(12),
        reason,
        nearby_relay_blocks: vec![],
        collation_expired: vec![],
    }
}

fn candidate(number: u32, group: Option<u32>) -> ParaCandidateEvent {
    let mut head = vec![0u8; 32];
    head.extend(parity_scale_codec::Compact(number).encode());
    ParaCandidateEvent {
        para_id: 3392,
        relay_parent: None,
        core_index: None,
        group_index: group,
        para_head_data: Some(head),
    }
}

fn info(number: u32, session: u32) -> OnChainBlockInfo {
    OnChainBlockInfo {
        block_number: number,
        block_hash: [number as u8; 32],
        session_index: session,
        backed_para_candidates: vec![],
        included_para_candidates: vec![],
        claim_queue_cores: vec![],
    }
}

#[test]
fn a_report_without_blocks() {
    let text = shown(&generate_report(&analysis(), &config(), &ParsedLog::new()));
    let expected = "## Block Confidence\n\n\
        | Metric | Value |\n|---|---|\n\
        | 🏆 Blocks built (best) | **0** |\n\
        | 🆕 Blocks rebuilt (non-best) | **0** |\n\
        | Total parachain imports | 0 |\n\
        | **Block Confidence** | **100.00%** |\n\n\
        ## Summary of top issues identified over a 1 hour 1 minute window\n\n\
        This data was collected from collator logs for para_id 3392.\n\n\
        Setup: 2 collator(s), 3 core(s).\n\n\
        - Total blocks built locally: **0**\n\
        - Total blocks included on-chain: **0**\n\
        - Total blocks dropped: **0**\n\
        - Relay block range: no relay blocks observed\n\n\
        ### Session boundaries on Kusama (every unknown)\n\n\
        No session boundaries observed in the log window. Cannot assess session boundary drops.\n\n\
        ### Non-session boundary\n\n\
        No blocks dropped outside of session boundaries.\n\n\
        ## Sample data points\n";
    assert_eq!(text, expected);
}

#[test]
fn confidence_and_breakdown() {
    let mut log = ParsedLog::new();
    log.para_imports = vec![import(true), import(true), import(true), import(false)];
    let mut a = analysis();
    a.total_built = 9;
    a.total_included = 5;
    a.total_dropped = 4;
    a.min_relay_block = Some(90);
    a.max_relay_block = Some(1400);
    a.session_boundaries = vec![(100, 1, 2), (700, 2, 3), (1303, 3, 4)];
    a.relay_parent_expired_drops = vec![
        drop_at(5, DropReason::RelayParentExpired { relay_parent_num: 5, viability_window: 3 }),
        drop_at(5, DropReason::RelayParentExpired { relay_parent_num: 5, viability_window: 3 }),
    ];
    a.unknown_drops = vec![drop_at(6, DropReason::Unknown)];
    a.edge_of_window_drops = vec![drop_at(6, DropReason::Unknown)];
    let mut c = config();
    c.max_samples = 1;
    let text = shown(&generate_report(&a, &c, &log));
    assert!(text.contains("| **Block Confidence** | **75.00%** |\n| Rebuild rate | 33.33% |\n\n"));
    assert!(text.contains("- Total blocks built locally: **9**\n"));
    assert!(text.contains(
        "- Total blocks dropped: **4**\n- Relay block range: **#90** to **#1400**\n"
    ));
    assert!(text.contains(
        "- Edge-of-window blocks excluded: **1** (these blocks were built near the start/end of \
         the log window and might have been included in relay chain blocks outside the observed \
         range)\n\n"
    ));
    assert!(text.contains("### Session boundaries on Kusama (every ~601 blocks (~60 minutes))\n\n"));
    assert!(text.contains(
        "No blocks dropped at session boundaries (3 session change(s) observed).\n\n"
    ));
    assert!(text.contains(
        "Analysis shows a total of **3 blocks** being dropped.\n\nApproximate breakdown:\n\
         - Relay parent expired (**~67%**). Why?\n\
         \t- Low performance validators produce empty relay blocks or blocks with very few backed \
         candidates\n\
         - Built on wrong fork (~**0%**)\n\
         - Unknown reason: **1**\n\n"
    ));
    assert_eq!(text.matches("#### 🏆 Imported #77").count(), 1);
}

#[test]
fn session_drops_are_summed_up() {
    let reason = || DropReason::SessionBoundary {
        session_before: 1,
        session_after: 2,
        boundary_relay_block: 100,
    };
    let mut a = analysis();
    a.session_boundaries = vec![(100, 1, 2), (200, 2, 3)];
    a.session_boundary_drops = vec![drop_at(98, reason()), drop_at(99, reason()), drop_at(199, reason())];
    let text = shown(&generate_report(&a, &config(), &ParsedLog::new()));
    assert!(text.contains("### Session boundaries on Kusama (every ~100 blocks (~10 minutes))\n\n"));
    assert!(text.contains(
        "Analysis shows a total of **3 blocks** being dropped at session boundaries.\n\n\
         - Average (per session change): **1.5 blocks**\n- Min: **1 block(s)**\n- Max: **2 blocks**\n\n"
    ));
    assert!(text.contains("### Session boundary drops\n"));
    assert!(text.contains("- **Root cause**: Session boundary (session 1 → 2 at relay block #100)\n"));
}

fn expired(state: &str, age: Option<u32>, head: Option<LogHash>) -> CollationExpired {
    CollationExpired {
        collation_state: state.to_string(),
        relay_parent_num: 50,
        relay_parent_hash: LogHash::from_auto("0x11"),
        age,
        head,
        candidate_hash: None,
        timestamp: at(1),
        produced_at: None,
        advertised_at: None,
        fetched_at: None,
        advertised_to_peers: vec![],
    }
}

#[test]
fn a_dropped_block_in_full() {
    let mut d = drop_at(
        50,
        DropReason::WrongFork {
            relay_parent_num: 50,
            relay_parent_hash: LogHash::from_auto("0xcccc…dddd"),
        },
    );
    let mut second = info(51, 8);
    second.backed_para_candidates =
        vec![candidate(1, Some(9)), candidate(2, Some(4)), candidate(3, Some(9)), candidate(4, None)];
    second.included_para_candidates = vec![candidate(1, None)];
    second.claim_queue_cores = vec![62, 3];
    d.nearby_relay_blocks = vec![info(50, 7), second];
    d.collation_expired = vec![
        expired("fetched", Some(4), Some(LogHash::from_full(&text_of_hash(&[1; 32])))),
        expired("created", None, None),
        expired("fetched", None, None),
    ];
    let mut a = analysis();
    a.wrong_fork_drops = vec![d];
    let mut out = Report::new();
    write_sample_data_points(&mut out, &a, 5, 3392);
    let expected = "## Sample data points\n### Blocks built on wrong fork\n\
        #### 🏆 Imported #77 (0xaaaa…bbbb → 0xabababababab)\n\
        - **Root cause**: Built on wrong fork (RP #50)\n\
        - Built at: 01:02:03.004\n\
        - Collation fetch latency: **12ms**\n\
        - Relay parent: #50 (0xcccc…dddd)\n\
        - RP **on wrong fork**: relay parent was pruned from canonical chain\n\
        - Relay chain block sequence:\n  \
          - #50 (0x3232…3232): no backed candidates for our para — **not scheduled**\n  \
          - #51 (0x3333…3333): backs 4 candidate(s) for para 3392 (group(s) 4, 9), includes 1 \
            candidate(s), **NEW SESSION** (7 → 8) — scheduled on core(s) 62, 3\n\
        - Collation expiry on RP #50: **3** collation(s) expired — 1 x created, 2 x fetched\n  \
          - state=**fetched**, age=4, head=0x010101010101 (00:00:00.001)\n  \
          - state=**created** (00:00:00.001)\n  \
          - state=**fetched** (00:00:00.001)\n\n";
    assert_eq!(shown(&out), expected);
}

#[test]
fn many_expired_collations_are_not_listed() {
    let mut d = drop_at(50, DropReason::Unknown);
    d.collation_fetch_latency_ms = None;
    d.collation_expired = (0..21).map(|_| expired("created", None, None)).collect();
    let mut a = analysis();
    a.relay_parent_expired_drops = vec![d];
    let mut out = Report::new();
    write_sample_data_points(&mut out, &a, 5, 3392);
    let text = shown(&out);
    assert!(text.ends_with(
        "- RP is not on wrong fork\n\
         - Collation expiry on RP #50: **21** collation(s) expired — 21 x created\n\n"
    ));
}

fn no_rebuilds() -> MultiCollatorAnalysis {
    MultiCollatorAnalysis {
        per_collator: vec![CollatorStats {
            name: "node-0".to_string(),
            blocks_built: 3,
            blocks_won: 2,
            blocks_lost: 1,
            win_rate: Ratio { num: 2, den: 3 },
        }],
        rebuilds: vec![],
        slot_boundary_analysis: None,
        duplicate_blocks_same_rp: vec![],
    }
}

#[test]
fn collators_without_rebuilds() {
    let text = shown(&generate_multi_collator_report(
        &analysis(),
        &config(),
        &no_rebuilds(),
        &ParsedLog::new(),
    ));
    let section = "## Multi-Collator Rebuild Analysis\n\n\
        | Collator | Blocks Built | 🏆 Won (final best) | Lost (replaced) | Win Rate |\n\
        |---|---|---|---|---|\n\
        | node-0 | 3 | 2 | 1 | 66.67% |\n\n\
        No rebuild events detected across collators.\n\n\
        ## Duplicate Block Production Check\n\n\
        Checks whether 2+ different collators ever built the same para block number on the same \
        relay parent. This would indicate a protocol-level issue (e.g. Aura slot assignment \
        violation or shared collator keys).\n\n\
        **No duplicates found.** Every (block number, relay parent) pair was produced by exactly \
        one collator. Slot assignment is clean.\n\n\
        ## Summary of top issues";
    assert!(text.contains(section));
    assert!(text.starts_with("## Block Confidence\n"));
}

fn rebuild(cause: RebuildCause, winner: OnChainWinner) -> RebuildEvent {
    RebuildEvent {
        block_number: 101,
        block_hash_best: LogHash::from_auto("0xaaaa…bbbb"),
        parent_hash_best: LogHash::from_auto("0x11"),
        block_hash_rebuilt: LogHash::from_auto("0xcccc…dddd"),
        parent_hash_rebuilt: LogHash::from_auto("0x22"),
        best_collator: Some("node-0".to_string()),
        rebuilt_collator: None,
        best_timestamp: at(1_000),
        rebuilt_timestamp: at(2_500),
        observer: "node-1".to_string(),
        best_relay_parent: Some(50),
        rebuilt_relay_parent: None,
        best_slot: Some(7),
        rebuilt_slot: None,
        cause,
        on_chain_winner: winner,
        relay_block_sequence: vec![],
        collation_expired: vec![],
    }
}

fn boundary(slot: u64, gap: i64, overlap: u32) -> SlotBoundaryDetail {
    SlotBoundaryDetail {
        outgoing_slot: slot,
        incoming_slot: slot + 1,
        outgoing_collator: "a".to_string(),
        incoming_collator: "b".to_string(),
        outgoing_seal_time: at(0),
        incoming_build_time: at(0),
        propagation_gap_ms: gap,
        overlap_count: overlap,
        outgoing_rp: 50,
        incoming_rp: 52,
    }
}

#[test]
fn rebuilds_in_full() {
    let mut m = no_rebuilds();
    let overlap = RebuildCause::SlotBoundaryOverlap { outgoing_slot: 7, incoming_slot: 8 };
    let newer = RebuildCause::NewerRelayParent { old_rp: 50, new_rp: 52 };
    let mut first = rebuild(overlap, OnChainWinner::Replacement);
    let mut relay = info(50, 1);
    relay.backed_para_candidates = vec![candidate(4, Some(2)), candidate(9, None)];
    relay.included_para_candidates = vec![candidate(4, None)];
    relay.claim_queue_cores = vec![1];
    first.relay_block_sequence = vec![relay, info(51, 1)];
    m.rebuilds = vec![
        first,
        rebuild(newer, OnChainWinner::OriginalBest),
        rebuild(RebuildCause::Unknown, OnChainWinner::Unknown),
    ];
    let mut c = config();
    c.max_samples = 2;
    let text = shown(&generate_multi_collator_report(&analysis(), &c, &m, &ParsedLog::new()));
    assert!(text.contains(
        "### Rebuild Breakdown (3 total)\n\n\
         - Slot boundary overlap: **1** (33%) — incoming collator started before outgoing \
         collator's block propagated\n\
         - Rebuilt on newer relay parent: **1** (33%) — collator rebuilt at same height on a newer \
         RP in a later slot\n\
         - Unknown: **1** (33%)\n\n\
         ### On-Chain Inclusion Outcome\n\n\
         For each rebuild, which block was actually included on-chain?\n\n\
         | Outcome | Count | % |\n|---|---|---|\n\
         | Original best (🏆) won on-chain | 1 | 33% |\n\
         | Replacement (🆕) won on-chain | 1 | 33% |\n\
         | Unknown (outside query range) | 1 | 33% |\n\n\
         **1** rebuilds (33%) resulted in the replacement block winning on-chain — these are real \
         chain replacements where the later collator's block was backed instead.\n\n"
    ));
    let hash = "32".repeat(32);
    assert!(text.contains(&format!(
        "### Sample Rebuilds\n\n\
         #### Block #101 — rebuilt on node-1\n\
         - Original best: 0xaaaa…bbbb (built by node-0 at 00:00:01.000 on RP #50 slot 7)\n\
         - Replacement: 0xcccc…dddd (built by unknown at 00:00:02.500)\n\
         - Root cause: slot boundary overlap (slot 7 → 8)\n\
         - On-chain: **replacement** was included\n\
         - Relay chain block sequence:\n  \
           - [#50](https://polkadot.js.org/apps/?rpc=wss%3A%2F%2Frpc.polkadot.io#/explorer/query/0x{}) \
           (0x3232…3232): backs 2 (4–9) [group(s) 2], includes 1 (#4) — scheduled on core(s) 1\n",
        hash
    )));
    assert!(text.contains("    - backed #4 0x"));
    assert!(text.contains("    - included #4 0x"));
    assert!(text.contains(
        "(0x3333…3333): no backed candidates for our para — **not scheduled**\n\
         - Scheduling: para was scheduled in 1/2 relay blocks in this range (1 unscheduled)\n\n"
    ));
    assert!(text.contains("- Root cause: rebuilt on newer relay parent (RP #50 → #52)\n"));
    assert!(text.contains("- On-chain: **original best** was included\n\n"));
    assert!(!text.contains("- Root cause: unknown"));
}

#[test]
fn slot_boundaries_in_full() {
    let mut m = no_rebuilds();
    m.rebuilds = vec![rebuild(RebuildCause::Unknown, OnChainWinner::Unknown)];
    m.slot_boundary_analysis = Some(SlotBoundaryAnalysis {
        boundaries: vec![boundary(1, 5, 0), boundary(2, 30, 1), boundary(3, -20, 1), boundary(4, 0, 2)],
        boundaries_with_overlap: 3,
        boundaries_without_overlap: 1,
        avg_propagation_gap_ms: Ratio { num: 15, den: 4 },
        median_propagation_gap_ms: 5,
        min_propagation_gap_ms: -20,
        max_propagation_gap_ms: 30,
        avg_overlap_count: Ratio { num: 4, den: 3 },
        max_overlap_count: 2,
        relay_parent_gaps: 4,
    });
    let mut c = config();
    c.max_samples = 2;
    let text = shown(&generate_multi_collator_report(&analysis(), &c, &m, &ParsedLog::new()));
    assert!(text.contains(
        "| Total slot boundaries | 4 |\n\
         | Boundaries with overlap | **3** (75%) |\n\
         | Boundaries without overlap | 1 (25%) |\n\
         | Propagation gap (avg) | **4ms** |\n\
         | Propagation gap (median) | **5ms** |\n\
         | Propagation gap (min / max) | -20ms / 30ms |\n\
         | Avg overlap per boundary (when overlapping) | **1.3 blocks** |\n\
         | Max overlap at a single boundary | **2 blocks** |\n\
         | Relay parent gaps > 1 block | **4** (100%) — possible relay chain forks |\n\n\
         #### Worst overlap boundaries\n\n\
         - Slot 4 (a) → 5 (b): gap **0ms**, overlap **2 blocks**, RP #50 → #52\n\
         - Slot 3 (a) → 4 (b): gap **-20ms**, overlap **1 blocks**, RP #50 → #52\n\n\
         ### Sample Rebuilds\n"
    ));
}

#[test]
fn duplicates_in_full() {
    let producer = |name: &str, slot: u64, millis: i64| DuplicateProducer {
        collator: name.to_string(),
        slot,
        timestamp: at(millis),
        block_hash: LogHash::from_auto("0xaaaa…bbbb"),
    };
    let mut m = no_rebuilds();
    m.duplicate_blocks_same_rp = vec![DuplicateBlockOnSameRP {
        block_number: 101,
        relay_parent_num: 52,
        producers: vec![producer("late", 9, 1_750), producer("early", 8, 1_000)],
    }];
    let text = shown(&generate_multi_collator_report(&analysis(), &config(), &m, &ParsedLog::new()));
    assert!(text.contains(
        "**WARNING: 1 case(s)** where different collators built the same block on the same RP:\n\n\
         | Block # | Relay Parent | Collators | Slots | Time Gap |\n|---|---|---|---|---|\n\
         | 101 | #52 | early, late | 8, 9 | 750ms |\n\n\
         ### Duplicate Production Details\n\n\
         #### Block #101 on RP #52\n\n\
         - **early**: slot 8 at 00:00:01.000 — hash 0xaaaa…bbbb\n\
         - **late**: slot 9 at 00:00:01.750 — hash 0xaaaa…bbbb\n\n"
    ));
}
