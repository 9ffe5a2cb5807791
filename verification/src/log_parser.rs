//! Reading collator logs: what each line adds, and the logs of one and of several collators.

use crate::hash::{with_text, with_texts, HashRegistry, LogHash, RegistryView};
use crate::logs::{with_log, MultiCollatorLogs};
use crate::model::{opt_view, views, views_push};
use crate::patterns::{
    captured_groups, group, group_at, group_texts, groups_found, Patterns, BLOCK_IMPORT, BUILDING,
    CANDIDATE_GENERATED, CANDIDATE_HASH, COLLATION_EXPIRED, COLLATION_SUBMIT, FETCH_LATENCY, HEAD,
    NOT_BUILDING, PRE_SEALED, TIMESTAMP, VIEW_UPDATE,
};
use crate::text::{
    chars_of, contains_text, has_char, list_items, number_or_zero, occurs_in, read_number,
    same_text, split_list, text_between, ELLIPSIS,
};
use crate::time::{log_time, read_log_time, Timestamp};
use crate::types::{
    BuildAttempt, BuildAttemptView, CandidateGenerated, CandidateGeneratedView, CollationExpired,
    CollationExpiredView, CollationFetchLatency, CollationFetchLatencyView, CollationSubmission,
    CollationSubmissionView, CollatorLogView, ParaBlockImport, ParaBlockImportView, ParsedLog,
    ParsedLogView, PreSealedBlock, PreSealedBlockView, RelayBlockImport, RelayBlockImportView,
    ViewUpdate, ViewUpdateView,
};
use vstd::prelude::*;

verus! {

/// What a line of a log tells of.
#[derive(Clone, Copy, Debug, PartialEq, Eq, Structural)]
pub enum LineKind {
    /// Block import (para or relay)
    Import,
    /// Not building block
    NotBuilding,
    /// Building block
    Building,
    /// Pre-sealed block
    PreSealed,
    /// Collation submission
    Submission,
    /// Collation fetch latency
    FetchLatency,
    /// Candidate generated
    Candidate,
    /// View update
    View,
    /// Collation expired
    Expired,
    /// Anything else
    Other,
}

/// What a line tells of, by the words that occur in it; the first words found decide.
pub open spec fn kind_of(line: Seq<char>) -> LineKind {
    if occurs_in("Imported #"@, line) {
        LineKind::Import
    } else if occurs_in("Not building block"@, line) {
        LineKind::NotBuilding
    } else if occurs_in("Building block."@, line) && !occurs_in("Not building"@, line) {
        LineKind::Building
    } else if occurs_in("Pre-sealed block"@, line) {
        LineKind::PreSealed
    } else if occurs_in("Submitting collation"@, line) {
        LineKind::Submission
    } else if occurs_in("Collation fetch latency"@, line) {
        LineKind::FetchLatency
    } else if occurs_in("Candidate generated"@, line) {
        LineKind::Candidate
    } else if occurs_in("Our view updated"@, line) {
        LineKind::View
    } else if occurs_in("Collation expired"@, line) {
        LineKind::Expired
    } else {
        LineKind::Other
    }
}

/// What a line tells of.
pub fn line_kind(line: &str) -> (kind: LineKind)
    ensures
        kind == kind_of(line@),
{
    let chars = chars_of(line);
    if contains_text(&chars, "Imported #") {
        LineKind::Import
    } else if contains_text(&chars, "Not building block") {
        LineKind::NotBuilding
    } else if contains_text(&chars, "Building block.") && !contains_text(&chars, "Not building") {
        LineKind::Building
    } else if contains_text(&chars, "Pre-sealed block") {
        LineKind::PreSealed
    } else if contains_text(&chars, "Submitting collation") {
        LineKind::Submission
    } else if contains_text(&chars, "Collation fetch latency") {
        LineKind::FetchLatency
    } else if contains_text(&chars, "Candidate generated") {
        LineKind::Candidate
    } else if contains_text(&chars, "Our view updated") {
        LineKind::View
    } else if contains_text(&chars, "Collation expired") {
        LineKind::Expired
    } else {
        LineKind::Other
    }
}

/// The 32-bit number that a text gives, or zero.
pub open spec fn u32_in(s: Seq<char>) -> u32 {
    number_or_zero(s, u32::MAX as nat) as u32
}

/// The 64-bit number that a text gives, or zero.
pub open spec fn u64_in(s: Seq<char>) -> u64 {
    number_or_zero(s, u64::MAX as nat) as u64
}

fn read_u32(s: &str) -> (n: u32)
    ensures
        n == u32_in(s@),
{
    read_number(s, u32::MAX as u64) as u32
}

fn read_u64(s: &str) -> (n: u64)
    ensures
        n == u64_in(s@),
{
    read_number(s, u64::MAX)
}

/// What a registry knows after a text was registered, unless its middle is left out.
pub open spec fn with_whole_text(r: RegistryView, s: Seq<char>) -> RegistryView {
    if s.contains(ELLIPSIS) {
        r
    } else {
        with_text(r, s)
    }
}

fn register_whole(registry: &mut HashRegistry, s: &str)
    requires
        old(registry).wf(),
    ensures
        final(registry)@ == with_whole_text(old(registry)@, s@),
        final(registry).wf(),
{
    if !has_char(s, ELLIPSIS) {
        registry.register_full(s);
    }
}

fn register_all(registry: &mut HashRegistry, texts: &Vec<String>)
    requires
        old(registry).wf(),
    ensures
        final(registry)@ == with_texts(old(registry)@, views(texts@)),
        final(registry).wf(),
{
    let mut i: usize = 0;
    while i < texts.len()
        invariant
            i <= texts@.len(),
            registry.wf(),
            registry@ == with_texts(old(registry)@, views(texts@).take(i as int)),
        decreases texts@.len() - i,
    {
        assert(views(texts@).take(i + 1).drop_last() == views(texts@).take(i as int));
        registry.register_full(texts[i].as_str());
        i = i + 1;
    }
    assert(views(texts@).take(texts@.len() as int) == views(texts@));
}

/// The time that a timestamp's groups give.
pub open spec fn time_in_groups(groups: Option<Seq<Option<Seq<char>>>>) -> Option<int> {
    match groups {
        Some(g) => match group_at(g, 1) {
            Some(text) => log_time(text),
            None => None,
        },
        None => None,
    }
}

/// The first timestamp in a line.
pub fn parse_timestamp(line: &str, patterns: &Patterns) -> (time: Option<Timestamp>)
    requires
        patterns.wf(),
    ensures
        opt_view(time) == time_in_groups(captured_groups(TIMESTAMP@, line@)),
{
    let groups = patterns.timestamp.captures(line)?;
    let text = group(&groups, 1)?;
    read_log_time(text.as_str())
}

// ---- What each kind of line adds ----

/// A log with one more parachain import.
pub open spec fn after_para_import(
    log: ParsedLogView,
    g: Seq<Option<Seq<char>>>,
    line: Seq<char>,
    time: int,
) -> ParsedLogView {
    match (
        group_at(g, 2),
        group_at(g, 3),
        group_at(g, 4),
    ) {
        (Some(number), Some(parent), Some(hash)) => ParsedLogView {
            para_imports: log.para_imports.push(
                ParaBlockImportView {
                    block_number: u32_in(number),
                    parent_hash: crate::hash::auto_hash(parent),
                    block_hash: crate::hash::auto_hash(hash),
                    timestamp: time,
                    is_best: line.contains('🏆'),
                    collator: None,
                },
            ),
            ..log
        },
        _ => log,
    }
}

/// A log with one more parachain import.
pub fn add_para_import(
    log: &mut ParsedLog,
    groups: &Vec<Option<String>>,
    line: &str,
    time: Timestamp,
)
    requires
        old(log).hash_registry.wf(),
    ensures
        final(log)@ == after_para_import(old(log)@, group_texts(groups@), line@, time@),
        final(log).hash_registry.wf(),
{
    let ghost g = group_texts(groups@);
    let number = match group(groups, 2) {
        Some(text) => text.as_str(),
        None => {
            return;
        },
    };
    let parent = match group(groups, 3) {
        Some(text) => text.as_str(),
        None => {
            return;
        },
    };
    let hash = match group(groups, 4) {
        Some(text) => text.as_str(),
        None => {
            return;
        },
    };
    let event = ParaBlockImport {
        block_number: read_u32(number),
        parent_hash: LogHash::from_auto(parent),
        block_hash: LogHash::from_auto(hash),
        timestamp: time,
        is_best: has_char(line, '🏆'),
        collator: None,
    };
    proof {
        views_push(log.para_imports@, event);
    }
    log.para_imports.push(event);
    assert(log@ =~= after_para_import(old(log)@, g, line@, time@));
}

/// A log with one more relay chain import; whole hashes are registered.
pub open spec fn after_relay_import(
    log: ParsedLogView,
    g: Seq<Option<Seq<char>>>,
    time: int,
) -> ParsedLogView {
    match (
        group_at(g, 2),
        group_at(g, 3),
        group_at(g, 4),
    ) {
        (Some(number), Some(parent), Some(hash)) => ParsedLogView {
            relay_imports: log.relay_imports.push(
                RelayBlockImportView {
                    block_number: u32_in(number),
                    parent_hash: crate::hash::auto_hash(parent),
                    block_hash: crate::hash::auto_hash(hash),
                    timestamp: time,
                },
            ),
            hash_registry: with_whole_text(with_whole_text(log.hash_registry, hash), parent),
            ..log
        },
        _ => log,
    }
}

/// A log with one more relay chain import; whole hashes are registered.
pub fn add_relay_import(
    log: &mut ParsedLog,
    groups: &Vec<Option<String>>,
    time: Timestamp,
)
    requires
        old(log).hash_registry.wf(),
    ensures
        final(log)@ == after_relay_import(old(log)@, group_texts(groups@), time@),
        final(log).hash_registry.wf(),
{
    let ghost g = group_texts(groups@);
    let number = match group(groups, 2) {
        Some(text) => text.as_str(),
        None => {
            return;
        },
    };
    let parent = match group(groups, 3) {
        Some(text) => text.as_str(),
        None => {
            return;
        },
    };
    let hash = match group(groups, 4) {
        Some(text) => text.as_str(),
        None => {
            return;
        },
    };
    register_whole(&mut log.hash_registry, hash);
    register_whole(&mut log.hash_registry, parent);
    let event = RelayBlockImport {
        block_number: read_u32(number),
        parent_hash: LogHash::from_auto(parent),
        block_hash: LogHash::from_auto(hash),
        timestamp: time,
    };
    proof {
        views_push(log.relay_imports@, event);
    }
    log.relay_imports.push(event);
    assert(log@ =~= after_relay_import(old(log)@, g, time@));
}

/// A log with one more import, of the chain that the first group names.
pub open spec fn after_import(
    log: ParsedLogView,
    g: Seq<Option<Seq<char>>>,
    line: Seq<char>,
    time: int,
) -> ParsedLogView {
    match group_at(g, 1) {
        Some(chain) => if chain == "Parachain"@ {
            after_para_import(log, g, line, time)
        } else {
            after_relay_import(log, g, time)
        },
        None => log,
    }
}

/// A log with one more import, of the chain that the first group names.
pub fn add_import(
    log: &mut ParsedLog,
    groups: &Vec<Option<String>>,
    line: &str,
    time: Timestamp,
)
    requires
        old(log).hash_registry.wf(),
    ensures
        final(log)@ == after_import(old(log)@, group_texts(groups@), line@, time@),
        final(log).hash_registry.wf(),
{
    let chain = match group(groups, 1) {
        Some(text) => text.as_str(),
        None => {
            return;
        },
    };
    if same_text(chain, "Parachain") {
        add_para_import(log, groups, line, time);
    } else {
        add_relay_import(log, groups, time);
    }
}

/// A log with one more decision not to build; its hashes are whole, and are registered.
pub open spec fn after_not_building(
    log: ParsedLogView,
    g: Seq<Option<Seq<char>>>,
    time: int,
) -> ParsedLogView {
    match (
        group_at(g, 1),
        group_at(g, 2),
        group_at(g, 3),
        group_at(g, 4),
        group_at(g, 5),
        group_at(g, 6),
        group_at(g, 7),
    ) {
        (
            Some(segment),
            Some(rp),
            Some(rp_num),
            Some(ih),
            Some(included),
            Some(parent),
            Some(slot),
        ) => ParsedLogView {
            build_attempts: log.build_attempts.push(
                BuildAttemptView {
                    building: false,
                    unincluded_segment_len: u32_in(segment),
                    relay_parent: crate::hash::whole_hash(rp),
                    relay_parent_num: u32_in(rp_num),
                    relay_parent_offset: None,
                    included_hash: crate::hash::whole_hash(ih),
                    included_num: u32_in(included),
                    parent: crate::hash::whole_hash(parent),
                    slot: u64_in(slot),
                    timestamp: time,
                },
            ),
            hash_registry: with_text(with_text(with_text(log.hash_registry, rp), ih), parent),
            ..log
        },
        _ => log,
    }
}

/// A log with one more decision not to build; its hashes are whole, and are registered.
pub fn add_not_building(
    log: &mut ParsedLog,
    groups: &Vec<Option<String>>,
    time: Timestamp,
)
    requires
        old(log).hash_registry.wf(),
    ensures
        final(log)@ == after_not_building(old(log)@, group_texts(groups@), time@),
        final(log).hash_registry.wf(),
{
    let ghost g = group_texts(groups@);
    let segment = match group(groups, 1) {
        Some(text) => text.as_str(),
        None => {
            return;
        },
    };
    let rp = match group(groups, 2) {
        Some(text) => text.as_str(),
        None => {
            return;
        },
    };
    let rp_num = match group(groups, 3) {
        Some(text) => text.as_str(),
        None => {
            return;
        },
    };
    let ih = match group(groups, 4) {
        Some(text) => text.as_str(),
        None => {
            return;
        },
    };
    let included = match group(groups, 5) {
        Some(text) => text.as_str(),
        None => {
            return;
        },
    };
    let parent = match group(groups, 6) {
        Some(text) => text.as_str(),
        None => {
            return;
        },
    };
    let slot = match group(groups, 7) {
        Some(text) => text.as_str(),
        None => {
            return;
        },
    };
    log.hash_registry.register_full(rp);
    log.hash_registry.register_full(ih);
    log.hash_registry.register_full(parent);
    let event = BuildAttempt {
        building: false,
        unincluded_segment_len: read_u32(segment),
        relay_parent: LogHash::from_full(rp),
        relay_parent_num: read_u32(rp_num),
        relay_parent_offset: None,
        included_hash: LogHash::from_full(ih),
        included_num: read_u32(included),
        parent: LogHash::from_full(parent),
        slot: read_u64(slot),
        timestamp: time,
    };
    proof {
        views_push(log.build_attempts@, event);
    }
    log.build_attempts.push(event);
    assert(log@ =~= after_not_building(old(log)@, g, time@));
}

/// A log with one more decision to build; those hashes that are whole are registered.
pub open spec fn after_building(
    log: ParsedLogView,
    g: Seq<Option<Seq<char>>>,
    time: int,
) -> ParsedLogView {
    match (
        group_at(g, 1),
        group_at(g, 2),
        group_at(g, 3),
        group_at(g, 5),
        group_at(g, 6),
        group_at(g, 7),
        group_at(g, 8),
    ) {
        (
            Some(segment),
            Some(rp),
            Some(rp_num),
            Some(ih),
            Some(included),
            Some(parent),
            Some(slot),
        ) => ParsedLogView {
            build_attempts: log.build_attempts.push(
                BuildAttemptView {
                    building: true,
                    unincluded_segment_len: u32_in(segment),
                    relay_parent: crate::hash::auto_hash(rp),
                    relay_parent_num: u32_in(rp_num),
                    relay_parent_offset: match group_at(g, 4) {
                        Some(offset) => Some(u32_in(offset)),
                        None => None,
                    },
                    included_hash: crate::hash::auto_hash(ih),
                    included_num: u32_in(included),
                    parent: crate::hash::auto_hash(parent),
                    slot: u64_in(slot),
                    timestamp: time,
                },
            ),
            hash_registry: with_whole_text(
                with_whole_text(with_whole_text(log.hash_registry, rp), ih),
                parent,
            ),
            ..log
        },
        _ => log,
    }
}

/// A log with one more decision to build; those hashes that are whole are registered.
pub fn add_building(
    log: &mut ParsedLog,
    groups: &Vec<Option<String>>,
    time: Timestamp,
)
    requires
        old(log).hash_registry.wf(),
    ensures
        final(log)@ == after_building(old(log)@, group_texts(groups@), time@),
        final(log).hash_registry.wf(),
{
    let ghost g = group_texts(groups@);
    let segment = match group(groups, 1) {
        Some(text) => text.as_str(),
        None => {
            return;
        },
    };
    let rp = match group(groups, 2) {
        Some(text) => text.as_str(),
        None => {
            return;
        },
    };
    let rp_num = match group(groups, 3) {
        Some(text) => text.as_str(),
        None => {
            return;
        },
    };
    let ih = match group(groups, 5) {
        Some(text) => text.as_str(),
        None => {
            return;
        },
    };
    let included = match group(groups, 6) {
        Some(text) => text.as_str(),
        None => {
            return;
        },
    };
    let parent = match group(groups, 7) {
        Some(text) => text.as_str(),
        None => {
            return;
        },
    };
    let slot = match group(groups, 8) {
        Some(text) => text.as_str(),
        None => {
            return;
        },
    };
    register_whole(&mut log.hash_registry, rp);
    register_whole(&mut log.hash_registry, ih);
    register_whole(&mut log.hash_registry, parent);
    let event = BuildAttempt {
        building: true,
        unincluded_segment_len: read_u32(segment),
        relay_parent: LogHash::from_auto(rp),
        relay_parent_num: read_u32(rp_num),
        relay_parent_offset: match group(groups, 4) {
            Some(offset) => Some(read_u32(offset.as_str())),
            None => None,
        },
        included_hash: LogHash::from_auto(ih),
        included_num: read_u32(included),
        parent: LogHash::from_auto(parent),
        slot: read_u64(slot),
        timestamp: time,
    };
    proof {
        views_push(log.build_attempts@, event);
    }
    log.build_attempts.push(event);
    assert(log@ =~= after_building(old(log)@, g, time@));
}

/// A log with one more sealed block; its hashes are whole, and are registered.
pub open spec fn after_pre_sealed(
    log: ParsedLogView,
    g: Seq<Option<Seq<char>>>,
    time: int,
) -> ParsedLogView {
    match (
        group_at(g, 1),
        group_at(g, 2),
        group_at(g, 3),
    ) {
        (Some(number), Some(post), Some(pre)) => ParsedLogView {
            pre_sealed: log.pre_sealed.push(
                PreSealedBlockView {
                    block_number: u32_in(number),
                    post_hash: crate::hash::whole_hash(post),
                    pre_hash: crate::hash::whole_hash(pre),
                    timestamp: time,
                },
            ),
            hash_registry: with_text(with_text(log.hash_registry, post), pre),
            ..log
        },
        _ => log,
    }
}

/// A log with one more sealed block; its hashes are whole, and are registered.
pub fn add_pre_sealed(
    log: &mut ParsedLog,
    groups: &Vec<Option<String>>,
    time: Timestamp,
)
    requires
        old(log).hash_registry.wf(),
    ensures
        final(log)@ == after_pre_sealed(old(log)@, group_texts(groups@), time@),
        final(log).hash_registry.wf(),
{
    let ghost g = group_texts(groups@);
    let number = match group(groups, 1) {
        Some(text) => text.as_str(),
        None => {
            return;
        },
    };
    let post = match group(groups, 2) {
        Some(text) => text.as_str(),
        None => {
            return;
        },
    };
    let pre = match group(groups, 3) {
        Some(text) => text.as_str(),
        None => {
            return;
        },
    };
    log.hash_registry.register_full(post);
    log.hash_registry.register_full(pre);
    let event = PreSealedBlock {
        block_number: read_u32(number),
        post_hash: LogHash::from_full(post),
        pre_hash: LogHash::from_full(pre),
        timestamp: time,
    };
    proof {
        views_push(log.pre_sealed@, event);
    }
    log.pre_sealed.push(event);
    assert(log@ =~= after_pre_sealed(old(log)@, g, time@));
}

/// A log with one more collation submission; a whole hash is registered.
pub open spec fn after_submission(
    log: ParsedLogView,
    g: Seq<Option<Seq<char>>>,
    time: int,
) -> ParsedLogView {
    match (
        group_at(g, 1),
        group_at(g, 2),
        group_at(g, 3),
    ) {
        (Some(core), Some(hash), Some(number)) => ParsedLogView {
            collation_submissions: log.collation_submissions.push(
                CollationSubmissionView {
                    core_index: u32_in(core),
                    hash: crate::hash::auto_hash(hash),
                    block_number: u32_in(number),
                    timestamp: time,
                },
            ),
            hash_registry: with_whole_text(log.hash_registry, hash),
            ..log
        },
        _ => log,
    }
}

/// A log with one more collation submission; a whole hash is registered.
pub fn add_submission(
    log: &mut ParsedLog,
    groups: &Vec<Option<String>>,
    time: Timestamp,
)
    requires
        old(log).hash_registry.wf(),
    ensures
        final(log)@ == after_submission(old(log)@, group_texts(groups@), time@),
        final(log).hash_registry.wf(),
{
    let ghost g = group_texts(groups@);
    let core = match group(groups, 1) {
        Some(text) => text.as_str(),
        None => {
            return;
        },
    };
    let hash = match group(groups, 2) {
        Some(text) => text.as_str(),
        None => {
            return;
        },
    };
    let number = match group(groups, 3) {
        Some(text) => text.as_str(),
        None => {
            return;
        },
    };
    register_whole(&mut log.hash_registry, hash);
    let event = CollationSubmission {
        core_index: read_u32(core),
        hash: LogHash::from_auto(hash),
        block_number: read_u32(number),
        timestamp: time,
    };
    proof {
        views_push(log.collation_submissions@, event);
    }
    log.collation_submissions.push(event);
    assert(log@ =~= after_submission(old(log)@, g, time@));
}

/// A log with one more fetch of a collation, if it is of the parachain asked for.
pub open spec fn after_fetch(
    log: ParsedLogView,
    g: Seq<Option<Seq<char>>>,
    para_id: u32,
    time: int,
) -> ParsedLogView {
    match (
        group_at(g, 1),
        group_at(g, 2),
        group_at(g, 3),
    ) {
        (Some(latency), Some(head), Some(para)) => if u32_in(para) == para_id {
            ParsedLogView {
                collation_fetches: log.collation_fetches.push(
                    CollationFetchLatencyView {
                        latency_ms: u64_in(latency),
                        para_head: crate::hash::whole_hash(head),
                        para_id: para_id,
                        timestamp: time,
                    },
                ),
                hash_registry: with_text(log.hash_registry, head),
                ..log
            }
        } else {
            log
        },
        _ => log,
    }
}

/// A log with one more fetch of a collation, if it is of the parachain asked for.
pub fn add_fetch(
    log: &mut ParsedLog,
    groups: &Vec<Option<String>>,
    para_id: u32,
    time: Timestamp,
)
    requires
        old(log).hash_registry.wf(),
    ensures
        final(log)@ == after_fetch(old(log)@, group_texts(groups@), para_id, time@),
        final(log).hash_registry.wf(),
{
    let ghost g = group_texts(groups@);
    let latency = match group(groups, 1) {
        Some(text) => text.as_str(),
        None => {
            return;
        },
    };
    let head = match group(groups, 2) {
        Some(text) => text.as_str(),
        None => {
            return;
        },
    };
    let para = match group(groups, 3) {
        Some(text) => text.as_str(),
        None => {
            return;
        },
    };
    if read_u32(para) != para_id {
        return;
    }
    log.hash_registry.register_full(head);
    let event = CollationFetchLatency {
        latency_ms: read_u64(latency),
        para_head: LogHash::from_full(head),
        para_id: para_id,
        timestamp: time,
    };
    proof {
        views_push(log.collation_fetches@, event);
    }
    log.collation_fetches.push(event);
    assert(log@ =~= after_fetch(old(log)@, g, para_id, time@));
}

/// A log with one more candidate, if it is of the parachain asked for.
pub open spec fn after_candidate(
    log: ParsedLogView,
    g: Seq<Option<Seq<char>>>,
    para_id: u32,
    time: int,
) -> ParsedLogView {
    match (
        group_at(g, 1),
        group_at(g, 2),
        group_at(g, 3),
        group_at(g, 4),
    ) {
        (Some(candidate), Some(rp), Some(para), Some(core)) => if u32_in(para) == para_id {
            ParsedLogView {
                candidates_generated: log.candidates_generated.push(
                    CandidateGeneratedView {
                        candidate_hash: crate::hash::whole_hash(candidate),
                        relay_parent: crate::hash::whole_hash(rp),
                        para_id: para_id,
                        core_index: u32_in(core),
                        timestamp: time,
                    },
                ),
                hash_registry: with_text(with_text(log.hash_registry, candidate), rp),
                ..log
            }
        } else {
            log
        },
        _ => log,
    }
}

/// A log with one more candidate, if it is of the parachain asked for.
pub fn add_candidate(
    log: &mut ParsedLog,
    groups: &Vec<Option<String>>,
    para_id: u32,
    time: Timestamp,
)
    requires
        old(log).hash_registry.wf(),
    ensures
        final(log)@ == after_candidate(old(log)@, group_texts(groups@), para_id, time@),
        final(log).hash_registry.wf(),
{
    let ghost g = group_texts(groups@);
    let candidate = match group(groups, 1) {
        Some(text) => text.as_str(),
        None => {
            return;
        },
    };
    let rp = match group(groups, 2) {
        Some(text) => text.as_str(),
        None => {
            return;
        },
    };
    let para = match group(groups, 3) {
        Some(text) => text.as_str(),
        None => {
            return;
        },
    };
    let core = match group(groups, 4) {
        Some(text) => text.as_str(),
        None => {
            return;
        },
    };
    if read_u32(para) != para_id {
        return;
    }
    log.hash_registry.register_full(candidate);
    log.hash_registry.register_full(rp);
    let event = CandidateGenerated {
        candidate_hash: LogHash::from_full(candidate),
        relay_parent: LogHash::from_full(rp),
        para_id: para_id,
        core_index: read_u32(core),
        timestamp: time,
    };
    proof {
        views_push(log.candidates_generated@, event);
    }
    log.candidates_generated.push(event);
    assert(log@ =~= after_candidate(old(log)@, g, para_id, time@));
}

/// A log with one more view update; its heads are registered.
pub open spec fn after_view(
    log: ParsedLogView,
    g: Seq<Option<Seq<char>>>,
    time: int,
) -> ParsedLogView {
    match (group_at(g, 1), group_at(g, 2)) {
        (Some(heads), Some(finalized)) => ParsedLogView {
            view_updates: log.view_updates.push(
                ViewUpdateView {
                    heads: list_items(heads),
                    finalized_number: u32_in(finalized),
                    timestamp: time,
                },
            ),
            hash_registry: with_texts(log.hash_registry, list_items(heads)),
            ..log
        },
        _ => log,
    }
}

/// A log with one more view update; its heads are registered.
pub fn add_view(log: &mut ParsedLog, groups: &Vec<Option<String>>, time: Timestamp)
    requires
        old(log).hash_registry.wf(),
    ensures
        final(log)@ == after_view(old(log)@, group_texts(groups@), time@),
        final(log).hash_registry.wf(),
{
    let ghost g = group_texts(groups@);
    let (list, finalized) = match (group(groups, 1), group(groups, 2)) {
        (Some(list), Some(finalized)) => (list.as_str(), finalized.as_str()),
        _ => {
            return;
        },
    };
    let heads = split_list(list);
    register_all(&mut log.hash_registry, &heads);
    let event = ViewUpdate { heads, finalized_number: read_u32(finalized), timestamp: time };
    proof {
        views_push(log.view_updates@, event);
    }
    log.view_updates.push(event);
    assert(log@ =~= after_view(old(log)@, g, time@));
}

/// The hash that the first group gives.
pub open spec fn hash_in_groups(groups: Option<Seq<Option<Seq<char>>>>) -> Option<Seq<char>> {
    match groups {
        Some(g) => group_at(g, 1),
        None => None,
    }
}

/// What a registry knows after a text, if there is one, was registered.
pub open spec fn with_found_text(r: RegistryView, s: Option<Seq<char>>) -> RegistryView {
    match s {
        Some(s) => with_whole_text(r, s),
        None => r,
    }
}

/// The hash that a text, if there is one, gives.
pub open spec fn found_hash(s: Option<Seq<char>>) -> Option<crate::hash::LogHashView> {
    match s {
        Some(s) => Some(crate::hash::auto_hash(s)),
        None => None,
    }
}

/// A log with one more expired collation, with the head and the candidate hash found in the line;
/// whole hashes are registered.
pub open spec fn after_expired(
    log: ParsedLogView,
    g: Seq<Option<Seq<char>>>,
    head: Option<Seq<Option<Seq<char>>>>,
    candidate: Option<Seq<Option<Seq<char>>>>,
    time: int,
) -> ParsedLogView {
    match (group_at(g, 1), group_at(g, 2), group_at(g, 3), group_at(g, 4)) {
        (Some(age), Some(state), Some(rp), Some(rp_num)) => ParsedLogView {
            collation_expired: log.collation_expired.push(
                CollationExpiredView {
                    collation_state: state,
                    relay_parent_num: u32_in(rp_num),
                    relay_parent_hash: crate::hash::auto_hash(rp),
                    age: Some(u32_in(age)),
                    head: found_hash(hash_in_groups(head)),
                    candidate_hash: found_hash(hash_in_groups(candidate)),
                    timestamp: time,
                    produced_at: None,
                    advertised_at: None,
                    fetched_at: None,
                    advertised_to_peers: Seq::empty(),
                },
            ),
            hash_registry: with_found_text(
                with_found_text(
                    with_whole_text(log.hash_registry, rp),
                    hash_in_groups(head),
                ),
                hash_in_groups(candidate),
            ),
            ..log
        },
        _ => log,
    }
}

/// Registers the hash that the first group gives.
fn take_hash(registry: &mut HashRegistry, groups: &Option<Vec<Option<String>>>) -> (hash: Option<
    LogHash,
>)
    requires
        old(registry).wf(),
    ensures
        opt_view(hash) == found_hash(hash_in_groups(groups_found(*groups))),
        final(registry)@ == with_found_text(
            old(registry)@,
            hash_in_groups(groups_found(*groups)),
        ),
        final(registry).wf(),
{
    match groups {
        Some(g) => match group(g, 1) {
            Some(text) => {
                register_whole(registry, text.as_str());
                Some(LogHash::from_auto(text.as_str()))
            },
            None => None,
        },
        None => None,
    }
}

/// A log with one more expired collation, with the head and the candidate hash found in the line;
/// whole hashes are registered.
pub fn add_expired(
    log: &mut ParsedLog,
    groups: &Vec<Option<String>>,
    head: &Option<Vec<Option<String>>>,
    candidate: &Option<Vec<Option<String>>>,
    time: Timestamp,
)
    requires
        old(log).hash_registry.wf(),
    ensures
        final(log)@ == after_expired(
            old(log)@,
            group_texts(groups@),
            groups_found(*head),
            groups_found(*candidate),
            time@,
        ),
        final(log).hash_registry.wf(),
{
    let ghost g = group_texts(groups@);
    let (age, state) = match (group(groups, 1), group(groups, 2)) {
        (Some(age), Some(state)) => (age.as_str(), state),
        _ => {
            return;
        },
    };
    let (rp, rp_num) = match (group(groups, 3), group(groups, 4)) {
        (Some(rp), Some(rp_num)) => (rp.as_str(), rp_num.as_str()),
        _ => {
            return;
        },
    };
    register_whole(&mut log.hash_registry, rp);
    let head_hash = take_hash(&mut log.hash_registry, head);
    let candidate_hash = take_hash(&mut log.hash_registry, candidate);
    let event = CollationExpired {
        collation_state: state.clone(),
        relay_parent_num: read_u32(rp_num),
        relay_parent_hash: LogHash::from_auto(rp),
        age: Some(read_u32(age)),
        head: head_hash,
        candidate_hash,
        timestamp: time,
        produced_at: None,
        advertised_at: None,
        fetched_at: None,
        advertised_to_peers: Vec::new(),
    };
    proof {
        assert(views(event.advertised_to_peers@) =~= Seq::<Seq<char>>::empty());
        views_push(log.collation_expired@, event);
    }
    log.collation_expired.push(event);
    assert(log@ =~= after_expired(
        old(log)@,
        g,
        groups_found(*head),
        groups_found(*candidate),
        time@,
    ));
}

// ---- Whole logs ----
/// The pattern for a kind of line.
pub open spec fn pattern_for(kind: LineKind) -> Seq<char> {
    match kind {
        LineKind::Import => BLOCK_IMPORT@,
        LineKind::NotBuilding => NOT_BUILDING@,
        LineKind::Building => BUILDING@,
        LineKind::PreSealed => PRE_SEALED@,
        LineKind::Submission => COLLATION_SUBMIT@,
        LineKind::FetchLatency => FETCH_LATENCY@,
        LineKind::Candidate => CANDIDATE_GENERATED@,
        LineKind::View => VIEW_UPDATE@,
        LineKind::Expired => COLLATION_EXPIRED@,
        LineKind::Other => Seq::empty(),
    }
}

/// A log with what the groups of a line's pattern give.
pub open spec fn after_match(
    log: ParsedLogView,
    kind: LineKind,
    g: Seq<Option<Seq<char>>>,
    line: Seq<char>,
    time: int,
    para_id: u32,
) -> ParsedLogView {
    match kind {
        LineKind::Import => after_import(log, g, line, time),
        LineKind::NotBuilding => after_not_building(log, g, time),
        LineKind::Building => after_building(log, g, time),
        LineKind::PreSealed => after_pre_sealed(log, g, time),
        LineKind::Submission => after_submission(log, g, time),
        LineKind::FetchLatency => after_fetch(log, g, para_id, time),
        LineKind::Candidate => after_candidate(log, g, para_id, time),
        LineKind::View => after_view(log, g, time),
        LineKind::Expired => after_expired(
            log,
            g,
            captured_groups(HEAD@, line),
            captured_groups(CANDIDATE_HASH@, line),
            time,
        ),
        LineKind::Other => log,
    }
}

/// A log with what one more line tells: a line of a known kind, with a timestamp, that matches the
/// pattern of its kind.
pub open spec fn after_line(log: ParsedLogView, line: Seq<char>, para_id: u32) -> ParsedLogView {
    let kind = kind_of(line);
    if kind == LineKind::Other {
        log
    } else {
        match (
            time_in_groups(captured_groups(TIMESTAMP@, line)),
            captured_groups(pattern_for(kind), line),
        ) {
            (Some(time), Some(g)) => after_match(log, kind, g, line, time, para_id),
            _ => log,
        }
    }
}

/// Adds to a log what one more line tells.
pub fn parse_line(log: &mut ParsedLog, line: &str, para_id: u32, patterns: &Patterns)
    requires
        patterns.wf(),
        old(log).hash_registry.wf(),
    ensures
        final(log)@ == after_line(old(log)@, line@, para_id),
        final(log).hash_registry.wf(),
{
    let kind = line_kind(line);
    if kind == LineKind::Other {
        return;
    }
    let time = match parse_timestamp(line, patterns) {
        Some(time) => time,
        None => {
            return;
        },
    };
    match kind {
        LineKind::Import => {
            if let Some(g) = patterns.block_import.captures(line) {
                add_import(log, &g, line, time);
            }
        },
        LineKind::NotBuilding => {
            if let Some(g) = patterns.not_building.captures(line) {
                add_not_building(log, &g, time);
            }
        },
        LineKind::Building => {
            if let Some(g) = patterns.building.captures(line) {
                add_building(log, &g, time);
            }
        },
        LineKind::PreSealed => {
            if let Some(g) = patterns.pre_sealed.captures(line) {
                add_pre_sealed(log, &g, time);
            }
        },
        LineKind::Submission => {
            if let Some(g) = patterns.collation_submit.captures(line) {
                add_submission(log, &g, time);
            }
        },
        LineKind::FetchLatency => {
            if let Some(g) = patterns.fetch_latency.captures(line) {
                add_fetch(log, &g, para_id, time);
            }
        },
        LineKind::Candidate => {
            if let Some(g) = patterns.candidate_generated.captures(line) {
                add_candidate(log, &g, para_id, time);
            }
        },
        LineKind::View => {
            if let Some(g) = patterns.view_update.captures(line) {
                add_view(log, &g, time);
            }
        },
        LineKind::Expired => {
            if let Some(g) = patterns.collation_expired.captures(line) {
                let head = patterns.head.captures(line);
                let candidate = patterns.candidate_hash.captures(line);
                add_expired(log, &g, &head, &candidate, time);
            }
        },
        LineKind::Other => {},
    }
}

/// What the first `n` lines tell.
pub open spec fn after_lines(lines: Seq<Seq<char>>, n: nat, para_id: u32) -> ParsedLogView
    decreases n,
{
    if n == 0 {
        crate::logs::empty_log()
    } else {
        after_line(after_lines(lines, (n - 1) as nat, para_id), lines[n - 1], para_id)
    }
}

/// A log with each list of events turned round.
pub open spec fn turned_round(log: ParsedLogView) -> ParsedLogView {
    ParsedLogView {
        para_imports: log.para_imports.reverse(),
        relay_imports: log.relay_imports.reverse(),
        build_attempts: log.build_attempts.reverse(),
        pre_sealed: log.pre_sealed.reverse(),
        collation_submissions: log.collation_submissions.reverse(),
        collation_fetches: log.collation_fetches.reverse(),
        candidates_generated: log.candidates_generated.reverse(),
        view_updates: log.view_updates.reverse(),
        collation_expired: log.collation_expired.reverse(),
        ..log
    }
}

/// What the lines of a log, the latest first, tell: the events in the order of time.
pub open spec fn log_of(lines: Seq<Seq<char>>, para_id: u32) -> ParsedLogView {
    turned_round(after_lines(lines, lines.len(), para_id))
}

/// The elements, the last one first.
fn reversed<T: View>(v: Vec<T>) -> (turned: Vec<T>)
    ensures
        views(turned@) == views(v@).reverse(),
{
    let mut rest = v;
    let mut turned: Vec<T> = Vec::new();
    while rest.len() > 0
        invariant
            rest@.len() <= v@.len(),
            rest@ == v@.take(rest@.len() as int),
            turned@.len() + rest@.len() == v@.len(),
            forall|i: int| 0 <= i < turned@.len() ==> turned@[i] == v@[v@.len() - 1 - i],
        decreases rest@.len(),
    {
        if let Some(x) = rest.pop() {
            turned.push(x);
        }
    }
    assert(views(turned@) =~= views(v@).reverse());
    turned
}

/// The events of a log. The lines are in reverse chronological order, the events in
/// chronological order.
pub fn parse_log(lines: &Vec<String>, para_id: u32, patterns: &Patterns) -> (log: ParsedLog)
    requires
        patterns.wf(),
    ensures
        log@ == log_of(views(lines@), para_id),
        log.hash_registry.wf(),
{
    let mut log = ParsedLog::new();
    let mut i: usize = 0;
    while i < lines.len()
        invariant
            i <= lines@.len(),
            patterns.wf(),
            log@ == after_lines(views(lines@), i as nat, para_id),
            log.hash_registry.wf(),
        decreases lines@.len() - i,
    {
        parse_line(&mut log, lines[i].as_str(), para_id, patterns);
        i = i + 1;
    }
    let turned = ParsedLog {
        para_imports: reversed(log.para_imports),
        relay_imports: reversed(log.relay_imports),
        build_attempts: reversed(log.build_attempts),
        pre_sealed: reversed(log.pre_sealed),
        collation_submissions: reversed(log.collation_submissions),
        collation_fetches: reversed(log.collation_fetches),
        candidates_generated: reversed(log.candidates_generated),
        view_updates: reversed(log.view_updates),
        collation_expired: reversed(log.collation_expired),
        advertising_peers: log.advertising_peers,
        peer_connections: log.peer_connections,
        hash_registry: log.hash_registry,
    };
    assert(turned@ =~= log_of(views(lines@), para_id));
    turned
}

// ---- What the order of lines means ----
/// Whether the events of `x` are those of `p` followed by those of `y`.
pub open spec fn is_joined(x: ParsedLogView, p: ParsedLogView, y: ParsedLogView) -> bool {
    &&& x.para_imports == p.para_imports + y.para_imports
    &&& x.relay_imports == p.relay_imports + y.relay_imports
    &&& x.build_attempts == p.build_attempts + y.build_attempts
    &&& x.pre_sealed == p.pre_sealed + y.pre_sealed
    &&& x.collation_submissions == p.collation_submissions + y.collation_submissions
    &&& x.collation_fetches == p.collation_fetches + y.collation_fetches
    &&& x.candidates_generated == p.candidates_generated + y.candidates_generated
    &&& x.view_updates == p.view_updates + y.view_updates
    &&& x.collation_expired == p.collation_expired + y.collation_expired
}

proof fn line_keeps_joined(
    x: ParsedLogView,
    p: ParsedLogView,
    y: ParsedLogView,
    line: Seq<char>,
    para_id: u32,
)
    requires
        is_joined(x, p, y),
    ensures
        is_joined(after_line(x, line, para_id), p, after_line(y, line, para_id)),
{
    let a = after_line(x, line, para_id);
    let b = after_line(y, line, para_id);
    assert(a.para_imports =~= p.para_imports + b.para_imports);
    assert(a.relay_imports =~= p.relay_imports + b.relay_imports);
    assert(a.build_attempts =~= p.build_attempts + b.build_attempts);
    assert(a.pre_sealed =~= p.pre_sealed + b.pre_sealed);
    assert(a.collation_submissions =~= p.collation_submissions + b.collation_submissions);
    assert(a.collation_fetches =~= p.collation_fetches + b.collation_fetches);
    assert(a.candidates_generated =~= p.candidates_generated + b.candidates_generated);
    assert(a.view_updates =~= p.view_updates + b.view_updates);
    assert(a.collation_expired =~= p.collation_expired + b.collation_expired);
}

proof fn lines_are_joined(a: Seq<Seq<char>>, b: Seq<Seq<char>>, n: nat, para_id: u32)
    requires
        n <= b.len(),
    ensures
        is_joined(
            after_lines(a + b, a.len() + n, para_id),
            after_lines(a, a.len(), para_id),
            after_lines(b, n, para_id),
        ),
    decreases n,
{
    if n == 0 {
        same_first_lines(a, b, a.len(), para_id);
        let x = after_lines(a, a.len(), para_id);
        assert(is_joined(x, x, crate::logs::empty_log())) by {
            assert(x.para_imports =~= x.para_imports + crate::logs::empty_log().para_imports);
            assert(x.relay_imports =~= x.relay_imports + crate::logs::empty_log().relay_imports);
            assert(x.build_attempts =~= x.build_attempts + crate::logs::empty_log().build_attempts);
            assert(x.pre_sealed =~= x.pre_sealed + crate::logs::empty_log().pre_sealed);
            assert(x.collation_submissions =~= x.collation_submissions
                + crate::logs::empty_log().collation_submissions);
            assert(x.collation_fetches =~= x.collation_fetches
                + crate::logs::empty_log().collation_fetches);
            assert(x.candidates_generated =~= x.candidates_generated
                + crate::logs::empty_log().candidates_generated);
            assert(x.view_updates =~= x.view_updates + crate::logs::empty_log().view_updates);
            assert(x.collation_expired =~= x.collation_expired
                + crate::logs::empty_log().collation_expired);
        }
    } else {
        lines_are_joined(a, b, (n - 1) as nat, para_id);
        assert((a + b)[a.len() + n - 1] == b[n - 1]);
        line_keeps_joined(
            after_lines(a + b, (a.len() + n - 1) as nat, para_id),
            after_lines(a, a.len(), para_id),
            after_lines(b, (n - 1) as nat, para_id),
            b[n - 1],
            para_id,
        );
    }
}

proof fn same_first_lines(a: Seq<Seq<char>>, b: Seq<Seq<char>>, n: nat, para_id: u32)
    requires
        n <= a.len(),
    ensures
        after_lines(a + b, n, para_id) == after_lines(a, n, para_id),
    decreases n,
{
    if n > 0 {
        same_first_lines(a, b, (n - 1) as nat, para_id);
    }
}

/// The lines of a log are in reverse chronological order: where a log is put together from newer
/// and older lines, the events of the older lines come first.
pub proof fn older_lines_come_first(newer: Seq<Seq<char>>, older: Seq<Seq<char>>, para_id: u32)
    ensures
        is_joined(
            log_of(newer + older, para_id),
            log_of(older, para_id),
            log_of(newer, para_id),
        ),
{
    lines_are_joined(newer, older, older.len(), para_id);
    let x = after_lines(newer + older, newer.len() + older.len(), para_id);
    let p = after_lines(newer, newer.len(), para_id);
    let y = after_lines(older, older.len(), para_id);
    assert(x.para_imports.reverse() =~= y.para_imports.reverse() + p.para_imports.reverse());
    assert(x.relay_imports.reverse() =~= y.relay_imports.reverse() + p.relay_imports.reverse());
    assert(x.build_attempts.reverse() =~= y.build_attempts.reverse() + p.build_attempts.reverse());
    assert(x.pre_sealed.reverse() =~= y.pre_sealed.reverse() + p.pre_sealed.reverse());
    assert(x.collation_submissions.reverse() =~= y.collation_submissions.reverse()
        + p.collation_submissions.reverse());
    assert(x.collation_fetches.reverse() =~= y.collation_fetches.reverse()
        + p.collation_fetches.reverse());
    assert(x.candidates_generated.reverse() =~= y.candidates_generated.reverse()
        + p.candidates_generated.reverse());
    assert(x.view_updates.reverse() =~= y.view_updates.reverse() + p.view_updates.reverse());
    assert(x.collation_expired.reverse() =~= y.collation_expired.reverse()
        + p.collation_expired.reverse());
}

// ---- Logs of several collators ----
/// A file of a log directory.
pub struct LogFile {
    /// The name of the file; what is not Unicode in it is replaced.
    pub name: String,
    /// Whether the whole name is Unicode.
    pub unicode: bool,
    pub lines: Vec<String>,
}

/// What a `LogFile` holds.
#[verifier::ext_equal]
pub struct LogFileView {
    pub name: Seq<char>,
    pub unicode: bool,
    pub lines: Seq<Seq<char>>,
}

impl View for LogFile {
    type V = LogFileView;

    open spec fn view(&self) -> LogFileView {
        LogFileView { name: self.name@, unicode: self.unicode, lines: views(self.lines@) }
    }
}

/// Whether a file name is that of a log: a name with the extension "txt".
pub open spec fn is_log_name(name: Seq<char>) -> bool {
    name.len() > 4 && name.skip(name.len() - 4) == seq!['.', 't', 'x', 't']
}

/// The name of the collator whose log a file holds: the file name without the extension.
pub open spec fn collator_of(file: LogFileView) -> Seq<char> {
    if file.unicode {
        file.name.take(file.name.len() - 4)
    } else {
        "unknown"@
    }
}

/// Whether a file name is that of a log.
pub fn is_log_file(name: &str) -> (yes: bool)
    ensures
        yes == is_log_name(name@),
{
    let chars = chars_of(name);
    let n = chars.len();
    let yes = n > 4 && chars[n - 4] == '.' && chars[n - 3] == 't' && chars[n - 2] == 'x' && chars[n
        - 1] == 't';
    proof {
        if name@.len() > 4 {
            let tail = name@.skip(name@.len() - 4);
            assert(tail.len() == 4);
            assert(tail[0] == name@[name@.len() - 4] && tail[1] == name@[name@.len() - 3] && tail[2]
                == name@[name@.len() - 2] && tail[3] == name@[name@.len() - 1]);
            if yes {
                assert(tail =~= seq!['.', 't', 'x', 't']);
            }
        }
    }
    yes
}

/// The name of the collator whose log a file holds.
fn collator_name(file: &LogFile) -> (name: String)
    requires
        is_log_name(file.name@),
    ensures
        name@ == collator_of(file@),
{
    if file.unicode {
        let chars = chars_of(file.name.as_str());
        let name = text_between(&chars, 0, chars.len() - 4);
        assert(name@ =~= file.name@.take(file.name@.len() - 4));
        name
    } else {
        "unknown".to_owned()
    }
}

/// A log whose parachain imports carry the name of a collator.
pub open spec fn tagged(log: ParsedLogView, name: Seq<char>) -> ParsedLogView {
    ParsedLogView {
        para_imports: Seq::new(
            log.para_imports.len(),
            |i: int| ParaBlockImportView { collator: Some(name), ..log.para_imports[i] },
        ),
        ..log
    }
}

/// Tags all parachain imports with the name of a collator.
fn tag(log: &mut ParsedLog, name: &String)
    ensures
        final(log)@ == tagged(old(log)@, name@),
        final(log).hash_registry == old(log).hash_registry,
{
    let mut tagged_imports: Vec<ParaBlockImport> = Vec::new();
    let mut i: usize = 0;
    while i < log.para_imports.len()
        invariant
            i <= log.para_imports@.len(),
            *log == *old(log),
            views(tagged_imports@) == tagged(old(log)@, name@).para_imports.take(i as int),
        decreases log.para_imports@.len() - i,
    {
        let import = &log.para_imports[i];
        let copy = ParaBlockImport {
            block_number: import.block_number,
            parent_hash: import.parent_hash.clone(),
            block_hash: import.block_hash.clone(),
            timestamp: import.timestamp,
            is_best: import.is_best,
            collator: Some(name.clone()),
        };
        proof {
            views_push(tagged_imports@, copy);
            assert(copy@ =~= tagged(old(log)@, name@).para_imports[i as int]);
            assert(views(tagged_imports@).push(copy@) =~= tagged(
                old(log)@,
                name@,
            ).para_imports.take(i + 1));
        }
        tagged_imports.push(copy);
        i = i + 1;
    }
    log.para_imports = tagged_imports;
    assert(log@ =~= tagged(old(log)@, name@));
}

/// The logs in the first `n` files.
pub open spec fn logs_in(files: Seq<LogFileView>, n: nat, para_id: u32) -> Seq<CollatorLogView>
    decreases n,
{
    if n == 0 {
        Seq::empty()
    } else {
        let before = logs_in(files, (n - 1) as nat, para_id);
        let file = files[n - 1];
        if is_log_name(file.name) {
            with_log(
                before,
                collator_of(file),
                tagged(log_of(file.lines, para_id), collator_of(file)),
            )
        } else {
            before
        }
    }
}

/// Whether one of the first `n` files is a log.
pub open spec fn has_log(files: Seq<LogFileView>, n: nat) -> bool {
    exists|i: int| 0 <= i < n && is_log_name(#[trigger] files[i].name)
}

/// Why the files of a directory give no logs.
#[derive(Clone, Copy, Debug, PartialEq, Eq, Structural)]
pub enum LogDirError {
    /// No `*.txt` files.
    NoLogFiles,
}

/// Parses all `*.txt` files of a directory, one per collator.
/// The file name (without extension) is used as the collator name.
pub fn parse_log_dir(files: &Vec<LogFile>, para_id: u32, patterns: &Patterns) -> (multi: Result<
    MultiCollatorLogs,
    LogDirError,
>)
    requires
        patterns.wf(),
    ensures
        match multi {
            Ok(m) => has_log(views(files@), files@.len()) && m@ == logs_in(
                views(files@),
                files@.len(),
                para_id,
            ) && m.wf(),
            Err(e) => !has_log(views(files@), files@.len()) && e == LogDirError::NoLogFiles,
        },
{
    let mut multi = MultiCollatorLogs::new();
    let mut found = false;
    let mut i: usize = 0;
    while i < files.len()
        invariant
            i <= files@.len(),
            patterns.wf(),
            multi.wf(),
            multi@ == logs_in(views(files@), i as nat, para_id),
            found == has_log(views(files@), i as nat),
        decreases files@.len() - i,
    {
        let file = &files[i];
        assert(views(files@)[i as int] == file@);
        if is_log_file(file.name.as_str()) {
            let name = collator_name(file);
            let mut log = parse_log(&file.lines, para_id, patterns);
            tag(&mut log, &name);
            multi.insert(name, log);
            found = true;
            assert(is_log_name(views(files@)[i as int].name));
        } else {
            proof {
                if has_log(views(files@), (i + 1) as nat) {
                    let k = choose|k: int|
                        0 <= k < i + 1 && is_log_name(#[trigger] views(files@)[k].name);
                    assert(k < i);
                }
                if has_log(views(files@), i as nat) {
                    let k = choose|k: int|
                        0 <= k < i && is_log_name(#[trigger] views(files@)[k].name);
                    assert(0 <= k < i + 1 && is_log_name(views(files@)[k].name));
                }
            }
        }
        i = i + 1;
    }
    if found {
        Ok(multi)
    } else {
        Err(LogDirError::NoLogFiles)
    }
}

} // verus!
