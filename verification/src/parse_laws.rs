//! What holds of reading logs: each kind of line is told by its words, and each value behind its own
//! name in a line goes to its own field.

use crate::hash::{
    auto_hash, full_text, hash_in_full_text, truncated_text, whole_hash, with_text, with_texts,
    LogHashView, RegistryView,
};
use crate::hex;
use crate::log_parser::{
    after_line, after_lines, collator_of, has_log, is_joined, is_log_name, log_of, logs_in, tagged,
    u32_in, u64_in, LogFileView,
};
use crate::logs::{names_ascend, with_log_places};
use crate::patterns::{
    captured_groups, BLOCK_IMPORT, BUILDING, CANDIDATE_GENERATED, CANDIDATE_HASH, COLLATION_EXPIRED,
    COLLATION_SUBMIT, FETCH_LATENCY, HEAD, NOT_BUILDING, PRE_SEALED, TIMESTAMP, VIEW_UPDATE,
};
use crate::text::{decimal, list_items, occurs_in};
use crate::text_laws::{bytes_are_not_fewer, number_reads_back};
use crate::time::{chrono_time, LOG_TIME_FORMAT};
use crate::types::{CollatorLogView, ParsedLogView};
use vstd::prelude::*;

verus! {

// ---- What a line tells of ----
/// Whether a line holds the words of the `k`-th kind of line.
pub open spec fn holds_words(line: Seq<char>, k: int) -> bool {
    ||| k == 0 && occurs_in("Imported #"@, line)
    ||| k == 1 && occurs_in("Not building block"@, line)
    ||| k == 2 && occurs_in("Building block."@, line) && !occurs_in("Not building"@, line)
    ||| k == 3 && occurs_in("Pre-sealed block"@, line)
    ||| k == 4 && occurs_in("Submitting collation"@, line)
    ||| k == 5 && occurs_in("Collation fetch latency"@, line)
    ||| k == 6 && occurs_in("Candidate generated"@, line)
    ||| k == 7 && occurs_in("Our view updated"@, line)
    ||| k == 8 && occurs_in("Collation expired"@, line)
}

/// Whether a line is of the `k`-th kind: it holds the words of that kind and those of no kind
/// before it.
pub open spec fn is_about(line: Seq<char>, k: int) -> bool {
    holds_words(line, k) && forall|j: int| j < k ==> !(#[trigger] holds_words(line, j))
}

/// Whether the timestamp in a line gives a time: a second since the beginning of 1970, and the
/// milliseconds in it.
pub open spec fn is_dated(line: Seq<char>, time: int) -> bool {
    exists|g: Seq<Option<Seq<char>>>, secs: i64, nanos: u32|
        {
            &&& captured_groups(TIMESTAMP@, line) == Some(g)
            &&& g.len() > 1
            &&& g[1] is Some
            &&& #[trigger] chrono_time(g[1]->0, LOG_TIME_FORMAT@) == Some((secs, nanos))
            &&& crate::time::is_time(secs as int, nanos as int / 1_000_000)
            &&& time == #[trigger] moment_of(secs as int, nanos as int)
        }
}

/// A second and the nanoseconds in it, to the millisecond, as one number.
pub open spec fn moment_of(secs: int, nanos: int) -> int {
    secs * 2000 + nanos / 1_000_000
}

/// The groups of a match: the whole match, then the groups of the pattern.
pub open spec fn group_list(
    whole: Option<Seq<char>>,
    groups: Seq<Option<Seq<char>>>,
) -> Seq<Option<Seq<char>>> {
    seq![whole] + groups
}

/// Whether a pattern matches in a line, with these groups.
pub open spec fn is_matched(
    pattern: Seq<char>,
    line: Seq<char>,
    groups: Seq<Option<Seq<char>>>,
) -> bool {
    exists|whole: Option<Seq<char>>|
        captured_groups(pattern, line) == Some(#[trigger] group_list(whole, groups))
}

/// A number as a line shows it.
pub open spec fn number(n: int) -> Option<Seq<char>> {
    Some(decimal(n as nat))
}

/// A number that a line may leave out, as it shows it.
pub open spec fn maybe_number(n: Option<u32>) -> Option<Seq<char>> {
    match n {
        Some(n) => number(n as int),
        None => None,
    }
}

/// Whether a hash is that which a line shows, whole or with its middle left out.
pub open spec fn is_shown(h: LogHashView, text: Seq<char>) -> bool {
    &&& h.raw == text
    &&& forall|full: Seq<u8>|
        full.len() == 32 && text == #[trigger] full_text(full) ==> h.full == Some(full)
    &&& text.contains('…') ==> h.full is None
}

/// What a registry knows after a text was seen: more where the text is a whole hash.
pub open spec fn learned(r: RegistryView, text: Seq<char>) -> RegistryView {
    if text.contains('…') {
        r
    } else {
        with_text(r, text)
    }
}

/// As `learned`, of a text that may be missing.
pub open spec fn maybe_learned(r: RegistryView, text: Option<Seq<char>>) -> RegistryView {
    match text {
        Some(text) => learned(r, text),
        None => r,
    }
}

/// Whether a hash that may be missing is that which a line shows.
pub open spec fn is_maybe_shown(h: Option<LogHashView>, text: Option<Seq<char>>) -> bool {
    match text {
        Some(text) => h matches Some(h) && is_shown(h, text),
        None => h is None,
    }
}

/// A whole hash in a log is known in full; one with its middle left out is known only by its text.
pub proof fn hashes_are_shown(text: Seq<char>)
    ensures
        is_shown(auto_hash(text), text),
        is_shown(whole_hash(text), text),
{
    assert forall|full: Seq<u8>| full.len() == 32 && text == #[trigger] full_text(full) implies ({
        &&& auto_hash(text).full == Some(full)
        &&& whole_hash(text).full == Some(full)
    }) by {
        hash_in_full_text(full);
        hex::decode_encode(full);
        hex::hex_bytes_lengths(hex::hex_text(full));
        bytes_are_not_fewer(hex::hex_text(full));
        bytes_are_not_fewer(text);
        if text.contains('…') {
            let i = choose|i: int| 0 <= i < text.len() && text[i] == '…';
            assert(i >= 2);
            assert(hex::hex_text(full)[i - 2] == '…');
        }
    }
    if text.contains('…') {
        let digits = crate::hash::without_0x(text);
        let i = choose|i: int| 0 <= i < text.len() && text[i] == '…';
        if digits != text {
            assert(i >= 2);
            assert(digits[i - 2] == '…');
        }
        assert(digits.contains('…'));
        bytes_are_not_fewer(digits);
        hex::hex_bytes_lengths(digits);
    }
}

/// Where a registry is told of a whole hash, it then finds that hash by its whole text and by the
/// text with the middle left out; a text with the middle left out tells it nothing.
pub proof fn whole_hashes_are_learned(r: RegistryView, full: Seq<u8>)
    requires
        full.len() == 32,
    ensures
        learned(r, full_text(full)).by_full == r.by_full.insert(full_text(full), full),
        learned(r, full_text(full)).by_truncated == r.by_truncated.insert(
            truncated_text(full),
            full,
        ),
        learned(r, truncated_text(full)) == r,
{
    hash_in_full_text(full);
    hex::decode_encode(full);
    hex::hex_bytes_lengths(hex::hex_text(full));
    bytes_are_not_fewer(hex::hex_text(full));
    let text = full_text(full);
    if text.contains('…') {
        let i = choose|i: int| 0 <= i < text.len() && text[i] == '…';
        assert(i >= 2);
        assert(hex::hex_text(full)[i - 2] == '…');
    }
    let t = truncated_text(full);
    assert(t[6] == '…');
}

proof fn u32_reads_back(n: u32)
    ensures
        u32_in(decimal(n as nat)) == n,
{
    number_reads_back(n as nat, u32::MAX as nat);
}

proof fn u64_reads_back(n: u64)
    ensures
        u64_in(decimal(n as nat)) == n,
{
    number_reads_back(n as nat, u64::MAX as nat);
}

proof fn time_is_read(line: Seq<char>, time: int)
    requires
        is_dated(line, time),
    ensures
        crate::log_parser::time_in_groups(captured_groups(TIMESTAMP@, line)) == Some(time),
{
    let (g, secs, nanos) = choose|g: Seq<Option<Seq<char>>>, secs: i64, nanos: u32|
        {
            &&& captured_groups(TIMESTAMP@, line) == Some(g)
            &&& g.len() > 1
            &&& g[1] is Some
            &&& #[trigger] chrono_time(g[1]->0, LOG_TIME_FORMAT@) == Some((secs, nanos))
            &&& crate::time::is_time(secs as int, nanos as int / 1_000_000)
            &&& time == #[trigger] moment_of(secs as int, nanos as int)
        };
}

/// A line that holds the words of no kind, that has no time, or that does not match the pattern of
/// its kind, adds nothing to a log.
pub proof fn other_lines_add_nothing(log: ParsedLogView, line: Seq<char>, para_id: u32, k: int)
    requires
        ({
            ||| forall|j: int| !(#[trigger] holds_words(line, j))
            ||| captured_groups(TIMESTAMP@, line) is None
            ||| is_about(line, k) && captured_groups(pattern_of(k), line) is None
        }),
    ensures
        after_line(log, line, para_id) == log,
{
    kinds_are_told(line);
    if is_about(line, k) {
        assert(crate::log_parser::kind_of(line) == kind(k));
    }
}

/// The pattern for the `k`-th kind of line.
pub open spec fn pattern_of(k: int) -> Seq<char> {
    if k == 0 {
        BLOCK_IMPORT@
    } else if k == 1 {
        NOT_BUILDING@
    } else if k == 2 {
        BUILDING@
    } else if k == 3 {
        PRE_SEALED@
    } else if k == 4 {
        COLLATION_SUBMIT@
    } else if k == 5 {
        FETCH_LATENCY@
    } else if k == 6 {
        CANDIDATE_GENERATED@
    } else if k == 7 {
        VIEW_UPDATE@
    } else {
        COLLATION_EXPIRED@
    }
}

spec fn kind(k: int) -> crate::log_parser::LineKind {
    if k == 0 {
        crate::log_parser::LineKind::Import
    } else if k == 1 {
        crate::log_parser::LineKind::NotBuilding
    } else if k == 2 {
        crate::log_parser::LineKind::Building
    } else if k == 3 {
        crate::log_parser::LineKind::PreSealed
    } else if k == 4 {
        crate::log_parser::LineKind::Submission
    } else if k == 5 {
        crate::log_parser::LineKind::FetchLatency
    } else if k == 6 {
        crate::log_parser::LineKind::Candidate
    } else if k == 7 {
        crate::log_parser::LineKind::View
    } else {
        crate::log_parser::LineKind::Expired
    }
}

proof fn kinds_are_told(line: Seq<char>)
    ensures
        forall|k: int| #[trigger] is_about(line, k) ==> crate::log_parser::kind_of(line) == kind(k),
        (forall|k: int| !(#[trigger] holds_words(line, k))) ==> crate::log_parser::kind_of(line)
            == crate::log_parser::LineKind::Other,
{
    assert forall|k: int| #[trigger] is_about(line, k) implies crate::log_parser::kind_of(line)
        == kind(k) by {
        assert(holds_words(line, k));
        assert(0 <= k <= 8);
        assert(k > 0 ==> !holds_words(line, 0));
        assert(k > 1 ==> !holds_words(line, 1));
        assert(k > 2 ==> !holds_words(line, 2));
        assert(k > 3 ==> !holds_words(line, 3));
        assert(k > 4 ==> !holds_words(line, 4));
        assert(k > 5 ==> !holds_words(line, 5));
        assert(k > 6 ==> !holds_words(line, 6));
        assert(k > 7 ==> !holds_words(line, 7));
    }
    if forall|k: int| !(#[trigger] holds_words(line, k)) {
        assert(!holds_words(line, 0) && !holds_words(line, 1) && !holds_words(line, 2));
        assert(!holds_words(line, 3) && !holds_words(line, 4) && !holds_words(line, 5));
        assert(!holds_words(line, 6) && !holds_words(line, 7) && !holds_words(line, 8));
    }
}

// ---- What each kind of line adds ----
/// A line on an import of the parachain adds an import: the number, the parent and the hash are each
/// the value behind its own name, and the import is best where the line holds a trophy.
pub proof fn para_import_is_read(
    log: ParsedLogView,
    line: Seq<char>,
    para_id: u32,
    time: int,
    block: u32,
    parent: Seq<char>,
    hash: Seq<char>,
)
    requires
        is_about(line, 0),
        is_dated(line, time),
        is_matched(
            BLOCK_IMPORT@,
            line,
            seq![Some("Parachain"@), number(block as int), Some(parent), Some(hash)],
        ),
    ensures
        ({
            let new = after_line(log, line, para_id);
            let e = new.para_imports.last();
            &&& new == (ParsedLogView {
                para_imports: log.para_imports.push(e),
                ..log
            })
            &&& e.block_number == block
            &&& is_shown(e.parent_hash, parent)
            &&& is_shown(e.block_hash, hash)
            &&& e.timestamp == time
            &&& e.is_best == line.contains('🏆')
            &&& e.collator is None
        }),
{
    kinds_are_told(line);
    time_is_read(line, time);
    let groups = seq![Some("Parachain"@), number(block as int), Some(parent), Some(hash)];
    let whole = choose|whole: Option<Seq<char>>|
        captured_groups(BLOCK_IMPORT@, line) == Some(#[trigger] group_list(whole, groups));
    let g = group_list(whole, groups);
    assert(g[1] == groups[0] && g[2] == groups[1] && g[3] == groups[2] && g[4] == groups[3]);
    u32_reads_back(block);
    hashes_are_shown(parent);
    hashes_are_shown(hash);
    assert(after_line(log, line, para_id).para_imports.drop_last() =~= log.para_imports);
}

/// A line on an import of another chain adds a relay chain import, and its hashes are learned.
pub proof fn relay_import_is_read(
    log: ParsedLogView,
    line: Seq<char>,
    para_id: u32,
    time: int,
    chain: Seq<char>,
    block: u32,
    parent: Seq<char>,
    hash: Seq<char>,
)
    requires
        is_about(line, 0),
        is_dated(line, time),
        is_matched(
            BLOCK_IMPORT@,
            line,
            seq![Some(chain), number(block as int), Some(parent), Some(hash)],
        ),
        chain != "Parachain"@,
    ensures
        ({
            let new = after_line(log, line, para_id);
            let e = new.relay_imports.last();
            &&& new == (ParsedLogView {
                relay_imports: log.relay_imports.push(e),
                hash_registry: learned(learned(log.hash_registry, hash), parent),
                ..log
            })
            &&& e.block_number == block
            &&& is_shown(e.parent_hash, parent)
            &&& is_shown(e.block_hash, hash)
            &&& e.timestamp == time
        }),
{
    kinds_are_told(line);
    time_is_read(line, time);
    let groups = seq![Some(chain), number(block as int), Some(parent), Some(hash)];
    let whole = choose|whole: Option<Seq<char>>|
        captured_groups(BLOCK_IMPORT@, line) == Some(#[trigger] group_list(whole, groups));
    let g = group_list(whole, groups);
    assert(g[1] == groups[0] && g[2] == groups[1] && g[3] == groups[2] && g[4] == groups[3]);
    hashes_are_shown(chain);
    u32_reads_back(block);
    hashes_are_shown(parent);
    hashes_are_shown(hash);
    assert(after_line(log, line, para_id).relay_imports.drop_last() =~= log.relay_imports);
}

/// A line on a decision not to build adds the decision: each field is the value behind its own name.
pub proof fn not_building_line_is_read(
    log: ParsedLogView,
    line: Seq<char>,
    para_id: u32,
    time: int,
    segment: u32,
    rp: Seq<char>,
    rp_num: u32,
    ih: Seq<char>,
    included: u32,
    parent: Seq<char>,
    slot: u64,
)
    requires
        is_about(line, 1),
        is_dated(line, time),
        is_matched(
            NOT_BUILDING@,
            line,
            seq![
                number(segment as int),
                Some(rp),
                number(rp_num as int),
                Some(ih),
                number(included as int),
                Some(parent),
                number(slot as int),
            ],
        ),
    ensures
        ({
            let new = after_line(log, line, para_id);
            let e = new.build_attempts.last();
            &&& new == (ParsedLogView {
                build_attempts: log.build_attempts.push(e),
                hash_registry: with_text(with_text(with_text(log.hash_registry, rp), ih), parent),
                ..log
            })
            &&& !e.building
            &&& e.unincluded_segment_len == segment
            &&& is_shown(e.relay_parent, rp)
            &&& e.relay_parent_num == rp_num
            &&& e.relay_parent_offset is None
            &&& is_shown(e.included_hash, ih)
            &&& e.included_num == included
            &&& is_shown(e.parent, parent)
            &&& e.slot == slot
            &&& e.timestamp == time
        }),
{
    kinds_are_told(line);
    time_is_read(line, time);
    let groups = seq![
        number(segment as int),
        Some(rp),
        number(rp_num as int),
        Some(ih),
        number(included as int),
        Some(parent),
        number(slot as int),
    ];
    let whole = choose|whole: Option<Seq<char>>|
        captured_groups(NOT_BUILDING@, line) == Some(#[trigger] group_list(whole, groups));
    let g = group_list(whole, groups);
    assert(g[1] == groups[0] && g[2] == groups[1] && g[3] == groups[2] && g[4] == groups[3]
        && g[5] == groups[4] && g[6] == groups[5] && g[7] == groups[6]);
    u32_reads_back(segment);
    hashes_are_shown(rp);
    u32_reads_back(rp_num);
    hashes_are_shown(ih);
    u32_reads_back(included);
    hashes_are_shown(parent);
    u64_reads_back(slot);
    assert(after_line(log, line, para_id).build_attempts.drop_last() =~= log.build_attempts);
}

/// A line on a decision to build adds the decision: each field is the value behind its own name,
/// whatever the other values are.
pub proof fn building_line_is_read(
    log: ParsedLogView,
    line: Seq<char>,
    para_id: u32,
    time: int,
    segment: u32,
    rp: Seq<char>,
    rp_num: u32,
    offset: Option<u32>,
    ih: Seq<char>,
    included: u32,
    parent: Seq<char>,
    slot: u64,
)
    requires
        is_about(line, 2),
        is_dated(line, time),
        is_matched(
            BUILDING@,
            line,
            seq![
                number(segment as int),
                Some(rp),
                number(rp_num as int),
                maybe_number(offset),
                Some(ih),
                number(included as int),
                Some(parent),
                number(slot as int),
            ],
        ),
    ensures
        ({
            let new = after_line(log, line, para_id);
            let e = new.build_attempts.last();
            &&& new == (ParsedLogView {
                build_attempts: log.build_attempts.push(e),
                hash_registry: learned(learned(learned(log.hash_registry, rp), ih), parent),
                ..log
            })
            &&& e.building
            &&& e.unincluded_segment_len == segment
            &&& is_shown(e.relay_parent, rp)
            &&& e.relay_parent_num == rp_num
            &&& e.relay_parent_offset == offset
            &&& is_shown(e.included_hash, ih)
            &&& e.included_num == included
            &&& is_shown(e.parent, parent)
            &&& e.slot == slot
            &&& e.timestamp == time
        }),
{
    kinds_are_told(line);
    time_is_read(line, time);
    let groups = seq![
        number(segment as int),
        Some(rp),
        number(rp_num as int),
        maybe_number(offset),
        Some(ih),
        number(included as int),
        Some(parent),
        number(slot as int),
    ];
    let whole = choose|whole: Option<Seq<char>>|
        captured_groups(BUILDING@, line) == Some(#[trigger] group_list(whole, groups));
    let g = group_list(whole, groups);
    assert(g[1] == groups[0] && g[2] == groups[1] && g[3] == groups[2] && g[4] == groups[3]
        && g[5] == groups[4] && g[6] == groups[5] && g[7] == groups[6] && g[8] == groups[7]);
    u32_reads_back(segment);
    hashes_are_shown(rp);
    u32_reads_back(rp_num);
    if let Some(n) = offset {
        u32_reads_back(n);
    }
    hashes_are_shown(ih);
    u32_reads_back(included);
    hashes_are_shown(parent);
    u64_reads_back(slot);
    assert(after_line(log, line, para_id).build_attempts.drop_last() =~= log.build_attempts);
}

/// A line on a sealed block adds the seal: the number, the hash with the seal and the one without.
pub proof fn pre_sealed_line_is_read(
    log: ParsedLogView,
    line: Seq<char>,
    para_id: u32,
    time: int,
    block: u32,
    post: Seq<char>,
    pre: Seq<char>,
)
    requires
        is_about(line, 3),
        is_dated(line, time),
        is_matched(
            PRE_SEALED@,
            line,
            seq![number(block as int), Some(post), Some(pre)],
        ),
    ensures
        ({
            let new = after_line(log, line, para_id);
            let e = new.pre_sealed.last();
            &&& new == (ParsedLogView {
                pre_sealed: log.pre_sealed.push(e),
                hash_registry: with_text(with_text(log.hash_registry, post), pre),
                ..log
            })
            &&& e.block_number == block
            &&& is_shown(e.post_hash, post)
            &&& is_shown(e.pre_hash, pre)
            &&& e.timestamp == time
        }),
{
    kinds_are_told(line);
    time_is_read(line, time);
    let groups = seq![number(block as int), Some(post), Some(pre)];
    let whole = choose|whole: Option<Seq<char>>|
        captured_groups(PRE_SEALED@, line) == Some(#[trigger] group_list(whole, groups));
    let g = group_list(whole, groups);
    assert(g[1] == groups[0] && g[2] == groups[1] && g[3] == groups[2]);
    u32_reads_back(block);
    hashes_are_shown(post);
    hashes_are_shown(pre);
    assert(after_line(log, line, para_id).pre_sealed.drop_last() =~= log.pre_sealed);
}

/// A line on a submission adds it: the core, the hash and the number of the block.
pub proof fn submission_line_is_read(
    log: ParsedLogView,
    line: Seq<char>,
    para_id: u32,
    time: int,
    core: u32,
    hash: Seq<char>,
    block: u32,
)
    requires
        is_about(line, 4),
        is_dated(line, time),
        is_matched(
            COLLATION_SUBMIT@,
            line,
            seq![number(core as int), Some(hash), number(block as int)],
        ),
    ensures
        ({
            let new = after_line(log, line, para_id);
            let e = new.collation_submissions.last();
            &&& new == (ParsedLogView {
                collation_submissions: log.collation_submissions.push(e),
                hash_registry: learned(log.hash_registry, hash),
                ..log
            })
            &&& e.core_index == core
            &&& is_shown(e.hash, hash)
            &&& e.block_number == block
            &&& e.timestamp == time
        }),
{
    kinds_are_told(line);
    time_is_read(line, time);
    let groups = seq![number(core as int), Some(hash), number(block as int)];
    let whole = choose|whole: Option<Seq<char>>|
        captured_groups(COLLATION_SUBMIT@, line) == Some(#[trigger] group_list(whole, groups));
    let g = group_list(whole, groups);
    assert(g[1] == groups[0] && g[2] == groups[1] && g[3] == groups[2]);
    u32_reads_back(core);
    hashes_are_shown(hash);
    u32_reads_back(block);
    assert(after_line(log, line, para_id).collation_submissions.drop_last()
        =~= log.collation_submissions);
}

/// A line on the fetch of a collation of the parachain asked for adds it: the latency and the head.
pub proof fn fetch_line_is_read(
    log: ParsedLogView,
    line: Seq<char>,
    para_id: u32,
    time: int,
    latency: u64,
    head: Seq<char>,
)
    requires
        is_about(line, 5),
        is_dated(line, time),
        is_matched(
            FETCH_LATENCY@,
            line,
            seq![number(latency as int), Some(head), number(para_id as int)],
        ),
    ensures
        ({
            let new = after_line(log, line, para_id);
            let e = new.collation_fetches.last();
            &&& new == (ParsedLogView {
                collation_fetches: log.collation_fetches.push(e),
                hash_registry: with_text(log.hash_registry, head),
                ..log
            })
            &&& e.latency_ms == latency
            &&& is_shown(e.para_head, head)
            &&& e.para_id == para_id
            &&& e.timestamp == time
        }),
{
    kinds_are_told(line);
    time_is_read(line, time);
    let groups = seq![number(latency as int), Some(head), number(para_id as int)];
    let whole = choose|whole: Option<Seq<char>>|
        captured_groups(FETCH_LATENCY@, line) == Some(#[trigger] group_list(whole, groups));
    let g = group_list(whole, groups);
    assert(g[1] == groups[0] && g[2] == groups[1] && g[3] == groups[2]);
    u64_reads_back(latency);
    hashes_are_shown(head);
    u32_reads_back(para_id);
    assert(after_line(log, line, para_id).collation_fetches.drop_last() =~= log.collation_fetches);
}

/// A line on a candidate of the parachain asked for adds it: the candidate, the relay parent and the
/// core.
pub proof fn candidate_line_is_read(
    log: ParsedLogView,
    line: Seq<char>,
    para_id: u32,
    time: int,
    candidate: Seq<char>,
    rp: Seq<char>,
    core: u32,
)
    requires
        is_about(line, 6),
        is_dated(line, time),
        is_matched(
            CANDIDATE_GENERATED@,
            line,
            seq![Some(candidate), Some(rp), number(para_id as int), number(core as int)],
        ),
    ensures
        ({
            let new = after_line(log, line, para_id);
            let e = new.candidates_generated.last();
            &&& new == (ParsedLogView {
                candidates_generated: log.candidates_generated.push(e),
                hash_registry: with_text(with_text(log.hash_registry, candidate), rp),
                ..log
            })
            &&& is_shown(e.candidate_hash, candidate)
            &&& is_shown(e.relay_parent, rp)
            &&& e.para_id == para_id
            &&& e.core_index == core
            &&& e.timestamp == time
        }),
{
    kinds_are_told(line);
    time_is_read(line, time);
    let groups = seq![Some(candidate), Some(rp), number(para_id as int), number(core as int)];
    let whole = choose|whole: Option<Seq<char>>|
        captured_groups(CANDIDATE_GENERATED@, line) == Some(#[trigger] group_list(whole, groups));
    let g = group_list(whole, groups);
    assert(g[1] == groups[0] && g[2] == groups[1] && g[3] == groups[2] && g[4] == groups[3]);
    hashes_are_shown(candidate);
    hashes_are_shown(rp);
    u32_reads_back(core);
    u32_reads_back(para_id);
    assert(after_line(log, line, para_id).candidates_generated.drop_last()
        =~= log.candidates_generated);
}

/// A line on a new view adds it: the items of the list of heads and the number that is final.
pub proof fn view_line_is_read(
    log: ParsedLogView,
    line: Seq<char>,
    para_id: u32,
    time: int,
    heads: Seq<char>,
    finalized: u32,
)
    requires
        is_about(line, 7),
        is_dated(line, time),
        is_matched(
            VIEW_UPDATE@,
            line,
            seq![Some(heads), number(finalized as int)],
        ),
    ensures
        ({
            let new = after_line(log, line, para_id);
            let e = new.view_updates.last();
            &&& new == (ParsedLogView {
                view_updates: log.view_updates.push(e),
                hash_registry: with_texts(log.hash_registry, list_items(heads)),
                ..log
            })
            &&& e.heads == list_items(heads)
            &&& e.finalized_number == finalized
            &&& e.timestamp == time
        }),
{
    kinds_are_told(line);
    time_is_read(line, time);
    let groups = seq![Some(heads), number(finalized as int)];
    let whole = choose|whole: Option<Seq<char>>|
        captured_groups(VIEW_UPDATE@, line) == Some(#[trigger] group_list(whole, groups));
    let g = group_list(whole, groups);
    assert(g[1] == groups[0] && g[2] == groups[1]);
    u32_reads_back(finalized);
    assert(after_line(log, line, para_id).view_updates.drop_last() =~= log.view_updates);
}

/// A line on an expired collation adds it: the age, the state, the relay parent and its number, and
/// the head and the candidate where the line names them; nothing else is known of it yet.
pub proof fn expired_line_is_read(
    log: ParsedLogView,
    line: Seq<char>,
    para_id: u32,
    time: int,
    age: u32,
    state: Seq<char>,
    rp: Seq<char>,
    rp_num: u32,
    head: Option<Seq<char>>,
    candidate: Option<Seq<char>>,
)
    requires
        is_about(line, 8),
        is_dated(line, time),
        is_matched(
            COLLATION_EXPIRED@,
            line,
            seq![number(age as int), Some(state), Some(rp), number(rp_num as int)],
        ),
        is_found(HEAD@, line, head),
        is_found(CANDIDATE_HASH@, line, candidate),
    ensures
        ({
            let new = after_line(log, line, para_id);
            let e = new.collation_expired.last();
            &&& new == (ParsedLogView {
                collation_expired: log.collation_expired.push(e),
                hash_registry: maybe_learned(
                    maybe_learned(learned(log.hash_registry, rp), head),
                    candidate,
                ),
                ..log
            })
            &&& e.age == Some(age)
            &&& e.collation_state == state
            &&& is_shown(e.relay_parent_hash, rp)
            &&& e.relay_parent_num == rp_num
            &&& is_maybe_shown(e.head, head)
            &&& is_maybe_shown(e.candidate_hash, candidate)
            &&& e.timestamp == time
            &&& e.produced_at is None && e.advertised_at is None && e.fetched_at is None
            &&& e.advertised_to_peers.len() == 0
        }),
{
    kinds_are_told(line);
    time_is_read(line, time);
    let groups = seq![number(age as int), Some(state), Some(rp), number(rp_num as int)];
    let whole = choose|whole: Option<Seq<char>>|
        captured_groups(COLLATION_EXPIRED@, line) == Some(#[trigger] group_list(whole, groups));
    let g = group_list(whole, groups);
    assert(g[1] == groups[0] && g[2] == groups[1] && g[3] == groups[2] && g[4] == groups[3]);
    u32_reads_back(age);
    hashes_are_shown(rp);
    u32_reads_back(rp_num);
    if let Some(text) = head {
        hashes_are_shown(text);
    }
    if let Some(text) = candidate {
        hashes_are_shown(text);
    }
    assert(after_line(log, line, para_id).collation_expired.drop_last() =~= log.collation_expired);
}

/// Whether a pattern with one group finds a text in a line, or nothing.
pub open spec fn is_found(pattern: Seq<char>, line: Seq<char>, text: Option<Seq<char>>) -> bool {
    match text {
        Some(_) => captured_groups(pattern, line) matches Some(g) && g.len() > 1 && g[1] == text,
        None => captured_groups(pattern, line) is None,
    }
}

/// A line on a fetch or on a candidate of another parachain adds nothing.
pub proof fn other_parachains_add_nothing(
    log: ParsedLogView,
    line: Seq<char>,
    para_id: u32,
    other: u32,
    a: Seq<char>,
    b: Seq<char>,
    c: Seq<char>,
)
    requires
        other != para_id,
        ({
            ||| is_about(line, 5) && is_matched(
                FETCH_LATENCY@,
                line,
                seq![Some(a), Some(b), number(other as int)],
            )
            ||| is_about(line, 6) && is_matched(
                CANDIDATE_GENERATED@,
                line,
                seq![Some(a), Some(b), number(other as int), Some(c)],
            )
        }),
    ensures
        after_line(log, line, para_id) == log,
{
    kinds_are_told(line);
    u32_reads_back(other);
    if is_about(line, 5) {
        let groups = seq![Some(a), Some(b), number(other as int)];
        assert(kind(5) != kind(6));
        let whole = choose|whole: Option<Seq<char>>|
            captured_groups(FETCH_LATENCY@, line) == Some(#[trigger] group_list(whole, groups));
        let g = group_list(whole, groups);
        assert(g[1] == groups[0] && g[2] == groups[1] && g[3] == groups[2]);
    } else {
        let groups = seq![Some(a), Some(b), number(other as int), Some(c)];
        let whole = choose|whole: Option<Seq<char>>|
            captured_groups(CANDIDATE_GENERATED@, line) == Some(
                #[trigger] group_list(whole, groups)
            );
        let g = group_list(whole, groups);
        assert(g[1] == groups[0] && g[2] == groups[1] && g[3] == groups[2] && g[4] == groups[3]);
    }
}

// ---- Whole logs ----
/// A log of no lines has no events, and its registry knows nothing.
pub proof fn no_lines_no_events(para_id: u32)
    ensures
        ({
            let log = log_of(Seq::<Seq<char>>::empty(), para_id);
            &&& log.para_imports.len() == 0
            &&& log.relay_imports.len() == 0
            &&& log.build_attempts.len() == 0
            &&& log.pre_sealed.len() == 0
            &&& log.collation_submissions.len() == 0
            &&& log.collation_fetches.len() == 0
            &&& log.candidates_generated.len() == 0
            &&& log.view_updates.len() == 0
            &&& log.collation_expired.len() == 0
            &&& log.advertising_peers.len() == 0
            &&& log.peer_connections.len() == 0
            &&& log.hash_registry.by_full == Map::<Seq<char>, Seq<u8>>::empty()
            &&& log.hash_registry.by_truncated == Map::<Seq<char>, Seq<u8>>::empty()
        }),
{
    reveal_with_fuel(after_lines, 1);
}

/// One more line, older than the others, puts what it tells before all that the others tell, and the
/// registry learns from it last.
pub proof fn older_line_comes_first(lines: Seq<Seq<char>>, line: Seq<char>, para_id: u32)
    ensures
        ({
            let before = log_of(lines, para_id);
            let new = log_of(lines.push(line), para_id);
            let told = after_line(log_of(Seq::<Seq<char>>::empty(), para_id), line, para_id);
            &&& is_joined(new, told, before)
            &&& new.hash_registry == after_line(before, line, para_id).hash_registry
            &&& new.advertising_peers == before.advertising_peers
            &&& new.peer_connections == before.peer_connections
        }),
{
    let none = Seq::<Seq<char>>::empty();
    let one = seq![line];
    crate::log_parser::older_lines_come_first(lines, one, para_id);
    assert(lines + one =~= lines.push(line));
    reveal_with_fuel(after_lines, 2);
    let told = after_line(log_of(none, para_id), line, para_id);
    assert(one[0] == line);
    let empty = crate::logs::empty_log();
    assert(log_of(none, para_id) =~= empty);
    let alone = log_of(one, para_id);
    assert(after_lines(one, 1, para_id) == after_line(empty, line, para_id));
    assert(told == after_line(empty, line, para_id));
    assert(alone.para_imports =~= told.para_imports);
    assert(alone.relay_imports =~= told.relay_imports);
    assert(alone.build_attempts =~= told.build_attempts);
    assert(alone.pre_sealed =~= told.pre_sealed);
    assert(alone.collation_submissions =~= told.collation_submissions);
    assert(alone.collation_fetches =~= told.collation_fetches);
    assert(alone.candidates_generated =~= told.candidates_generated);
    assert(alone.view_updates =~= told.view_updates);
    assert(alone.collation_expired =~= told.collation_expired);
    let n = lines.len();
    same_lines(lines, lines.push(line), n, para_id);
    assert(lines.push(line)[n as int] == line);
    let x = after_lines(lines, n, para_id);
    assert(after_lines(lines.push(line), n + 1, para_id) == after_line(x, line, para_id));
}

proof fn same_lines(a: Seq<Seq<char>>, b: Seq<Seq<char>>, n: nat, para_id: u32)
    requires
        n <= a.len(),
        n <= b.len(),
        forall|i: int| 0 <= i < n ==> a[i] == b[i],
    ensures
        after_lines(a, n, para_id) == after_lines(b, n, para_id),
    decreases n,
{
    if n > 0 {
        same_lines(a, b, (n - 1) as nat, para_id);
    }
}

// ---- Directories ----
/// The name of a text file.
pub open spec fn text_file(stem: Seq<char>) -> Seq<char> {
    stem + seq!['.', 't', 'x', 't']
}

/// A file is a log where its name is something and ".txt"; the collator is that something.
pub proof fn text_files_are_logs(stem: Seq<char>, name: Seq<char>, lines: Seq<Seq<char>>)
    ensures
        stem.len() > 0 ==> is_log_name(text_file(stem)),
        is_log_name(name) ==> exists|s: Seq<char>|
            s.len() > 0 && #[trigger] text_file(s) == name,
        collator_of(LogFileView { name: text_file(stem), unicode: true, lines }) == stem,
        collator_of(LogFileView { name, unicode: false, lines }) == "unknown"@,
{
    let whole = text_file(stem);
    assert(whole.skip(whole.len() - 4) =~= seq!['.', 't', 'x', 't']);
    assert(whole.take(whole.len() - 4) =~= stem);
    if is_log_name(name) {
        let s = name.take(name.len() - 4);
        assert(text_file(s) =~= name);
    }
}

/// Whether file `i` is the last of the first `n` that holds a log of a collator.
pub open spec fn is_last_log_of(files: Seq<LogFileView>, n: nat, i: int, name: Seq<char>) -> bool {
    &&& 0 <= i < n
    &&& is_log_name(files[i].name)
    &&& collator_of(files[i]) == name
    &&& forall|j: int|
        i < j < n && is_log_name(#[trigger] files[j].name) ==> collator_of(files[j]) != name
}

/// Whether a log is that of a file, with the name of the collator on each parachain import.
pub open spec fn is_log_in(
    file: LogFileView,
    name: Seq<char>,
    para_id: u32,
    log: ParsedLogView,
) -> bool {
    let read = log_of(file.lines, para_id);
    &&& log == (ParsedLogView { para_imports: log.para_imports, ..read })
    &&& log.para_imports.len() == read.para_imports.len()
    &&& forall|k: int|
        0 <= k < log.para_imports.len() ==> {
            let (a, b) = (#[trigger] log.para_imports[k], read.para_imports[k]);
            &&& a.collator == Some(name)
            &&& a.block_number == b.block_number
            &&& a.parent_hash == b.parent_hash
            &&& a.block_hash == b.block_hash
            &&& a.timestamp == b.timestamp
            &&& a.is_best == b.is_best
        }
}

/// Whether a log is that of the last of the first `n` files that hold one of its collator.
pub open spec fn is_of_file(
    files: Seq<LogFileView>,
    n: nat,
    para_id: u32,
    entry: CollatorLogView,
) -> bool {
    exists|i: int| #[trigger]
        is_last_log_of(files, n, i, entry.name) && is_log_in(
            files[i],
            entry.name,
            para_id,
            entry.log,
        )
}

/// Whether there is a log of a collator.
pub open spec fn has_log_of(logs: Seq<CollatorLogView>, name: Seq<char>) -> bool {
    exists|k: int| 0 <= k < logs.len() && (#[trigger] logs[k]).name == name
}

proof fn file_is_added(
    files: Seq<LogFileView>,
    n: nat,
    para_id: u32,
    before: Seq<CollatorLogView>,
    log: ParsedLogView,
    logs: Seq<CollatorLogView>,
)
    requires
        0 < n <= files.len(),
        is_log_name(files[n - 1].name),
        names_ascend(before),
        logs == crate::logs::with_log(before, collator_of(files[n - 1]), log),
        is_log_in(files[n - 1], collator_of(files[n - 1]), para_id, log),
        forall|k: int|
            0 <= k < before.len() ==> is_of_file(
                files,
                (n - 1) as nat,
                para_id,
                #[trigger] before[k],
            ),
        forall|i: int|
            0 <= i < n - 1 && is_log_name(#[trigger] files[i].name) ==> has_log_of(
                before,
                collator_of(files[i]),
            ),
    ensures
        names_ascend(logs),
        forall|k: int| 0 <= k < logs.len() ==> is_of_file(files, n, para_id, #[trigger] logs[k]),
        forall|i: int|
            0 <= i < n && is_log_name(#[trigger] files[i].name) ==> has_log_of(
                logs,
                collator_of(files[i]),
            ),
{
    let m = (n - 1) as nat;
    let name = collator_of(files[n - 1]);
    let entry = CollatorLogView { name, log };
    with_log_places(before, name, log);
    let same = |i: int| logs[i].name == name;
    crate::search::first_where_is_first(logs.len(), same);
    let at = crate::logs::position_of(logs, name)->0;
    assert(same(at));
    assert(logs[at] == entry);
    assert forall|k: int| 0 <= k < logs.len() implies is_of_file(
        files,
        n,
        para_id,
        #[trigger] logs[k],
    ) by {
        if k == at {
            assert(is_last_log_of(files, n, n - 1, logs[k].name));
        } else {
            crate::text::text_order_is_total(logs[k].name, logs[at].name);
            assert(logs[k].name != name) by {
                if k < at {
                    assert(crate::text::text_before(logs[k].name, logs[at].name));
                } else {
                    assert(crate::text::text_before(logs[at].name, logs[k].name));
                }
            }
            let e = logs[k];
            assert(logs.contains(e));
            assert(before.contains(e));
            let b = choose|b: int| 0 <= b < before.len() && before[b] == e;
            assert(is_of_file(files, m, para_id, before[b]));
            let i = choose|i: int| #[trigger]
                is_last_log_of(files, m, i, e.name) && is_log_in(files[i], e.name, para_id, e.log);
            assert(is_last_log_of(files, n, i, e.name));
        }
    }
    assert forall|i: int| 0 <= i < n && is_log_name(#[trigger] files[i].name) implies has_log_of(
        logs,
        collator_of(files[i]),
    ) by {
        let c = collator_of(files[i]);
        if c == name {
            assert(logs[at].name == c);
        } else {
            assert(has_log_of(before, c));
            let b = choose|b: int| 0 <= b < before.len() && (#[trigger] before[b]).name == c;
            assert(before.contains(before[b]));
            assert(logs.contains(before[b]));
            let k = choose|k: int| 0 <= k < logs.len() && logs[k] == before[b];
            assert(logs[k].name == c);
        }
    }
}

/// The logs of a directory are those of its log files, in the order of their collators' names: one
/// for each collator, and of several files for one collator the last.
pub proof fn logs_are_of_files(files: Seq<LogFileView>, n: nat, para_id: u32)
    requires
        n <= files.len(),
    ensures
        names_ascend(logs_in(files, n, para_id)),
        forall|k: int|
            0 <= k < logs_in(files, n, para_id).len() ==> is_of_file(
                files,
                n,
                para_id,
                #[trigger] logs_in(files, n, para_id)[k],
            ),
        forall|i: int|
            0 <= i < n && is_log_name(#[trigger] files[i].name) ==> has_log_of(
                logs_in(files, n, para_id),
                collator_of(files[i]),
            ),
    decreases n,
{
    if n > 0 {
        let m = (n - 1) as nat;
        logs_are_of_files(files, m, para_id);
        let before = logs_in(files, m, para_id);
        let logs = logs_in(files, n, para_id);
        let file = files[n - 1];
        if is_log_name(file.name) {
            let log = tagged(log_of(file.lines, para_id), collator_of(file));
            assert(is_log_in(file, collator_of(file), para_id, log));
            file_is_added(files, n, para_id, before, log, logs);
        } else {
            assert forall|k: int| 0 <= k < logs.len() implies is_of_file(
                files,
                n,
                para_id,
                #[trigger] logs[k],
            ) by {
                let e = before[k];
                assert(is_of_file(files, m, para_id, before[k]));
                let i = choose|i: int| #[trigger]
                    is_last_log_of(files, m, i, e.name) && is_log_in(
                        files[i],
                        e.name,
                        para_id,
                        e.log,
                    );
                assert(is_last_log_of(files, n, i, e.name));
            }
        }
    }
}

/// There are logs exactly where one of the files is a log.
pub proof fn log_files_give_logs(files: Seq<LogFileView>, n: nat, para_id: u32)
    requires
        n <= files.len(),
    ensures
        has_log(files, n) <==> logs_in(files, n, para_id).len() > 0,
        has_log(files, n) <==> exists|i: int| 0 <= i < n && is_log_name(#[trigger] files[i].name),
{
    logs_are_of_files(files, n, para_id);
    let logs = logs_in(files, n, para_id);
    if has_log(files, n) {
        let i = choose|i: int| 0 <= i < n && is_log_name(#[trigger] files[i].name);
        assert(has_log_of(logs, collator_of(files[i])));
    }
    if logs.len() > 0 {
        assert(is_of_file(files, n, para_id, logs[0]));
        let i = choose|i: int| #[trigger]
            is_last_log_of(files, n, i, logs[0].name) && is_log_in(
                files[i],
                logs[0].name,
                para_id,
                logs[0].log,
            );
        assert(is_log_name(files[i].name));
    }
}

} // verus!
