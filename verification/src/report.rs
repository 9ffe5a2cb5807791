//! The report on block confidence and dropped blocks.

use crate::document::{blank, share, share_of, Report, ReportView};
use crate::drops::session_stats;
use crate::hash::{short_text, short_text_of_hash, truncated_text};
use crate::logs::{best_count, confidence, non_best_count};
use crate::model::views;
use crate::search::{add_ascending, count_where, distinct_values, first_where, first_where_stays};
use crate::text::{add_name, decimal, push_decimal, texts_ascend, with_name, with_name_adds};
use crate::time::{
    clock_text, divide_toward_zero, duration_text, elapsed, format_duration, toward_zero,
};
use crate::types::{
    Analysis, AnalysisView, CollationExpired, CollationExpiredView, DropReason, DropReasonView,
    DroppedBlock, DroppedBlockView, OnChainBlockInfo, OnChainBlockInfoView, ParaCandidateEvent,
    ParaCandidateEventView, ParsedLog, ParsedLogView, Ratio,
};
use vstd::prelude::*;
use vstd::string::*;

verus! {

/// What a report is about, and how much it shows.
pub struct ReportConfig {
    pub chain_name: String,
    /// Maximum number of sample data points per category
    pub max_samples: usize,
    pub viability_window: u32,
    pub para_id: u32,
    pub rpc_url: String,
    pub n_collators: usize,
    pub detailed: bool,
}

// ---- Confidence and summary ----
/// The share of best imports among the parachain imports of a log.
pub open spec fn confidence_section(out: ReportView, log: ParsedLogView) -> ReportView {
    let out = out.text("## Block Confidence\n\n"@);
    let out = out.text("| Metric | Value |\n"@);
    let out = out.text("|---|---|\n"@);
    let out = out.text("| \u{1f3c6} Blocks built (best) | **"@).number(best_count(log))
        .text("** |\n"@);
    let out = out.text("| \u{1f195} Blocks rebuilt (non-best) | **"@)
        .number(non_best_count(log)).text("** |\n"@);
    let out = out.text("| Total parachain imports | "@).number(log.para_imports.len())
        .text(" |\n"@);
    let out = out.text("| **Block Confidence** | **"@).percent(confidence(log), 2)
        .text("%** |\n"@);
    let out = if best_count(log) > 0 {
        out.text("| Rebuild rate | "@)
            .percent(share(non_best_count(log), best_count(log)), 2).text("% |\n"@)
    } else {
        out
    };
    out.text("\n"@)
}

/// Writes the share of best imports among the parachain imports of a log.
pub fn write_confidence(out: &mut Report, log: &ParsedLog)
    ensures
        final(out)@ == confidence_section(old(out)@, log@),
{
    proof {
        crate::logs::import_counts_add_up(log@);
    }
    let best = log.best_imports();
    let rebuilt = log.non_best_imports();
    assert(log@.para_imports.len() == log.para_imports.len());
    out.text("## Block Confidence\n\n");
    out.text("| Metric | Value |\n");
    out.text("|---|---|\n");
    out.text("| \u{1f3c6} Blocks built (best) | **");
    out.number(best as u128);
    out.text("** |\n");
    out.text("| \u{1f195} Blocks rebuilt (non-best) | **");
    out.number(rebuilt as u128);
    out.text("** |\n");
    out.text("| Total parachain imports | ");
    out.number((best + rebuilt) as u128);
    out.text(" |\n");
    out.text("| **Block Confidence** | **");
    out.percent(log.block_confidence(), 2);
    out.text("%** |\n");
    if best > 0 {
        out.text("| Rebuild rate | ");
        out.percent(share_of(rebuilt, best as u128), 2);
        out.text("% |\n");
    }
    out.text("\n");
}

/// The totals over the time window, and the relay blocks that it covers.
pub open spec fn summary_section(
    out: ReportView,
    a: AnalysisView,
    para_id: u32,
    n_collators: usize,
) -> ReportView {
    let out = out.text("## Summary of top issues identified over a "@)
        .text(duration_text(elapsed(a.time_window.0, a.time_window.1))).text(" window\n\n"@);
    let out = out.text("This data was collected from collator logs for para_id "@)
        .number(para_id as nat).text(".\n"@);
    let out = out.text("\n"@);
    let out = out.text("Setup: "@).number(n_collators as nat).text(" collator(s), "@)
        .number(a.n_cores as nat).text(" core(s).\n\n"@);
    let out = out.text("- Total blocks built locally: **"@).number(a.total_built as nat)
        .text("**\n"@);
    let out = out.text("- Total blocks included on-chain: **"@)
        .number(a.total_included as nat).text("**\n"@);
    let out = out.text("- Total blocks dropped: **"@).number(a.total_dropped as nat)
        .text("**\n"@);
    let out = match (a.min_relay_block, a.max_relay_block) {
        (Some(min), Some(max)) => out.text("- Relay block range: **#"@).number(min as nat)
            .text("** to **#"@).number(max as nat).text("**\n"@),
        _ => out.text("- Relay block range: no relay blocks observed\n"@),
    };
    let out = if a.edge_of_window_drops.len() > 0 {
        out.text("- Edge-of-window blocks excluded: **"@)
            .number(a.edge_of_window_drops.len())
            .text("** (these blocks were built near the start/end of the log window and might have been included in relay chain blocks outside the observed range)\n"@)
    } else {
        out
    };
    out.text("\n"@)
}

/// Writes the totals over the time window.
pub fn write_summary(out: &mut Report, a: &Analysis, para_id: u32, n_collators: usize)
    ensures
        final(out)@ == summary_section(old(out)@, a@, para_id, n_collators),
{
    let duration = format_duration(a.time_window.1.since(&a.time_window.0));
    assert(a@.edge_of_window_drops.len() == a.edge_of_window_drops.len());
    out.text("## Summary of top issues identified over a ");
    out.text(duration.as_str());
    out.text(" window\n\n");
    out.text("This data was collected from collator logs for para_id ");
    out.number(para_id as u128);
    out.text(".\n");
    out.text("\n");
    out.text("Setup: ");
    out.number(n_collators as u128);
    out.text(" collator(s), ");
    out.number(a.n_cores as u128);
    out.text(" core(s).\n\n");
    out.text("- Total blocks built locally: **");
    out.number(a.total_built as u128);
    out.text("**\n");
    out.text("- Total blocks included on-chain: **");
    out.number(a.total_included as u128);
    out.text("**\n");
    out.text("- Total blocks dropped: **");
    out.number(a.total_dropped as u128);
    out.text("**\n");
    match (a.min_relay_block, a.max_relay_block) {
        (Some(min), Some(max)) => {
            out.text("- Relay block range: **#");
            out.number(min as u128);
            out.text("** to **#");
            out.number(max as u128);
            out.text("**\n");
        },
        _ => {
            out.text("- Relay block range: no relay blocks observed\n");
        },
    }
    if a.edge_of_window_drops.len() > 0 {
        out.text("- Edge-of-window blocks excluded: **");
        out.number(a.edge_of_window_drops.len() as u128);
        out.text("** (these blocks were built near the start/end of the log window and might have been included in relay chain blocks outside the observed range)\n");
    }
    out.text("\n");
}

/// The average session length, in blocks and in minutes of ten blocks each; unknown with fewer than
/// two boundaries.
pub open spec fn with_session_length(out: ReportView, boundaries: Seq<(u32, u32, u32)>) -> ReportView {
    let n = boundaries.len();
    if n >= 2 {
        let blocks = toward_zero(boundaries[n - 1].0 - boundaries[0].0, n - 1);
        out.text("~"@).signed(blocks).text(" blocks (~"@).signed(toward_zero(blocks * 6, 60)).text(
            " minutes)"@,
        )
    } else {
        out.text("unknown"@)
    }
}

fn write_session_length(out: &mut Report, boundaries: &Vec<(u32, u32, u32)>)
    ensures
        final(out)@ == with_session_length(old(out)@, boundaries@),
{
    let n = boundaries.len();
    if n >= 2 {
        let span = boundaries[n - 1].0 as i64 - boundaries[0].0 as i64;
        let blocks = per_session(span, n - 1);
        out.text("~");
        out.signed(blocks);
        out.text(" blocks (~");
        out.signed(divide_toward_zero(blocks * 6, 60));
        out.text(" minutes)");
    } else {
        out.text("unknown");
    }
}

/// The blocks per session; a number of sessions beyond the span leaves none.
fn per_session(span: i64, sessions: usize) -> (blocks: i64)
    requires
        -0x1_0000_0000 < span < 0x1_0000_0000,
        sessions > 0,
    ensures
        blocks == toward_zero(span as int, sessions as int),
        -0x1_0000_0000 < blocks < 0x1_0000_0000,
{
    if (sessions as u64) < 0x1_0000_0000 {
        proof {
            toward_zero_bound(span as int, sessions as int);
        }
        divide_toward_zero(span, sessions as i64)
    } else {
        proof {
            toward_zero_small(span as int, sessions as int);
        }
        0
    }
}

proof fn toward_zero_bound(n: int, d: int)
    requires
        d > 0,
    ensures
        n >= 0 ==> 0 <= toward_zero(n, d) <= n,
        n <= 0 ==> n <= toward_zero(n, d) <= 0,
{
    let m = if n < 0 {
        -n
    } else {
        n
    };
    assert(0 <= m / d <= m) by (nonlinear_arith)
        requires
            0 <= m,
            d > 0,
    ;
}

proof fn toward_zero_small(n: int, d: int)
    requires
        d > 0,
        -d < n < d,
    ensures
        toward_zero(n, d) == 0,
{
    let m = if n < 0 {
        -n
    } else {
        n
    };
    assert(m / d == 0) by (nonlinear_arith)
        requires
            0 <= m < d,
    ;
}

/// The blocks dropped at session boundaries.
pub open spec fn session_section(
    out: ReportView,
    a: AnalysisView,
    chain_name: Seq<char>,
) -> ReportView {
    let out = out.text("### Session boundaries on "@).text(chain_name).text(" (every "@);
    let out = with_session_length(out, a.session_boundaries).text(")\n\n"@);
    let drops = a.session_boundary_drops.len();
    let changes = a.session_boundaries.len();
    if drops == 0 && changes == 0 {
        out
            .text("No session boundaries observed in the log window. Cannot assess session boundary drops.\n\n"@)
    } else {
        if drops == 0 {
            out.text("No blocks dropped at session boundaries ("@).number(changes)
                .text(" session change(s) observed).\n\n"@)
        } else {
            let (num, den, min, max) = session_stats(a);
            let out = out.text("Analysis shows a total of **"@).number(drops)
                .text(" blocks** being dropped at session boundaries.\n\n"@);
            let out = out.text("- Average (per session change): **"@)
                .quotient(Ratio { num: num as i128, den: den as u128 }, 1)
                .text(" blocks**\n"@);
            let out = out.text("- Min: **"@).number(min as nat).text(" block(s)**\n"@);
            let out = out.text("- Max: **"@).number(max as nat).text(" blocks**\n"@);
            out.text("\n"@)
        }
    }
}

/// Writes about the blocks dropped at session boundaries.
pub fn write_session_boundary_section(out: &mut Report, a: &Analysis, chain_name: &str)
    ensures
        final(out)@ == session_section(old(out)@, a@, chain_name@),
{
    let drops = a.session_boundary_drops.len();
    let changes = a.session_boundaries.len();
    assert(a@.session_boundary_drops.len() == drops);
    out.text("### Session boundaries on ");
    out.text(chain_name);
    out.text(" (every ");
    write_session_length(out, &a.session_boundaries);
    out.text(")\n\n");
    if drops == 0 && changes == 0 {
        out.text("No session boundaries observed in the log window. Cannot assess session boundary drops.\n\n");
    } else {
        if drops == 0 {
            out.text("No blocks dropped at session boundaries (");
            out.number(changes as u128);
            out.text(" session change(s) observed).\n\n");
        } else {
            let (avg, min, max) = a.session_drop_stats();
            out.text("Analysis shows a total of **");
            out.number(drops as u128);
            out.text(" blocks** being dropped at session boundaries.\n\n");
            out.text("- Average (per session change): **");
            out.quotient(avg, 1);
            out.text(" blocks**\n");
            out.text("- Min: **");
            out.number(min as u128);
            out.text(" block(s)**\n");
            out.text("- Max: **");
            out.number(max as u128);
            out.text(" blocks**\n");
            out.text("\n");
        }
    }
}

/// The blocks dropped for other reasons.
pub open spec fn non_session_section(out: ReportView, a: AnalysisView) -> ReportView {
    let out = out.text("### Non-session boundary\n\n"@);
    let expired = a.relay_parent_expired_drops.len();
    let forked = a.wrong_fork_drops.len();
    let unknown = a.unknown_drops.len();
    let total = expired + forked + unknown;
    if total == 0 {
        out.text("No blocks dropped outside of session boundaries.\n\n"@)
    } else {
        let out = out.text("Analysis shows a total of **"@).number(total)
            .text(" blocks** being dropped.\n\n"@);
        let out = out.text("Approximate breakdown:\n"@);
        let out = out.text("- Relay parent expired (**~"@).percent(share(expired, total), 0)
            .text("%**). Why?\n"@);
        let out = out
            .text("\t- Low performance validators produce empty relay blocks or blocks with very few backed candidates\n"@);
        let out = out.text("- Built on wrong fork (~**"@).percent(share(forked, total), 0)
            .text("%**)\n"@);
        let out = if unknown > 0 {
            out.text("- Unknown reason: **"@).number(unknown).text("**\n"@)
        } else {
            out
        };
        out.text("\n"@)
    }
}

/// Writes about the blocks dropped for other reasons.
pub fn write_non_session_section(out: &mut Report, a: &Analysis)
    ensures
        final(out)@ == non_session_section(old(out)@, a@),
{
    let expired = a.relay_parent_expired_drops.len();
    let forked = a.wrong_fork_drops.len();
    let unknown = a.unknown_drops.len();
    let total = expired as u128 + forked as u128 + unknown as u128;
    assert(a@.relay_parent_expired_drops.len() == expired);
    assert(a@.wrong_fork_drops.len() == forked);
    assert(a@.unknown_drops.len() == unknown);
    out.text("### Non-session boundary\n\n");
    if total == 0 {
        out.text("No blocks dropped outside of session boundaries.\n\n");
    } else {
        out.text("Analysis shows a total of **");
        out.number(total);
        out.text(" blocks** being dropped.\n\n");
        out.text("Approximate breakdown:\n");
        out.text("- Relay parent expired (**~");
        out.percent(share_of(expired, total), 0);
        out.text("%**). Why?\n");
        out.text("\t- Low performance validators produce empty relay blocks or blocks with very few backed candidates\n");
        out.text("- Built on wrong fork (~**");
        out.percent(share_of(forked, total), 0);
        out.text("%**)\n");
        if unknown > 0 {
            out.text("- Unknown reason: **");
            out.number(unknown as u128);
            out.text("**\n");
        }
        out.text("\n");
    }
}

// ---- Samples ----
/// A reason as text.
pub open spec fn reason_text(reason: DropReasonView) -> Seq<char> {
    match reason {
        DropReasonView::SessionBoundary { session_before, session_after, boundary_relay_block } => {
            "Session boundary (session "@ + decimal(session_before as nat) + " → "@ + decimal(
                session_after as nat,
            ) + " at relay block #"@ + decimal(boundary_relay_block as nat) + ")"@
        },
        DropReasonView::RelayParentExpired { relay_parent_num, viability_window } => {
            "Relay parent expired (RP #"@ + decimal(relay_parent_num as nat)
                + ", viability window "@ + decimal(viability_window as nat) + ")"@
        },
        DropReasonView::WrongFork { relay_parent_num, .. } => {
            "Built on wrong fork (RP #"@ + decimal(relay_parent_num as nat) + ")"@
        },
        DropReasonView::Unknown => "Unknown"@,
    }
}

impl DropReason {
    /// The reason as text.
    pub fn to_text(&self) -> (text: String)
        ensures
            text@ == reason_text(self@),
    {
        match self {
            DropReason::SessionBoundary { session_before, session_after, boundary_relay_block } => {
                let mut text = "Session boundary (session ".to_owned();
                push_decimal(&mut text, *session_before as u128);
                text.append(" → ");
                push_decimal(&mut text, *session_after as u128);
                text.append(" at relay block #");
                push_decimal(&mut text, *boundary_relay_block as u128);
                text.append(")");
                text
            },
            DropReason::RelayParentExpired { relay_parent_num, viability_window } => {
                let mut text = "Relay parent expired (RP #".to_owned();
                push_decimal(&mut text, *relay_parent_num as u128);
                text.append(", viability window ");
                push_decimal(&mut text, *viability_window as u128);
                text.append(")");
                text
            },
            DropReason::WrongFork { relay_parent_num, .. } => {
                let mut text = "Built on wrong fork (RP #".to_owned();
                push_decimal(&mut text, *relay_parent_num as u128);
                text.append(")");
                text
            },
            DropReason::Unknown => "Unknown".to_owned(),
        }
    }
}

/// The first `n` numbers, with commas between them.
pub open spec fn with_numbers(out: ReportView, item: spec_fn(int) -> nat, n: nat) -> ReportView
    decreases n,
{
    if n == 0 {
        out
    } else if n == 1 {
        out.number(item(0))
    } else {
        with_numbers(out, item, (n - 1) as nat).text(", "@).number(item(n - 1))
    }
}

/// The numbers in a list of 32-bit numbers.
pub open spec fn numbers_in(v: Seq<u32>) -> spec_fn(int) -> nat {
    |i: int| v[i] as nat
}

/// The numbers in a list of 64-bit numbers.
pub open spec fn long_numbers_in(v: Seq<u64>) -> spec_fn(int) -> nat {
    |i: int| v[i] as nat
}

/// Writes numbers with commas between them.
pub fn write_numbers(out: &mut Report, v: &Vec<u32>)
    ensures
        final(out)@ == with_numbers(old(out)@, numbers_in(v@), v@.len()),
{
    let mut i: usize = 0;
    while i < v.len()
        invariant
            i <= v@.len(),
            out@ == with_numbers(old(out)@, numbers_in(v@), i as nat),
        decreases v@.len() - i,
    {
        if i > 0 {
            out.text(", ");
        }
        out.number(v[i] as u128);
        i = i + 1;
    }
}

/// Writes numbers with commas between them.
pub fn write_long_numbers(out: &mut Report, v: &Vec<u64>)
    ensures
        final(out)@ == with_numbers(old(out)@, long_numbers_in(v@), v@.len()),
{
    let mut i: usize = 0;
    while i < v.len()
        invariant
            i <= v@.len(),
            out@ == with_numbers(old(out)@, long_numbers_in(v@), i as nat),
        decreases v@.len() - i,
    {
        if i > 0 {
            out.text(", ");
        }
        out.number(v[i] as u128);
        i = i + 1;
    }
}

/// The groups that backed candidates, ascending.
pub open spec fn groups_of(c: Seq<ParaCandidateEventView>) -> Seq<u64> {
    distinct_values(
        c.len(),
        |i: int| c[i].group_index is Some,
        |i: int| c[i].group_index->0 as u64,
    )
}

/// The groups that backed candidates, ascending.
pub fn backing_groups(c: &Vec<ParaCandidateEvent>) -> (groups: Vec<u64>)
    ensures
        groups@ == groups_of(views(c@)),
{
    let ghost v = views(c@);
    let ghost ok = |i: int| v[i].group_index is Some;
    let ghost group = |i: int| v[i].group_index->0 as u64;
    let mut groups: Vec<u64> = Vec::new();
    let mut i: usize = 0;
    while i < c.len()
        invariant
            i <= c@.len(),
            v == views(c@),
            ok == (|i: int| v[i].group_index is Some),
            group == (|i: int| v[i].group_index->0 as u64),
            groups@ == distinct_values(i as nat, ok, group),
        decreases c@.len() - i,
    {
        assert(v[i as int] == c@[i as int]@);
        if let Some(g) = c[i].group_index {
            add_ascending(&mut groups, g as u64);
        }
        i = i + 1;
    }
    groups
}

/// The cores that the parachain is scheduled on.
pub open spec fn with_schedule(out: ReportView, cores: Seq<u32>) -> ReportView {
    if cores.len() == 0 {
        out.text(" — **not scheduled**"@)
    } else {
        with_numbers(
            out.text(" — scheduled on core(s) "@),
            numbers_in(cores),
            cores.len(),
        )
    }
}

/// Writes the cores that the parachain is scheduled on.
pub fn write_schedule(out: &mut Report, cores: &Vec<u32>)
    ensures
        final(out)@ == with_schedule(old(out)@, cores@),
{
    if cores.len() == 0 {
        out.text(" — **not scheduled**");
    } else {
        out.text(" — scheduled on core(s) ");
        write_numbers(out, cores);
    }
}

/// The number of the block before.
pub open spec fn number_before(n: u32) -> u32 {
    if n == 0 {
        0
    } else {
        (n - 1) as u32
    }
}

/// A note where the session is not that of the block before.
pub open spec fn with_session_note(
    out: ReportView,
    blocks: Seq<OnChainBlockInfoView>,
    info: OnChainBlockInfoView,
) -> ReportView {
    match first_where(
        blocks.len(),
        |k: int| blocks[k].block_number == number_before(info.block_number),
    ) {
        Some(k) => if blocks.len() > 1 && blocks[k].session_index != info.session_index {
            out.text(", **NEW SESSION** ("@).number(blocks[k].session_index as nat).text(
                " → "@,
            ).number(info.session_index as nat).text(")"@)
        } else {
            out
        },
        None => out,
    }
}

fn write_session_note(out: &mut Report, blocks: &Vec<OnChainBlockInfo>, info: &OnChainBlockInfo)
    ensures
        final(out)@ == with_session_note(old(out)@, views(blocks@), info@),
{
    let before: u32 = if info.block_number == 0 {
        0
    } else {
        info.block_number - 1
    };
    let ghost v = views(blocks@);
    let ghost ok = |k: int| v[k].block_number == number_before(info@.block_number);
    let mut k: usize = 0;
    while k < blocks.len()
        invariant
            k <= blocks@.len(),
            v == views(blocks@),
            before == number_before(info@.block_number),
            ok == (|k: int| v[k].block_number == number_before(info@.block_number)),
            first_where(k as nat, ok) is None,
            out@ == old(out)@,
        decreases blocks@.len() - k,
    {
        assert(v[k as int] == blocks@[k as int]@);
        if blocks[k].block_number == before {
            proof {
                first_where_stays(v.len(), (k + 1) as nat, ok);
            }
            if blocks.len() > 1 && blocks[k].session_index != info.session_index {
                out.text(", **NEW SESSION** (");
                out.number(blocks[k].session_index as u128);
                out.text(" → ");
                out.number(info.session_index as u128);
                out.text(")");
            }
            return;
        }
        k = k + 1;
    }
}

/// What a relay block near a drop did for the parachain.
pub open spec fn nearby_line(
    out: ReportView,
    blocks: Seq<OnChainBlockInfoView>,
    info: OnChainBlockInfoView,
    para_id: u32,
) -> ReportView {
    let out = out.text("  - #"@).number(info.block_number as nat).text(" ("@)
        .text(truncated_text(info.block_hash)).text("): "@);
    let out = if info.backed_para_candidates.len() == 0 {
        out.text("no backed candidates for our para"@)
    } else {
        let out = out.text("backs "@).number(info.backed_para_candidates.len())
            .text(" candidate(s) for para "@).number(para_id as nat);
        let groups = groups_of(info.backed_para_candidates);
        if groups.len() > 0 {
            with_numbers(out.text(" (group(s) "@), long_numbers_in(groups), groups.len()).text(")"@)
        } else {
            out
        }
    };
    let out = if info.included_para_candidates.len() > 0 {
        out.text(", includes "@).number(info.included_para_candidates.len())
            .text(" candidate(s)"@)
    } else {
        out
    };
    let out = with_session_note(out, blocks, info);
    with_schedule(out, info.claim_queue_cores).text("\n"@)
}

/// Writes what a relay block near a drop did for the parachain.
fn write_nearby_line(
    out: &mut Report,
    blocks: &Vec<OnChainBlockInfo>,
    info: &OnChainBlockInfo,
    para_id: u32,
)
    ensures
        final(out)@ == nearby_line(old(out)@, views(blocks@), info@, para_id),
{
    let hash = short_text_of_hash(&info.block_hash);
    assert(info@.backed_para_candidates.len() == info.backed_para_candidates.len());
    assert(info@.included_para_candidates.len() == info.included_para_candidates.len());
    out.text("  - #");
    out.number(info.block_number as u128);
    out.text(" (");
    out.text(hash.as_str());
    out.text("): ");
    if info.backed_para_candidates.len() == 0 {
        out.text("no backed candidates for our para");
    } else {
        out.text("backs ");
        out.number(info.backed_para_candidates.len() as u128);
        out.text(" candidate(s) for para ");
        out.number(para_id as u128);
        let groups = backing_groups(&info.backed_para_candidates);
        if groups.len() > 0 {
            out.text(" (group(s) ");
            write_long_numbers(out, &groups);
            out.text(")");
        }
    }
    if info.included_para_candidates.len() > 0 {
        out.text(", includes ");
        out.number(info.included_para_candidates.len() as u128);
        out.text(" candidate(s)");
    }
    write_session_note(out, blocks, info);
    write_schedule(out, &info.claim_queue_cores);
    out.text("\n");
}

/// What the first `n` relay blocks near a drop did for the parachain.
pub open spec fn nearby_lines(
    out: ReportView,
    blocks: Seq<OnChainBlockInfoView>,
    n: nat,
    para_id: u32,
) -> ReportView
    decreases n,
{
    if n == 0 {
        out
    } else {
        nearby_line(
            nearby_lines(out, blocks, (n - 1) as nat, para_id),
            blocks,
            blocks[n - 1],
            para_id,
        )
    }
}

fn write_nearby_lines(out: &mut Report, blocks: &Vec<OnChainBlockInfo>, para_id: u32)
    ensures
        final(out)@ == nearby_lines(old(out)@, views(blocks@), blocks@.len(), para_id),
{
    let mut i: usize = 0;
    while i < blocks.len()
        invariant
            i <= blocks@.len(),
            out@ == nearby_lines(old(out)@, views(blocks@), i as nat, para_id),
        decreases blocks@.len() - i,
    {
        assert(views(blocks@)[i as int] == blocks@[i as int]@);
        write_nearby_line(out, blocks, &blocks[i], para_id);
        i = i + 1;
    }
}

/// The states of the first `n` expired collations, in alphabetical order.
pub open spec fn states_of(expired: Seq<CollationExpiredView>, n: nat) -> Seq<Seq<char>>
    decreases n,
{
    if n == 0 {
        Seq::empty()
    } else {
        with_name(states_of(expired, (n - 1) as nat), expired[n - 1].collation_state)
    }
}

/// How many expired collations are in a state.
pub open spec fn count_in_state(expired: Seq<CollationExpiredView>, state: Seq<char>) -> nat {
    count_where(expired.len(), |i: int| expired[i].collation_state == state)
}

/// The first `n` states, each with the number of collations in it.
pub open spec fn with_states(
    out: ReportView,
    expired: Seq<CollationExpiredView>,
    states: Seq<Seq<char>>,
    n: nat,
) -> ReportView
    decreases n,
{
    if n == 0 {
        out
    } else {
        let before = with_states(out, expired, states, (n - 1) as nat);
        let comma = if n > 1 {
            before.text(", "@)
        } else {
            before
        };
        comma.number(count_in_state(expired, states[n - 1])).text(" x "@).text(states[n - 1])
    }
}

/// The states listed are those of the collations, each once, in alphabetical order.
pub proof fn states_are_ordered(expired: Seq<CollationExpiredView>, n: nat)
    requires
        n <= expired.len(),
    ensures
        texts_ascend(states_of(expired, n)),
        forall|s: Seq<char>| #[trigger]
            states_of(expired, n).contains(s) <==> exists|i: int|
                0 <= i < n && (#[trigger] expired[i]).collation_state == s,
    decreases n,
{
    if n > 0 {
        states_are_ordered(expired, (n - 1) as nat);
        let before = states_of(expired, (n - 1) as nat);
        with_name_adds(before, expired[n - 1].collation_state);
        assert forall|s: Seq<char>| #[trigger]
            states_of(expired, n).contains(s) <==> exists|i: int|
                0 <= i < n && (#[trigger] expired[i]).collation_state == s by {
            if before.contains(s) {
                let i = choose|i: int|
                    0 <= i < n - 1 && (#[trigger] expired[i]).collation_state == s;
                assert(0 <= i < n);
            }
            if exists|i: int| 0 <= i < n && (#[trigger] expired[i]).collation_state == s {
                let i = choose|i: int| 0 <= i < n && (#[trigger] expired[i]).collation_state == s;
                if i < n - 1 {
                    assert(before.contains(s));
                }
            }
        }
    }
}

fn list_states(expired: &Vec<CollationExpired>) -> (states: Vec<String>)
    ensures
        views(states@) == states_of(views(expired@), expired@.len()),
{
    let mut states: Vec<String> = Vec::new();
    assert(views(states@) =~= Seq::<Seq<char>>::empty());
    let mut i: usize = 0;
    while i < expired.len()
        invariant
            i <= expired@.len(),
            views(states@) == states_of(views(expired@), i as nat),
        decreases expired@.len() - i,
    {
        assert(views(expired@)[i as int] == expired@[i as int]@);
        add_name(&mut states, &expired[i].collation_state);
        i = i + 1;
    }
    states
}

fn count_state(expired: &Vec<CollationExpired>, state: &String) -> (n: usize)
    ensures
        n == count_in_state(views(expired@), state@),
{
    let ghost v = views(expired@);
    let ghost ok = |i: int| v[i].collation_state == state@;
    let mut n: usize = 0;
    let mut i: usize = 0;
    while i < expired.len()
        invariant
            i <= expired@.len(),
            v == views(expired@),
            ok == (|i: int| v[i].collation_state == state@),
            n == count_where(i as nat, ok),
            n <= i,
        decreases expired@.len() - i,
    {
        assert(v[i as int] == expired@[i as int]@);
        if expired[i].collation_state == *state {
            n = n + 1;
        }
        i = i + 1;
    }
    n
}

fn write_states(out: &mut Report, expired: &Vec<CollationExpired>)
    ensures
        final(out)@ == with_states(
            old(out)@,
            views(expired@),
            states_of(views(expired@), expired@.len()),
            states_of(views(expired@), expired@.len()).len(),
        ),
{
    let states = list_states(expired);
    let ghost v = views(states@);
    let mut k: usize = 0;
    while k < states.len()
        invariant
            k <= states@.len(),
            v == views(states@),
            out@ == with_states(old(out)@, views(expired@), v, k as nat),
        decreases states@.len() - k,
    {
        assert(v[k as int] == states@[k as int]@);
        if k > 0 {
            out.text(", ");
        }
        out.number(count_state(expired, &states[k]) as u128);
        out.text(" x ");
        out.text(states[k].as_str());
        k = k + 1;
    }
}

/// One expired collation.
pub open spec fn expired_line(out: ReportView, e: CollationExpiredView) -> ReportView {
    let out = out.text("  - state=**"@).text(e.collation_state).text("**"@);
    let out = match e.age {
        Some(age) => out.text(", age="@).number(age as nat),
        None => out,
    };
    let out = match e.head {
        Some(head) => out.text(", head="@).text(short_text(head.raw)),
        None => out,
    };
    out.text(" ("@).text(clock_text(e.timestamp)).text(")\n"@)
}

/// Writes about one expired collation.
fn write_expired_line(out: &mut Report, e: &CollationExpired)
    ensures
        final(out)@ == expired_line(old(out)@, e@),
{
    let time = e.timestamp.clock();
    out.text("  - state=**");
    out.text(e.collation_state.as_str());
    out.text("**");
    if let Some(age) = e.age {
        out.text(", age=");
        out.number(age as u128);
    }
    if let Some(head) = &e.head {
        out.text(", head=");
        out.text(head.short());
    }
    out.text(" (");
    out.text(time.as_str());
    out.text(")\n");
}

/// The first `n` expired collations.
pub open spec fn expired_lines(
    out: ReportView,
    expired: Seq<CollationExpiredView>,
    n: nat,
) -> ReportView
    decreases n,
{
    if n == 0 {
        out
    } else {
        expired_line(expired_lines(out, expired, (n - 1) as nat), expired[n - 1])
    }
}

fn write_expired_lines(out: &mut Report, expired: &Vec<CollationExpired>)
    ensures
        final(out)@ == expired_lines(old(out)@, views(expired@), expired@.len()),
{
    let mut i: usize = 0;
    while i < expired.len()
        invariant
            i <= expired@.len(),
            out@ == expired_lines(old(out)@, views(expired@), i as nat),
        decreases expired@.len() - i,
    {
        assert(views(expired@)[i as int] == expired@[i as int]@);
        write_expired_line(out, &expired[i]);
        i = i + 1;
    }
}

/// Up to how many expired collations are listed one by one.
pub const MAX_LISTED_COLLATIONS: usize = 20;

/// The expired collations on a relay parent: how many in each state and, if they are few, each.
pub open spec fn expiry_section(
    out: ReportView,
    rp: u32,
    expired: Seq<CollationExpiredView>,
) -> ReportView {
    let out = out.text("- Collation expiry on RP #"@).number(rp as nat).text(": **"@)
        .number(expired.len()).text("** collation(s) expired — "@);
    let states = states_of(expired, expired.len());
    let out = with_states(out, expired, states, states.len()).text("\n"@);
    if expired.len() <= MAX_LISTED_COLLATIONS {
        expired_lines(out, expired, expired.len())
    } else {
        out
    }
}

/// Writes about the expired collations on a relay parent.
fn write_expiry(out: &mut Report, rp: u32, expired: &Vec<CollationExpired>)
    ensures
        final(out)@ == expiry_section(old(out)@, rp, views(expired@)),
{
    assert(views(expired@).len() == expired.len());
    out.text("- Collation expiry on RP #");
    out.number(rp as u128);
    out.text(": **");
    out.number(expired.len() as u128);
    out.text("** collation(s) expired — ");
    write_states(out, expired);
    out.text("\n");
    if expired.len() <= MAX_LISTED_COLLATIONS {
        write_expired_lines(out, expired);
    }
}

/// A dropped block as a sample.
pub open spec fn drop_sample(out: ReportView, d: DroppedBlockView, para_id: u32) -> ReportView {
    let out = out.text("#### \u{1f3c6} Imported #"@).number(d.para_block_number as nat)
        .text(" ("@).text(short_text(d.parent_hash.raw)).text(" → "@)
        .text(short_text(d.para_block_hash.raw)).text(")\n"@);
    let out = out.text("- **Root cause**: "@).text(reason_text(d.reason)).text("\n"@);
    let out = out.text("- Built at: "@).text(clock_text(d.built_at)).text("\n"@);
    let out = match d.collation_fetch_latency_ms {
        Some(latency) => out.text("- Collation fetch latency: **"@).number(latency as nat).text(
            "ms**\n"@,
        ),
        None => out,
    };
    let out = out.text("- Relay parent: #"@).number(d.relay_parent_num as nat).text(" ("@)
        .text(short_text(d.relay_parent_hash.raw)).text(")\n"@);
    let out = if d.reason is WrongFork {
        out.text("- RP **on wrong fork**: relay parent was pruned from canonical chain\n"@)
    } else {
        out.text("- RP is not on wrong fork\n"@)
    };
    let out = if d.nearby_relay_blocks.len() > 0 {
        let out = out.text("- Relay chain block sequence:\n"@);
        nearby_lines(out, d.nearby_relay_blocks, d.nearby_relay_blocks.len(), para_id)
    } else {
        out
    };
    let out = if d.collation_expired.len() > 0 {
        expiry_section(out, d.relay_parent_num, d.collation_expired)
    } else {
        out
    };
    out.text("\n"@)
}

/// Writes about a dropped block as a sample.
pub fn write_drop_sample(out: &mut Report, d: &DroppedBlock, para_id: u32)
    ensures
        final(out)@ == drop_sample(old(out)@, d@, para_id),
{
    let reason = d.reason.to_text();
    let time = d.built_at.clock();
    assert(d@.nearby_relay_blocks.len() == d.nearby_relay_blocks.len());
    assert(d@.collation_expired.len() == d.collation_expired.len());
    out.text("#### \u{1f3c6} Imported #");
    out.number(d.para_block_number as u128);
    out.text(" (");
    out.text(d.parent_hash.short());
    out.text(" → ");
    out.text(d.para_block_hash.short());
    out.text(")\n");
    out.text("- **Root cause**: ");
    out.text(reason.as_str());
    out.text("\n");
    out.text("- Built at: ");
    out.text(time.as_str());
    out.text("\n");
    if let Some(latency) = d.collation_fetch_latency_ms {
        out.text("- Collation fetch latency: **");
        out.number(latency as u128);
        out.text("ms**\n");
    }
    out.text("- Relay parent: #");
    out.number(d.relay_parent_num as u128);
    out.text(" (");
    out.text(d.relay_parent_hash.short());
    out.text(")\n");
    match &d.reason {
        DropReason::WrongFork { .. } => {
            out.text("- RP **on wrong fork**: relay parent was pruned from canonical chain\n");
        },
        _ => {
            out.text("- RP is not on wrong fork\n");
        },
    }
    if d.nearby_relay_blocks.len() > 0 {
        out.text("- Relay chain block sequence:\n");
        write_nearby_lines(out, &d.nearby_relay_blocks, para_id);
    }
    if d.collation_expired.len() > 0 {
        write_expiry(out, d.relay_parent_num, &d.collation_expired);
    }
    out.text("\n");
}

/// The first `n` dropped blocks as samples.
pub open spec fn drop_samples(
    out: ReportView,
    drops: Seq<DroppedBlockView>,
    n: nat,
    para_id: u32,
) -> ReportView
    decreases n,
{
    if n == 0 {
        out
    } else {
        drop_sample(drop_samples(out, drops, (n - 1) as nat, para_id), drops[n - 1], para_id)
    }
}

/// `n`, or `max` where `n` is more.
pub open spec fn at_most(n: nat, max: usize) -> nat {
    if n < max {
        n
    } else {
        max as nat
    }
}

/// A heading and some of the drops of a kind, if there are any.
pub open spec fn sample_section(
    out: ReportView,
    heading: Seq<char>,
    drops: Seq<DroppedBlockView>,
    max_samples: usize,
    para_id: u32,
) -> ReportView {
    if drops.len() > 0 {
        drop_samples(out.text(heading), drops, at_most(drops.len(), max_samples), para_id)
    } else {
        out
    }
}

fn write_samples(
    out: &mut Report,
    heading: &str,
    drops: &Vec<DroppedBlock>,
    max_samples: usize,
    para_id: u32,
)
    ensures
        final(out)@ == sample_section(old(out)@, heading@, views(drops@), max_samples, para_id),
{
    assert(views(drops@).len() == drops.len());
    if drops.len() > 0 {
        out.text(heading);
        let n: usize = if drops.len() < max_samples {
            drops.len()
        } else {
            max_samples
        };
        let mut i: usize = 0;
        while i < n
            invariant
                i <= n <= drops@.len(),
                out@ == drop_samples(old(out)@.text(heading@), views(drops@), i as nat, para_id),
            decreases n - i,
        {
            assert(views(drops@)[i as int] == drops@[i as int]@);
            write_drop_sample(out, &drops[i], para_id);
            i = i + 1;
        }
    }
}

/// Some of the drops of each kind.
pub open spec fn samples_section(
    out: ReportView,
    a: AnalysisView,
    max_samples: usize,
    para_id: u32,
) -> ReportView {
    let out = out.text("## Sample data points\n"@);
    let out = sample_section(
        out,
        "### Session boundary drops\n"@,
        a.session_boundary_drops,
        max_samples,
        para_id,
    );
    let out = sample_section(
        out,
        "### Relay parent expired drops\n"@,
        a.relay_parent_expired_drops,
        max_samples,
        para_id,
    );
    sample_section(
        out,
        "### Blocks built on wrong fork\n"@,
        a.wrong_fork_drops,
        max_samples,
        para_id,
    )
}

/// Writes about some of the drops of each kind.
pub fn write_sample_data_points(out: &mut Report, a: &Analysis, max_samples: usize, para_id: u32)
    ensures
        final(out)@ == samples_section(old(out)@, a@, max_samples, para_id),
{
    out.text("## Sample data points\n");
    write_samples(
        out,
        "### Session boundary drops\n",
        &a.session_boundary_drops,
        max_samples,
        para_id,
    );
    write_samples(
        out,
        "### Relay parent expired drops\n",
        &a.relay_parent_expired_drops,
        max_samples,
        para_id,
    );
    write_samples(
        out,
        "### Blocks built on wrong fork\n",
        &a.wrong_fork_drops,
        max_samples,
        para_id,
    );
}

// ---- The whole report ----
/// What follows in a report behind the section on collators: the analysis of the drops.
pub open spec fn drops_report(out: ReportView, a: AnalysisView, config: ReportConfig) -> ReportView {
    let out = summary_section(out, a, config.para_id, config.n_collators);
    let out = session_section(out, a, config.chain_name@);
    let out = non_session_section(out, a);
    samples_section(out, a, config.max_samples, config.para_id)
}

/// Writes the analysis of the drops.
pub fn write_drops_report(out: &mut Report, a: &Analysis, config: &ReportConfig)
    ensures
        final(out)@ == drops_report(old(out)@, a@, *config),
{
    write_summary(out, a, config.para_id, config.n_collators);
    write_session_boundary_section(out, a, config.chain_name.as_str());
    write_non_session_section(out, a);
    write_sample_data_points(out, a, config.max_samples, config.para_id);
}

/// The report on one collator.
pub fn generate_report(analysis: &Analysis, config: &ReportConfig, log: &ParsedLog) -> (report: Report)
    ensures
        report@ == drops_report(confidence_section(blank(), log@), analysis@, *config),
{
    let mut out = Report::new();
    write_confidence(&mut out, log);
    write_drops_report(&mut out, analysis, config);
    out
}

} // verus!
