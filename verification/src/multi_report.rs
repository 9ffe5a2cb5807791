//! The part of the report that compares collators.

use crate::chain_client::{
    blake2b_256, compute_block_hash_from_head_data, decode_para_block_number, para_number,
};
use crate::document::{blank, share, share_of, Report, ReportView};
use crate::hash::{full_text, short_text, short_text_of_hash, text_of_hash, truncated_text};
use crate::model::{opt_view, views, views_push};
use crate::report::{
    at_most, backing_groups, confidence_section, drops_report, groups_of, long_numbers_in,
    with_numbers, with_schedule, write_confidence, write_drops_report, write_long_numbers,
    write_schedule, ReportConfig,
};
use crate::search::{
    count_where, greatest_of, ints, least_of, positions, sort_order, stable_order,
};
use crate::time::{clock_text, elapsed};
use crate::types::{
    Analysis, CollatorStats, CollatorStatsView, DuplicateBlockOnSameRP, DuplicateBlockOnSameRPView,
    DuplicateProducer, DuplicateProducerView, MultiCollatorAnalysis, MultiCollatorAnalysisView,
    OnChainBlockInfo, OnChainBlockInfoView, OnChainWinner, ParaCandidateEvent,
    ParaCandidateEventView, ParsedLog, RebuildCause, RebuildEvent, RebuildEventView,
    SlotBoundaryAnalysis, SlotBoundaryAnalysisView, SlotBoundaryDetail, SlotBoundaryDetailView,
};
use vstd::prelude::*;

verus! {

// ---- Authorship ----
/// What a collator built, won and lost.
pub open spec fn collator_line(out: ReportView, c: CollatorStatsView) -> ReportView {
    out.text("| "@).text(c.name).text(" | "@).number(c.blocks_built as nat)
        .text(" | "@).number(c.blocks_won as nat).text(" | "@)
        .number(c.blocks_lost as nat).text(" | "@).percent(c.win_rate, 2)
        .text("% |\n"@)
}

/// Writes what a collator built, won and lost.
fn write_collator_line(out: &mut Report, c: &CollatorStats)
    ensures
        final(out)@ == collator_line(old(out)@, c@),
{
    out.text("| ");
    out.text(c.name.as_str());
    out.text(" | ");
    out.number(c.blocks_built as u128);
    out.text(" | ");
    out.number(c.blocks_won as u128);
    out.text(" | ");
    out.number(c.blocks_lost as u128);
    out.text(" | ");
    out.percent(c.win_rate, 2);
    out.text("% |\n");
}

/// What the first `n` collators built, won and lost.
pub open spec fn collator_lines(out: ReportView, stats: Seq<CollatorStatsView>, n: nat) -> ReportView
    decreases n,
{
    if n == 0 {
        out
    } else {
        collator_line(collator_lines(out, stats, (n - 1) as nat), stats[n - 1])
    }
}

fn write_collator_lines(out: &mut Report, stats: &Vec<CollatorStats>)
    ensures
        final(out)@ == collator_lines(old(out)@, views(stats@), stats@.len()),
{
    let mut i: usize = 0;
    while i < stats.len()
        invariant
            i <= stats@.len(),
            out@ == collator_lines(old(out)@, views(stats@), i as nat),
        decreases stats@.len() - i,
    {
        assert(views(stats@)[i as int] == stats@[i as int]@);
        write_collator_line(out, &stats[i]);
        i = i + 1;
    }
}

// ---- Slot boundaries ----
/// By which boundaries are ordered for samples: more overlap first, then the lesser gap.
pub open spec fn badness(b: SlotBoundaryDetailView) -> int {
    b.propagation_gap_ms - b.overlap_count * 0x1_0000_0000_0000_0000
}

/// By which the boundaries are ordered for samples.
pub open spec fn badness_of(b: Seq<SlotBoundaryDetailView>) -> Seq<int> {
    Seq::new(b.len(), |i: int| badness(b[i]))
}

/// A boundary is worse than another where it has more overlap or, with as much overlap, a lesser
/// gap.
pub proof fn badness_orders(a: SlotBoundaryDetailView, b: SlotBoundaryDetailView)
    ensures
        badness(a) < badness(b) <==> a.overlap_count > b.overlap_count || (a.overlap_count
            == b.overlap_count && a.propagation_gap_ms < b.propagation_gap_ms),
{
}

/// One boundary.
pub open spec fn boundary_line(out: ReportView, b: SlotBoundaryDetailView) -> ReportView {
    out.text("- Slot "@).number(b.outgoing_slot as nat).text(" ("@)
        .text(b.outgoing_collator).text(") → "@).number(b.incoming_slot as nat)
        .text(" ("@).text(b.incoming_collator).text("): gap **"@)
        .signed(b.propagation_gap_ms as int).text("ms**, overlap **"@)
        .number(b.overlap_count as nat).text(" blocks**, RP #"@)
        .number(b.outgoing_rp as nat).text(" → #"@).number(b.incoming_rp as nat)
        .text("\n"@)
}

/// Writes about one boundary.
fn write_boundary_line(out: &mut Report, b: &SlotBoundaryDetail)
    ensures
        final(out)@ == boundary_line(old(out)@, b@),
{
    out.text("- Slot ");
    out.number(b.outgoing_slot as u128);
    out.text(" (");
    out.text(b.outgoing_collator.as_str());
    out.text(") → ");
    out.number(b.incoming_slot as u128);
    out.text(" (");
    out.text(b.incoming_collator.as_str());
    out.text("): gap **");
    out.signed(b.propagation_gap_ms);
    out.text("ms**, overlap **");
    out.number(b.overlap_count as u128);
    out.text(" blocks**, RP #");
    out.number(b.outgoing_rp as u128);
    out.text(" → #");
    out.number(b.incoming_rp as u128);
    out.text("\n");
}

/// The indices of those boundaries with an overlap among the first `n` of an order.
pub open spec fn overlapping_in(b: Seq<SlotBoundaryDetailView>, order: Seq<int>, n: nat) -> Seq<int>
    decreases n,
{
    if n == 0 {
        Seq::empty()
    } else {
        let before = overlapping_in(b, order, (n - 1) as nat);
        if b[order[n - 1]].overlap_count > 0 {
            before.push(order[n - 1])
        } else {
            before
        }
    }
}

/// The boundaries with an overlap, the worst first.
pub open spec fn worst_of(b: Seq<SlotBoundaryDetailView>) -> Seq<int> {
    overlapping_in(b, sort_order(badness_of(b)), b.len())
}

/// The first `n` of the boundaries that an order gives.
pub open spec fn boundary_lines(
    out: ReportView,
    b: Seq<SlotBoundaryDetailView>,
    order: Seq<int>,
    n: nat,
) -> ReportView
    decreases n,
{
    if n == 0 {
        out
    } else {
        boundary_line(boundary_lines(out, b, order, (n - 1) as nat), b[order[n - 1]])
    }
}

fn worst_boundaries(b: &Vec<SlotBoundaryDetail>) -> (worst: Vec<usize>)
    ensures
        positions(worst@) == worst_of(views(b@)),
        forall|k: int| 0 <= k < worst@.len() ==> #[trigger] worst@[k] < b@.len(),
{
    let ghost v = views(b@);
    let mut keys: Vec<i128> = Vec::new();
    let mut i: usize = 0;
    while i < b.len()
        invariant
            i <= b@.len(),
            v == views(b@),
            keys@.len() == i,
            forall|k: int| 0 <= k < i ==> #[trigger] keys@[k] == badness(v[k]),
        decreases b@.len() - i,
    {
        assert(v[i as int] == b@[i as int]@);
        keys.push(
            b[i].propagation_gap_ms as i128 - b[i].overlap_count as i128
                * 0x1_0000_0000_0000_0000,
        );
        i = i + 1;
    }
    assert(ints(keys@) =~= badness_of(v));
    let order = stable_order(&keys);
    let mut worst: Vec<usize> = Vec::new();
    assert(positions(worst@) =~= Seq::<int>::empty());
    let mut k: usize = 0;
    while k < order.len()
        invariant
            k <= order@.len() == b@.len(),
            v == views(b@),
            forall|a: int| 0 <= a < order@.len() ==> #[trigger] order@[a] < b@.len(),
            forall|a: int| 0 <= a < worst@.len() ==> #[trigger] worst@[a] < b@.len(),
            positions(worst@) == overlapping_in(v, positions(order@), k as nat),
        decreases order@.len() - k,
    {
        let at = order[k];
        assert(positions(order@)[k as int] == at);
        assert(v[at as int] == b@[at as int]@);
        if b[at].overlap_count > 0 {
            assert(positions(worst@.push(at)) =~= positions(worst@).push(at as int));
            worst.push(at);
        }
        k = k + 1;
    }
    worst
}

/// How the slots of different collators meet.
pub open spec fn slot_section(
    out: ReportView,
    a: SlotBoundaryAnalysisView,
    max_samples: usize,
) -> ReportView {
    let total = a.boundaries.len();
    if total == 0 {
        out
    } else {
        let out = out.text("### Slot Boundary Propagation Analysis\n\n"@);
        let out = out
            .text("Measures the time gap between the outgoing collator sealing its last block and the incoming collator starting to build. Negative = overlap (incoming started before outgoing's block was propagated).\n\n"@);
        let out = out.text("| Metric | Value |\n"@);
        let out = out.text("|---|---|\n"@);
        let out = out.text("| Total slot boundaries | "@).number(total).text(" |\n"@);
        let out = out.text("| Boundaries with overlap | **"@)
            .number(a.boundaries_with_overlap as nat).text("** ("@)
            .percent(share(a.boundaries_with_overlap as nat, total), 0).text("%) |\n"@);
        let out = out.text("| Boundaries without overlap | "@)
            .number(a.boundaries_without_overlap as nat).text(" ("@)
            .percent(share(a.boundaries_without_overlap as nat, total), 0)
            .text("%) |\n"@);
        let out = out.text("| Propagation gap (avg) | **"@).quotient(a.avg_propagation_gap_ms, 0)
            .text("ms** |\n"@);
        let out = out.text("| Propagation gap (median) | **"@)
            .signed(a.median_propagation_gap_ms as int).text("ms** |\n"@);
        let out = out.text("| Propagation gap (min / max) | "@)
            .signed(a.min_propagation_gap_ms as int).text("ms / "@)
            .signed(a.max_propagation_gap_ms as int).text("ms |\n"@);
        let out = if a.boundaries_with_overlap > 0 {
            let out = out.text("| Avg overlap per boundary (when overlapping) | **"@)
                .quotient(a.avg_overlap_count, 1).text(" blocks** |\n"@);
            out.text("| Max overlap at a single boundary | **"@)
                .number(a.max_overlap_count as nat).text(" blocks** |\n"@)
        } else {
            out
        };
        let out = if a.relay_parent_gaps > 0 {
            out.text("| Relay parent gaps > 1 block | **"@)
                .number(a.relay_parent_gaps as nat).text("** ("@)
                .percent(share(a.relay_parent_gaps as nat, total), 0)
                .text("%) — possible relay chain forks |\n"@)
        } else {
            out
        };
        let out = out.text("\n"@);
        let worst = worst_of(a.boundaries);
        let shown = at_most(worst.len(), max_samples);
        if shown > 0 {
            boundary_lines(
                out.text("#### Worst overlap boundaries\n\n"@),
                a.boundaries,
                worst,
                shown,
            ).text("\n"@)
        } else {
            out
        }
    }
}

fn write_worst_boundaries(out: &mut Report, b: &Vec<SlotBoundaryDetail>, max_samples: usize)
    ensures
        final(out)@ == ({
            let worst = worst_of(views(b@));
            let shown = at_most(worst.len(), max_samples);
            if shown > 0 {
                boundary_lines(
                    old(out)@.text("#### Worst overlap boundaries\n\n"@),
                    views(b@),
                    worst,
                    shown,
                ).text("\n"@)
            } else {
                old(out)@
            }
        }),
{
    let worst = worst_boundaries(b);
    assert(positions(worst@).len() == worst.len());
    let shown: usize = if worst.len() < max_samples {
        worst.len()
    } else {
        max_samples
    };
    if shown > 0 {
        out.text("#### Worst overlap boundaries\n\n");
        let ghost start = out@;
        let mut k: usize = 0;
        while k < shown
            invariant
                k <= shown <= worst@.len(),
                positions(worst@) == worst_of(views(b@)),
                forall|k: int| 0 <= k < worst@.len() ==> #[trigger] worst@[k] < b@.len(),
                out@ == boundary_lines(start, views(b@), worst_of(views(b@)), k as nat),
            decreases shown - k,
        {
            let at = worst[k];
            assert(positions(worst@)[k as int] == at);
            assert(views(b@)[at as int] == b@[at as int]@);
            write_boundary_line(out, &b[at]);
            k = k + 1;
        }
        out.text("\n");
    }
}

/// Writes how the slots of different collators meet.
pub fn write_slot_boundary_section(out: &mut Report, a: &SlotBoundaryAnalysis, max_samples: usize)
    ensures
        final(out)@ == slot_section(old(out)@, a@, max_samples),
{
    let total = a.boundaries.len();
    assert(a@.boundaries.len() == total);
    if total == 0 {
        return;
    }
    out.text("### Slot Boundary Propagation Analysis\n\n");
    out.text("Measures the time gap between the outgoing collator sealing its last block and the incoming collator starting to build. Negative = overlap (incoming started before outgoing's block was propagated).\n\n");
    out.text("| Metric | Value |\n");
    out.text("|---|---|\n");
    out.text("| Total slot boundaries | ");
    out.number(total as u128);
    out.text(" |\n");
    out.text("| Boundaries with overlap | **");
    out.number(a.boundaries_with_overlap as u128);
    out.text("** (");
    out.percent(share_of(a.boundaries_with_overlap, total as u128), 0);
    out.text("%) |\n");
    out.text("| Boundaries without overlap | ");
    out.number(a.boundaries_without_overlap as u128);
    out.text(" (");
    out.percent(share_of(a.boundaries_without_overlap, total as u128), 0);
    out.text("%) |\n");
    out.text("| Propagation gap (avg) | **");
    out.quotient(a.avg_propagation_gap_ms, 0);
    out.text("ms** |\n");
    out.text("| Propagation gap (median) | **");
    out.signed(a.median_propagation_gap_ms);
    out.text("ms** |\n");
    out.text("| Propagation gap (min / max) | ");
    out.signed(a.min_propagation_gap_ms);
    out.text("ms / ");
    out.signed(a.max_propagation_gap_ms);
    out.text("ms |\n");
    if a.boundaries_with_overlap > 0 {
        out.text("| Avg overlap per boundary (when overlapping) | **");
        out.quotient(a.avg_overlap_count, 1);
        out.text(" blocks** |\n");
        out.text("| Max overlap at a single boundary | **");
        out.number(a.max_overlap_count as u128);
        out.text(" blocks** |\n");
    }
    if a.relay_parent_gaps > 0 {
        out.text("| Relay parent gaps > 1 block | **");
        out.number(a.relay_parent_gaps as u128);
        out.text("** (");
        out.percent(share_of(a.relay_parent_gaps, total as u128), 0);
        out.text("%) — possible relay chain forks |\n");
    }
    out.text("\n");
    write_worst_boundaries(out, &a.boundaries, max_samples);
}

// ---- Rebuilds ----
/// The number and short hash of those of the first `n` candidates that a number can be read from.
pub open spec fn decoded(c: Seq<ParaCandidateEventView>, n: nat) -> Seq<(u32, Seq<char>)>
    decreases n,
{
    if n == 0 {
        Seq::empty()
    } else {
        let before = decoded(c, (n - 1) as nat);
        match c[n - 1].para_head_data {
            Some(head) => match para_number(head) {
                Some(number) => before.push((number, truncated_text(blake2b_256(head)))),
                None => before,
            },
            None => before,
        }
    }
}

/// The views of numbered hashes.
pub open spec fn numbered(v: Seq<(u32, String)>) -> Seq<(u32, Seq<char>)> {
    Seq::new(v.len(), |i: int| (v[i].0, v[i].1@))
}

fn decode_candidates(c: &Vec<ParaCandidateEvent>) -> (list: Vec<(u32, String)>)
    ensures
        numbered(list@) == decoded(views(c@), c@.len()),
{
    let mut list: Vec<(u32, String)> = Vec::new();
    assert(numbered(list@) =~= Seq::<(u32, Seq<char>)>::empty());
    let mut i: usize = 0;
    while i < c.len()
        invariant
            i <= c@.len(),
            numbered(list@) == decoded(views(c@), i as nat),
        decreases c@.len() - i,
    {
        assert(views(c@)[i as int] == c@[i as int]@);
        if let Some(head) = &c[i].para_head_data {
            if let Some(number) = decode_para_block_number(head.as_slice()) {
                let hash = compute_block_hash_from_head_data(head.as_slice());
                let item = (number, short_text_of_hash(&hash));
                assert(numbered(list@.push(item)) =~= numbered(list@).push((item.0, item.1@)));
                list.push(item);
            }
        }
        i = i + 1;
    }
    list
}

/// A count, with the range of the numbers that are known.
pub open spec fn with_range(
    out: ReportView,
    list: Seq<(u32, Seq<char>)>,
    count: nat,
) -> ReportView {
    let number = |i: int| list[i].0 as int;
    match (least_of(list.len(), number), greatest_of(list.len(), number)) {
        (Some(min), Some(max)) => if min == max {
            out.number(count).text(" (#"@).number(min as nat).text(")"@)
        } else {
            out.number(count).text(" ("@).number(min as nat).text("–"@).number(max as nat).text(
                ")"@,
            )
        },
        _ => out.number(count),
    }
}

fn write_range(out: &mut Report, list: &Vec<(u32, String)>, count: usize)
    ensures
        final(out)@ == with_range(old(out)@, numbered(list@), count as nat),
{
    let ghost v = numbered(list@);
    let ghost number = |i: int| v[i].0 as int;
    let mut range: Option<(u32, u32)> = None;
    let mut i: usize = 0;
    while i < list.len()
        invariant
            i <= list@.len(),
            v == numbered(list@),
            number == (|i: int| v[i].0 as int),
            match range {
                Some((min, max)) => least_of(i as nat, number) == Some(min as int) && greatest_of(
                    i as nat,
                    number,
                ) == Some(max as int),
                None => i == 0,
            },
        decreases list@.len() - i,
    {
        let n = list[i].0;
        assert(number(i as int) == n);
        range = match range {
            Some((min, max)) => Some(
                (
                    if min <= n {
                        min
                    } else {
                        n
                    },
                    if max >= n {
                        max
                    } else {
                        n
                    },
                ),
            ),
            None => Some((n, n)),
        };
        i = i + 1;
    }
    assert(v.len() == list.len());
    out.number(count as u128);
    if let Some((min, max)) = range {
        if min == max {
            out.text(" (#");
            out.number(min as u128);
            out.text(")");
        } else {
            out.text(" (");
            out.number(min as u128);
            out.text("–");
            out.number(max as u128);
            out.text(")");
        }
    }
}

/// The first `n` numbers with their hashes.
pub open spec fn with_list(out: ReportView, list: Seq<(u32, Seq<char>)>, n: nat) -> ReportView
    decreases n,
{
    if n == 0 {
        out
    } else {
        let before = with_list(out, list, (n - 1) as nat);
        let comma = if n > 1 {
            before.text(", "@)
        } else {
            before
        };
        comma.text("#"@).number(list[n - 1].0 as nat).text(" "@).text(list[n - 1].1)
    }
}

/// A line with the numbers and hashes, if there are any.
pub open spec fn list_line(
    out: ReportView,
    heading: Seq<char>,
    list: Seq<(u32, Seq<char>)>,
) -> ReportView {
    if list.len() > 0 {
        with_list(out.text(heading), list, list.len()).text("\n"@)
    } else {
        out
    }
}

fn write_list_line(out: &mut Report, heading: &str, list: &Vec<(u32, String)>)
    ensures
        final(out)@ == list_line(old(out)@, heading@, numbered(list@)),
{
    let ghost v = numbered(list@);
    assert(v.len() == list.len());
    if list.len() > 0 {
        out.text(heading);
        let ghost start = out@;
        let mut i: usize = 0;
        while i < list.len()
            invariant
                i <= list@.len(),
                v == numbered(list@),
                out@ == with_list(start, v, i as nat),
            decreases list@.len() - i,
        {
            assert(v[i as int] == (list@[i as int].0, list@[i as int].1@));
            if i > 0 {
                out.text(", ");
            }
            out.text("#");
            out.number(list[i].0 as u128);
            out.text(" ");
            out.text(list[i].1.as_str());
            i = i + 1;
        }
        out.text("\n");
    }
}

/// What a relay block between two relay parents did for the parachain.
pub open spec fn sequence_line(out: ReportView, info: OnChainBlockInfoView) -> ReportView {
    let backed = decoded(info.backed_para_candidates, info.backed_para_candidates.len());
    let included = decoded(info.included_para_candidates, info.included_para_candidates.len());
    let out = out.text("  - [#"@).number(info.block_number as nat)
        .text("](https://polkadot.js.org/apps/?rpc=wss%3A%2F%2Frpc.polkadot.io#/explorer/query/"@)
        .text(full_text(info.block_hash)).text(") ("@)
        .text(truncated_text(info.block_hash)).text("): "@);
    let out = if info.backed_para_candidates.len() == 0 {
        out.text("no backed candidates for our para"@)
    } else {
        let out = with_range(out.text("backs "@), backed, info.backed_para_candidates.len());
        let groups = groups_of(info.backed_para_candidates);
        if groups.len() > 0 {
            with_numbers(out.text(" [group(s) "@), long_numbers_in(groups), groups.len()).text("]"@)
        } else {
            out
        }
    };
    let out = if info.included_para_candidates.len() > 0 {
        with_range(
            out.text(", includes "@),
            included,
            info.included_para_candidates.len(),
        )
    } else {
        out
    };
    let out = with_schedule(out, info.claim_queue_cores).text("\n"@);
    let out = list_line(out, "    - backed "@, backed);
    list_line(out, "    - included "@, included)
}

/// Writes what a relay block between two relay parents did for the parachain.
fn write_sequence_line(out: &mut Report, info: &OnChainBlockInfo)
    ensures
        final(out)@ == sequence_line(old(out)@, info@),
{
    let hash = text_of_hash(&info.block_hash);
    let short = short_text_of_hash(&info.block_hash);
    assert(info@.backed_para_candidates.len() == info.backed_para_candidates.len());
    assert(info@.included_para_candidates.len() == info.included_para_candidates.len());
    let backed = decode_candidates(&info.backed_para_candidates);
    let included = decode_candidates(&info.included_para_candidates);
    out.text("  - [#");
    out.number(info.block_number as u128);
    out.text("](https://polkadot.js.org/apps/?rpc=wss%3A%2F%2Frpc.polkadot.io#/explorer/query/");
    out.text(hash.as_str());
    out.text(") (");
    out.text(short.as_str());
    out.text("): ");
    if info.backed_para_candidates.len() == 0 {
        out.text("no backed candidates for our para");
    } else {
        out.text("backs ");
        write_range(out, &backed, info.backed_para_candidates.len());
        let groups = backing_groups(&info.backed_para_candidates);
        if groups.len() > 0 {
            out.text(" [group(s) ");
            write_long_numbers(out, &groups);
            out.text("]");
        }
    }
    if info.included_para_candidates.len() > 0 {
        out.text(", includes ");
        write_range(out, &included, info.included_para_candidates.len());
    }
    write_schedule(out, &info.claim_queue_cores);
    out.text("\n");
    write_list_line(out, "    - backed ", &backed);
    write_list_line(out, "    - included ", &included);
}

/// What the first `n` relay blocks did for the parachain.
pub open spec fn sequence_lines(out: ReportView, blocks: Seq<OnChainBlockInfoView>, n: nat) -> ReportView
    decreases n,
{
    if n == 0 {
        out
    } else {
        sequence_line(sequence_lines(out, blocks, (n - 1) as nat), blocks[n - 1])
    }
}

fn write_sequence_lines(out: &mut Report, blocks: &Vec<OnChainBlockInfo>)
    ensures
        final(out)@ == sequence_lines(old(out)@, views(blocks@), blocks@.len()),
{
    let mut i: usize = 0;
    while i < blocks.len()
        invariant
            i <= blocks@.len(),
            out@ == sequence_lines(old(out)@, views(blocks@), i as nat),
        decreases blocks@.len() - i,
    {
        assert(views(blocks@)[i as int] == blocks@[i as int]@);
        write_sequence_line(out, &blocks[i]);
        i = i + 1;
    }
}

/// How many relay blocks have the parachain scheduled.
pub open spec fn scheduled_in(blocks: Seq<OnChainBlockInfoView>) -> nat {
    count_where(blocks.len(), |i: int| blocks[i].claim_queue_cores.len() > 0)
}

fn count_scheduled(blocks: &Vec<OnChainBlockInfo>) -> (n: usize)
    ensures
        n == scheduled_in(views(blocks@)),
        n <= blocks@.len(),
{
    let ghost v = views(blocks@);
    let ghost ok = |i: int| v[i].claim_queue_cores.len() > 0;
    let mut n: usize = 0;
    let mut i: usize = 0;
    while i < blocks.len()
        invariant
            i <= blocks@.len(),
            v == views(blocks@),
            ok == (|i: int| v[i].claim_queue_cores.len() > 0),
            n == count_where(i as nat, ok),
            n <= i,
        decreases blocks@.len() - i,
    {
        assert(v[i as int] == blocks@[i as int]@);
        if blocks[i].claim_queue_cores.len() > 0 {
            n = n + 1;
        }
        i = i + 1;
    }
    n
}

/// The relay blocks between two relay parents, and in how many of them the parachain was scheduled.
pub open spec fn sequence_section(
    out: ReportView,
    blocks: Seq<OnChainBlockInfoView>,
) -> ReportView {
    let out = out.text("- Relay chain block sequence:\n"@);
    let out = sequence_lines(out, blocks, blocks.len());
    let scheduled = scheduled_in(blocks);
    let total = blocks.len();
    if scheduled < total {
        out.text("- Scheduling: para was scheduled in "@).number(scheduled).text("/"@)
            .number(total).text(" relay blocks in this range ("@)
            .number((total - scheduled) as nat).text(" unscheduled)\n"@)
    } else {
        out
    }
}

/// Writes about the relay blocks between two relay parents.
fn write_sequence(out: &mut Report, blocks: &Vec<OnChainBlockInfo>)
    ensures
        final(out)@ == sequence_section(old(out)@, views(blocks@)),
{
    let total = blocks.len();
    assert(views(blocks@).len() == total);
    out.text("- Relay chain block sequence:\n");
    write_sequence_lines(out, blocks);
    let scheduled = count_scheduled(blocks);
    if scheduled < total {
        out.text("- Scheduling: para was scheduled in ");
        out.number(scheduled as u128);
        out.text("/");
        out.number(total as u128);
        out.text(" relay blocks in this range (");
        out.number((total - scheduled) as u128);
        out.text(" unscheduled)\n");
    }
}

/// One of the two blocks of a rebuild.
pub open spec fn rebuild_side(
    out: ReportView,
    heading: Seq<char>,
    hash: Seq<char>,
    collator: Option<Seq<char>>,
    time: int,
    rp: Option<u32>,
    slot: Option<u64>,
) -> ReportView {
    let out = out.text(heading).text(short_text(hash)).text(" (built by "@);
    let out = match collator {
        Some(name) => out.text(name),
        None => out.text("unknown"@),
    };
    let out = out.text(" at "@).text(clock_text(time));
    let out = match rp {
        Some(rp) => out.text(" on RP #"@).number(rp as nat),
        None => out,
    };
    let out = match slot {
        Some(slot) => out.text(" slot "@).number(slot as nat),
        None => out,
    };
    out.text(")\n"@)
}

fn write_rebuild_side(
    out: &mut Report,
    heading: &str,
    hash: &crate::hash::LogHash,
    collator: &Option<String>,
    time: crate::time::Timestamp,
    rp: Option<u32>,
    slot: Option<u64>,
)
    ensures
        final(out)@ == rebuild_side(
            old(out)@,
            heading@,
            hash@.raw,
            opt_view(*collator),
            time@,
            rp,
            slot,
        ),
{
    out.text(heading);
    out.text(hash.short());
    out.text(" (built by ");
    match collator {
        Some(name) => {
            out.text(name.as_str());
        },
        None => {
            out.text("unknown");
        },
    }
    out.text(" at ");
    let clock = time.clock();
    out.text(clock.as_str());
    if let Some(rp) = rp {
        out.text(" on RP #");
        out.number(rp as u128);
    }
    if let Some(slot) = slot {
        out.text(" slot ");
        out.number(slot as u128);
    }
    out.text(")\n");
}

/// A rebuild as a sample.
pub open spec fn rebuild_sample(out: ReportView, r: RebuildEventView) -> ReportView {
    let out = out.text("#### Block #"@).number(r.block_number as nat)
        .text(" \u{2014} rebuilt on "@).text(r.observer).text("\n"@);
    let out = rebuild_side(
        out,
        "- Original best: "@,
        r.block_hash_best.raw,
        r.best_collator,
        r.best_timestamp,
        r.best_relay_parent,
        r.best_slot,
    );
    let out = rebuild_side(
        out,
        "- Replacement: "@,
        r.block_hash_rebuilt.raw,
        r.rebuilt_collator,
        r.rebuilt_timestamp,
        r.rebuilt_relay_parent,
        r.rebuilt_slot,
    );
    let out = match r.cause {
        RebuildCause::SlotBoundaryOverlap { outgoing_slot, incoming_slot } => out.text(
            "- Root cause: slot boundary overlap (slot "@,
        ).number(outgoing_slot as nat).text(" → "@).number(incoming_slot as nat).text(")\n"@),
        RebuildCause::NewerRelayParent { old_rp, new_rp } => out.text(
            "- Root cause: rebuilt on newer relay parent (RP #"@,
        ).number(old_rp as nat).text(" → #"@).number(new_rp as nat).text(")\n"@),
        RebuildCause::Unknown => out.text("- Root cause: unknown\n"@),
    };
    let out = match r.on_chain_winner {
        OnChainWinner::OriginalBest => out.text("- On-chain: **original best** was included\n"@),
        OnChainWinner::Replacement => out.text("- On-chain: **replacement** was included\n"@),
        OnChainWinner::Unknown => out.text("- On-chain: unknown (outside query range)\n"@),
    };
    let out = if r.relay_block_sequence.len() > 0 {
        sequence_section(out, r.relay_block_sequence)
    } else {
        out
    };
    out.text("\n"@)
}

/// Writes about a rebuild as a sample.
fn write_rebuild_sample(out: &mut Report, r: &RebuildEvent)
    ensures
        final(out)@ == rebuild_sample(old(out)@, r@),
{
    assert(r@.relay_block_sequence.len() == r.relay_block_sequence.len());
    out.text("#### Block #");
    out.number(r.block_number as u128);
    out.text(" \u{2014} rebuilt on ");
    out.text(r.observer.as_str());
    out.text("\n");
    write_rebuild_side(
        out,
        "- Original best: ",
        &r.block_hash_best,
        &r.best_collator,
        r.best_timestamp,
        r.best_relay_parent,
        r.best_slot,
    );
    write_rebuild_side(
        out,
        "- Replacement: ",
        &r.block_hash_rebuilt,
        &r.rebuilt_collator,
        r.rebuilt_timestamp,
        r.rebuilt_relay_parent,
        r.rebuilt_slot,
    );
    match r.cause {
        RebuildCause::SlotBoundaryOverlap { outgoing_slot, incoming_slot } => {
            out.text("- Root cause: slot boundary overlap (slot ");
            out.number(outgoing_slot as u128);
            out.text(" → ");
            out.number(incoming_slot as u128);
            out.text(")\n");
        },
        RebuildCause::NewerRelayParent { old_rp, new_rp } => {
            out.text("- Root cause: rebuilt on newer relay parent (RP #");
            out.number(old_rp as u128);
            out.text(" → #");
            out.number(new_rp as u128);
            out.text(")\n");
        },
        RebuildCause::Unknown => {
            out.text("- Root cause: unknown\n");
        },
    }
    match r.on_chain_winner {
        OnChainWinner::OriginalBest => {
            out.text("- On-chain: **original best** was included\n");
        },
        OnChainWinner::Replacement => {
            out.text("- On-chain: **replacement** was included\n");
        },
        OnChainWinner::Unknown => {
            out.text("- On-chain: unknown (outside query range)\n");
        },
    }
    if r.relay_block_sequence.len() > 0 {
        write_sequence(out, &r.relay_block_sequence);
    }
    out.text("\n");
}

/// The first `n` rebuilds as samples.
pub open spec fn rebuild_samples(out: ReportView, rebuilds: Seq<RebuildEventView>, n: nat) -> ReportView
    decreases n,
{
    if n == 0 {
        out
    } else {
        rebuild_sample(rebuild_samples(out, rebuilds, (n - 1) as nat), rebuilds[n - 1])
    }
}

fn write_rebuild_samples(out: &mut Report, rebuilds: &Vec<RebuildEvent>, n: usize)
    requires
        n <= rebuilds@.len(),
    ensures
        final(out)@ == rebuild_samples(old(out)@, views(rebuilds@), n as nat),
{
    let mut i: usize = 0;
    while i < n
        invariant
            i <= n <= rebuilds@.len(),
            out@ == rebuild_samples(old(out)@, views(rebuilds@), i as nat),
        decreases n - i,
    {
        assert(views(rebuilds@)[i as int] == rebuilds@[i as int]@);
        write_rebuild_sample(out, &rebuilds[i]);
        i = i + 1;
    }
}

/// How many rebuilds are slot boundary overlaps.
pub open spec fn overlaps_in(r: Seq<RebuildEventView>) -> nat {
    count_where(r.len(), |i: int| r[i].cause is SlotBoundaryOverlap)
}

/// How many rebuilds are on a newer relay parent.
pub open spec fn newer_rps_in(r: Seq<RebuildEventView>) -> nat {
    count_where(r.len(), |i: int| r[i].cause is NewerRelayParent)
}

/// How many rebuilds have an unknown cause.
pub open spec fn unknown_causes_in(r: Seq<RebuildEventView>) -> nat {
    count_where(r.len(), |i: int| r[i].cause is Unknown)
}

/// After how many rebuilds the original best was included.
pub open spec fn originals_in(r: Seq<RebuildEventView>) -> nat {
    count_where(r.len(), |i: int| r[i].on_chain_winner is OriginalBest)
}

/// After how many rebuilds the replacement was included.
pub open spec fn replacements_in(r: Seq<RebuildEventView>) -> nat {
    count_where(r.len(), |i: int| r[i].on_chain_winner is Replacement)
}

/// After how many rebuilds it is not known what was included.
pub open spec fn unknown_winners_in(r: Seq<RebuildEventView>) -> nat {
    count_where(r.len(), |i: int| r[i].on_chain_winner is Unknown)
}

fn count_causes(r: &Vec<RebuildEvent>) -> (counts: (usize, usize, usize))
    ensures
        counts.0 == overlaps_in(views(r@)),
        counts.1 == newer_rps_in(views(r@)),
        counts.2 == unknown_causes_in(views(r@)),
        counts.0 + counts.1 + counts.2 == r@.len(),
{
    let ghost v = views(r@);
    let ghost ok_overlaps = |i: int| v[i].cause is SlotBoundaryOverlap;
    let ghost ok_newer = |i: int| v[i].cause is NewerRelayParent;
    let ghost ok_unknown = |i: int| v[i].cause is Unknown;
    let mut overlaps: usize = 0;
    let mut newer: usize = 0;
    let mut unknown: usize = 0;
    let mut i: usize = 0;
    while i < r.len()
        invariant
            i <= r@.len(),
            v == views(r@),
            overlaps == count_where(i as nat, ok_overlaps),
            ok_overlaps == (|i: int| v[i].cause is SlotBoundaryOverlap),
            newer == count_where(i as nat, ok_newer),
            ok_newer == (|i: int| v[i].cause is NewerRelayParent),
            unknown == count_where(i as nat, ok_unknown),
            ok_unknown == (|i: int| v[i].cause is Unknown),
            overlaps + newer + unknown == i,
        decreases r@.len() - i,
    {
        assert(v[i as int] == r@[i as int]@);
        match r[i].cause {
            RebuildCause::SlotBoundaryOverlap { .. } => {
                overlaps = overlaps + 1;
            },
            RebuildCause::NewerRelayParent { .. } => {
                newer = newer + 1;
            },
            RebuildCause::Unknown => {
                unknown = unknown + 1;
            },
        }
        i = i + 1;
    }
    (overlaps, newer, unknown)
}

fn count_winners(r: &Vec<RebuildEvent>) -> (counts: (usize, usize, usize))
    ensures
        counts.0 == originals_in(views(r@)),
        counts.1 == replacements_in(views(r@)),
        counts.2 == unknown_winners_in(views(r@)),
        counts.0 + counts.1 + counts.2 == r@.len(),
{
    let ghost v = views(r@);
    let ghost ok_original = |i: int| v[i].on_chain_winner is OriginalBest;
    let ghost ok_replacement = |i: int| v[i].on_chain_winner is Replacement;
    let ghost ok_unknown = |i: int| v[i].on_chain_winner is Unknown;
    let mut original: usize = 0;
    let mut replacement: usize = 0;
    let mut unknown: usize = 0;
    let mut i: usize = 0;
    while i < r.len()
        invariant
            i <= r@.len(),
            v == views(r@),
            original == count_where(i as nat, ok_original),
            ok_original == (|i: int| v[i].on_chain_winner is OriginalBest),
            replacement == count_where(i as nat, ok_replacement),
            ok_replacement == (|i: int| v[i].on_chain_winner is Replacement),
            unknown == count_where(i as nat, ok_unknown),
            ok_unknown == (|i: int| v[i].on_chain_winner is Unknown),
            original + replacement + unknown == i,
        decreases r@.len() - i,
    {
        assert(v[i as int] == r@[i as int]@);
        match r[i].on_chain_winner {
            OnChainWinner::OriginalBest => {
                original = original + 1;
            },
            OnChainWinner::Replacement => {
                replacement = replacement + 1;
            },
            OnChainWinner::Unknown => {
                unknown = unknown + 1;
            },
        }
        i = i + 1;
    }
    (original, replacement, unknown)
}

/// Every rebuild has one cause and one outcome: the counts add up.
pub proof fn rebuild_counts_add_up(r: Seq<RebuildEventView>)
    ensures
        overlaps_in(r) + newer_rps_in(r) + unknown_causes_in(r) == r.len(),
        originals_in(r) + replacements_in(r) + unknown_winners_in(r) == r.len(),
{
    three_counts(
        r.len(),
        |i: int| r[i].cause is SlotBoundaryOverlap,
        |i: int| r[i].cause is NewerRelayParent,
        |i: int| r[i].cause is Unknown,
    );
    three_counts(
        r.len(),
        |i: int| r[i].on_chain_winner is OriginalBest,
        |i: int| r[i].on_chain_winner is Replacement,
        |i: int| r[i].on_chain_winner is Unknown,
    );
}

proof fn three_counts(
    n: nat,
    a: spec_fn(int) -> bool,
    b: spec_fn(int) -> bool,
    c: spec_fn(int) -> bool,
)
    requires
        forall|i: int| 0 <= i < n ==> {
            ||| #[trigger] a(i) && !b(i) && !c(i)
            ||| !a(i) && b(i) && !c(i)
            ||| !a(i) && !b(i) && c(i)
        },
    ensures
        count_where(n, a) + count_where(n, b) + count_where(n, c) == n,
    decreases n,
{
    if n > 0 {
        three_counts((n - 1) as nat, a, b, c);
        assert(a(n - 1) || !a(n - 1));
    }
}

/// The causes of rebuilds.
pub open spec fn causes_section(out: ReportView, r: Seq<RebuildEventView>) -> ReportView {
    let total = r.len();
    let overlaps = overlaps_in(r);
    let newer = newer_rps_in(r);
    let unknown = unknown_causes_in(r);
    let out = out.text("### Rebuild Breakdown ("@).number(total).text(" total)\n\n"@);
    let out = if overlaps > 0 {
        out.text("- Slot boundary overlap: **"@).number(overlaps).text("** ("@)
            .percent(share(overlaps, total), 0)
            .text("%) — incoming collator started before outgoing collator's block propagated\n"@)
    } else {
        out
    };
    let out = if newer > 0 {
        out.text("- Rebuilt on newer relay parent: **"@).number(newer).text("** ("@)
            .percent(share(newer, total), 0)
            .text("%) — collator rebuilt at same height on a newer RP in a later slot\n"@)
    } else {
        out
    };
    let out = if unknown > 0 {
        out.text("- Unknown: **"@).number(unknown).text("** ("@)
            .percent(share(unknown, total), 0).text("%)\n"@)
    } else {
        out
    };
    out.text("\n"@)
}

/// Writes about the causes of rebuilds.
fn write_causes(out: &mut Report, r: &Vec<RebuildEvent>)
    ensures
        final(out)@ == causes_section(old(out)@, views(r@)),
{
    let total = r.len();
    assert(views(r@).len() == total);
    let (overlaps, newer, unknown) = count_causes(r);
    out.text("### Rebuild Breakdown (");
    out.number(total as u128);
    out.text(" total)\n\n");
    if overlaps > 0 {
        out.text("- Slot boundary overlap: **");
        out.number(overlaps as u128);
        out.text("** (");
        out.percent(share_of(overlaps, total as u128), 0);
        out.text("%) — incoming collator started before outgoing collator's block propagated\n");
    }
    if newer > 0 {
        out.text("- Rebuilt on newer relay parent: **");
        out.number(newer as u128);
        out.text("** (");
        out.percent(share_of(newer, total as u128), 0);
        out.text("%) — collator rebuilt at same height on a newer RP in a later slot\n");
    }
    if unknown > 0 {
        out.text("- Unknown: **");
        out.number(unknown as u128);
        out.text("** (");
        out.percent(share_of(unknown, total as u128), 0);
        out.text("%)\n");
    }
    out.text("\n");
}

/// Which blocks were included after rebuilds.
pub open spec fn outcomes_section(out: ReportView, r: Seq<RebuildEventView>) -> ReportView {
    let total = r.len();
    let original = originals_in(r);
    let replacement = replacements_in(r);
    let unknown = unknown_winners_in(r);
    let out = out.text("### On-Chain Inclusion Outcome\n\n"@);
    let out = out.text("For each rebuild, which block was actually included on-chain?\n\n"@);
    let out = out.text("| Outcome | Count | % |\n"@);
    let out = out.text("|---|---|---|\n"@);
    let out = out.text("| Original best (\u{1f3c6}) won on-chain | "@).number(original)
        .text(" | "@).percent(share(original, total), 0).text("% |\n"@);
    let out = out.text("| Replacement (\u{1f195}) won on-chain | "@).number(replacement)
        .text(" | "@).percent(share(replacement, total), 0).text("% |\n"@);
    let out = if unknown > 0 {
        out.text("| Unknown (outside query range) | "@).number(unknown).text(" | "@)
            .percent(share(unknown, total), 0).text("% |\n"@)
    } else {
        out
    };
    let out = out.text("\n"@);
    if replacement > 0 {
        out.text("**"@).number(replacement).text("** rebuilds ("@)
            .percent(share(replacement, total), 0)
            .text("%) resulted in the replacement block winning on-chain — these are real chain replacements where the later collator's block was backed instead.\n\n"@)
    } else {
        out
    }
}

/// Writes about which blocks were included after rebuilds.
fn write_outcomes(out: &mut Report, r: &Vec<RebuildEvent>)
    ensures
        final(out)@ == outcomes_section(old(out)@, views(r@)),
{
    let total = r.len();
    assert(views(r@).len() == total);
    let (original, replacement, unknown) = count_winners(r);
    out.text("### On-Chain Inclusion Outcome\n\n");
    out.text("For each rebuild, which block was actually included on-chain?\n\n");
    out.text("| Outcome | Count | % |\n");
    out.text("|---|---|---|\n");
    out.text("| Original best (\u{1f3c6}) won on-chain | ");
    out.number(original as u128);
    out.text(" | ");
    out.percent(share_of(original, total as u128), 0);
    out.text("% |\n");
    out.text("| Replacement (\u{1f195}) won on-chain | ");
    out.number(replacement as u128);
    out.text(" | ");
    out.percent(share_of(replacement, total as u128), 0);
    out.text("% |\n");
    if unknown > 0 {
        out.text("| Unknown (outside query range) | ");
        out.number(unknown as u128);
        out.text(" | ");
        out.percent(share_of(unknown, total as u128), 0);
        out.text("% |\n");
    }
    out.text("\n");
    if replacement > 0 {
        out.text("**");
        out.number(replacement as u128);
        out.text("** rebuilds (");
        out.percent(share_of(replacement, total as u128), 0);
        out.text("%) resulted in the replacement block winning on-chain — these are real chain replacements where the later collator's block was backed instead.\n\n");
    }
}

/// Authorship and rebuilds across collators.
pub open spec fn collators_section(
    out: ReportView,
    m: MultiCollatorAnalysisView,
    max_samples: usize,
) -> ReportView {
    let out = out.text("## Multi-Collator Rebuild Analysis\n\n"@);
    let out = out
        .text("| Collator | Blocks Built | \u{1f3c6} Won (final best) | Lost (replaced) | Win Rate |\n"@);
    let out = out.text("|---|---|---|---|---|\n"@);
    let out = collator_lines(out, m.per_collator, m.per_collator.len());
    let out = out.text("\n"@);
    if m.rebuilds.len() == 0 {
        out.text("No rebuild events detected across collators.\n\n"@)
    } else {
        let out = outcomes_section(causes_section(out, m.rebuilds), m.rebuilds);
        let out = match m.slot_boundary_analysis {
            Some(a) => slot_section(out, a, max_samples),
            None => out,
        };
        let shown = at_most(m.rebuilds.len(), max_samples);
        if shown > 0 {
            let out = out.text("### Sample Rebuilds\n\n"@);
            rebuild_samples(out, m.rebuilds, shown)
        } else {
            out
        }
    }
}

/// Writes about authorship and rebuilds across collators.
pub fn write_multi_collator_section(out: &mut Report, m: &MultiCollatorAnalysis, max_samples: usize)
    ensures
        final(out)@ == collators_section(old(out)@, m@, max_samples),
{
    assert(m@.rebuilds.len() == m.rebuilds.len());
    assert(m@.per_collator.len() == m.per_collator.len());
    out.text("## Multi-Collator Rebuild Analysis\n\n");
    out.text("| Collator | Blocks Built | \u{1f3c6} Won (final best) | Lost (replaced) | Win Rate |\n");
    out.text("|---|---|---|---|---|\n");
    write_collator_lines(out, &m.per_collator);
    out.text("\n");
    if m.rebuilds.len() == 0 {
        out.text("No rebuild events detected across collators.\n\n");
    } else {
        write_causes(out, &m.rebuilds);
        write_outcomes(out, &m.rebuilds);
        if let Some(a) = &m.slot_boundary_analysis {
            write_slot_boundary_section(out, a, max_samples);
        }
        let shown: usize = if m.rebuilds.len() < max_samples {
            m.rebuilds.len()
        } else {
            max_samples
        };
        if shown > 0 {
            out.text("### Sample Rebuilds\n\n");
            write_rebuild_samples(out, &m.rebuilds, shown);
        }
    }
}

// ---- Duplicates ----
/// The times of producers.
pub open spec fn times_of(p: Seq<DuplicateProducerView>) -> Seq<int> {
    Seq::new(p.len(), |i: int| p[i].timestamp)
}

/// Producers in the order of time.
pub open spec fn by_time(p: Seq<DuplicateProducerView>) -> Seq<DuplicateProducerView> {
    let order = sort_order(times_of(p));
    Seq::new(order.len(), |k: int| p[order[k]])
}

fn order_by_time(p: &Vec<DuplicateProducer>) -> (ordered: Vec<DuplicateProducer>)
    ensures
        views(ordered@) == by_time(views(p@)),
{
    let ghost all = by_time(views(p@));
    let mut keys: Vec<i128> = Vec::new();
    let mut i: usize = 0;
    while i < p.len()
        invariant
            i <= p@.len(),
            keys@.len() == i,
            forall|k: int| 0 <= k < i ==> #[trigger] keys@[k] == p@[k]@.timestamp,
        decreases p@.len() - i,
    {
        keys.push(p[i].timestamp.rank() as i128);
        i = i + 1;
    }
    assert(ints(keys@) =~= times_of(views(p@)));
    let order = stable_order(&keys);
    let mut ordered: Vec<DuplicateProducer> = Vec::new();
    assert(views(ordered@) =~= all.take(0));
    let mut k: usize = 0;
    while k < order.len()
        invariant
            k <= order@.len(),
            all == by_time(views(p@)),
            positions(order@) == sort_order(times_of(views(p@))),
            forall|a: int| 0 <= a < order@.len() ==> #[trigger] order@[a] < p@.len(),
            views(ordered@) == all.take(k as int),
        decreases order@.len() - k,
    {
        let producer = p[order[k]].clone();
        proof {
            assert(positions(order@)[k as int] == order@[k as int]);
            assert(views(p@)[order@[k as int] as int] == producer@);
            views_push(ordered@, producer);
            assert(all.take(k + 1) =~= all.take(k as int).push(producer@));
        }
        ordered.push(producer);
        k = k + 1;
    }
    assert(all.take(k as int) =~= all);
    ordered
}

/// The names of the first `n` producers.
pub open spec fn with_names(out: ReportView, p: Seq<DuplicateProducerView>, n: nat) -> ReportView
    decreases n,
{
    if n == 0 {
        out
    } else {
        let before = with_names(out, p, (n - 1) as nat);
        let comma = if n > 1 {
            before.text(", "@)
        } else {
            before
        };
        comma.text(p[n - 1].collator)
    }
}

/// The slots of the first `n` producers.
pub open spec fn with_slots(out: ReportView, p: Seq<DuplicateProducerView>, n: nat) -> ReportView
    decreases n,
{
    if n == 0 {
        out
    } else {
        let before = with_slots(out, p, (n - 1) as nat);
        let comma = if n > 1 {
            before.text(", "@)
        } else {
            before
        };
        comma.number(p[n - 1].slot as nat)
    }
}

fn write_names(out: &mut Report, p: &Vec<DuplicateProducer>)
    ensures
        final(out)@ == with_names(old(out)@, views(p@), p@.len()),
{
    let mut i: usize = 0;
    while i < p.len()
        invariant
            i <= p@.len(),
            out@ == with_names(old(out)@, views(p@), i as nat),
        decreases p@.len() - i,
    {
        assert(views(p@)[i as int] == p@[i as int]@);
        if i > 0 {
            out.text(", ");
        }
        out.text(p[i].collator.as_str());
        i = i + 1;
    }
}

fn write_slots(out: &mut Report, p: &Vec<DuplicateProducer>)
    ensures
        final(out)@ == with_slots(old(out)@, views(p@), p@.len()),
{
    let mut i: usize = 0;
    while i < p.len()
        invariant
            i <= p@.len(),
            out@ == with_slots(old(out)@, views(p@), i as nat),
        decreases p@.len() - i,
    {
        assert(views(p@)[i as int] == p@[i as int]@);
        if i > 0 {
            out.text(", ");
        }
        out.number(p[i].slot as u128);
        i = i + 1;
    }
}

/// A block number that different collators built on one relay parent.
pub open spec fn duplicate_row(out: ReportView, d: DuplicateBlockOnSameRPView) -> ReportView {
    let p = by_time(d.producers);
    let out = out.text("| "@).number(d.block_number as nat).text(" | #"@)
        .number(d.relay_parent_num as nat).text(" | "@);
    let out = with_names(out, p, p.len()).text(" | "@);
    let out = with_slots(out, p, p.len()).text(" | "@);
    let out = if p.len() >= 2 {
        out.signed(elapsed(p[0].timestamp, p[p.len() - 1].timestamp)).text("ms"@)
    } else {
        out.text("-"@)
    };
    out.text(" |\n"@)
}

/// Writes about a block number that different collators built on one relay parent.
fn write_duplicate_row(out: &mut Report, d: &DuplicateBlockOnSameRP)
    ensures
        final(out)@ == duplicate_row(old(out)@, d@),
{
    let p = order_by_time(&d.producers);
    assert(views(p@).len() == p.len());
    assert(forall|i: int| 0 <= i < p@.len() ==> views(p@)[i] == #[trigger] p@[i]@);
    out.text("| ");
    out.number(d.block_number as u128);
    out.text(" | #");
    out.number(d.relay_parent_num as u128);
    out.text(" | ");
    write_names(out, &p);
    out.text(" | ");
    write_slots(out, &p);
    out.text(" | ");
    if p.len() >= 2 {
        out.signed(p[p.len() - 1].timestamp.since(&p[0].timestamp));
        out.text("ms");
    } else {
        out.text("-");
    }
    out.text(" |\n");
}

/// The first `n` duplicates as rows.
pub open spec fn duplicate_rows(out: ReportView, dupes: Seq<DuplicateBlockOnSameRPView>, n: nat) -> ReportView
    decreases n,
{
    if n == 0 {
        out
    } else {
        duplicate_row(duplicate_rows(out, dupes, (n - 1) as nat), dupes[n - 1])
    }
}

fn write_duplicate_rows(out: &mut Report, dupes: &Vec<DuplicateBlockOnSameRP>)
    ensures
        final(out)@ == duplicate_rows(old(out)@, views(dupes@), dupes@.len()),
{
    let mut i: usize = 0;
    while i < dupes.len()
        invariant
            i <= dupes@.len(),
            out@ == duplicate_rows(old(out)@, views(dupes@), i as nat),
        decreases dupes@.len() - i,
    {
        assert(views(dupes@)[i as int] == dupes@[i as int]@);
        write_duplicate_row(out, &dupes[i]);
        i = i + 1;
    }
}

/// One producer.
pub open spec fn producer_line(out: ReportView, p: DuplicateProducerView) -> ReportView {
    out.text("- **"@).text(p.collator).text("**: slot "@).number(p.slot as nat)
        .text(" at "@).text(clock_text(p.timestamp)).text(" — hash "@)
        .text(short_text(p.block_hash.raw)).text("\n"@)
}

/// Writes about one producer.
fn write_producer_line(out: &mut Report, p: &DuplicateProducer)
    ensures
        final(out)@ == producer_line(old(out)@, p@),
{
    let time = p.timestamp.clock();
    out.text("- **");
    out.text(p.collator.as_str());
    out.text("**: slot ");
    out.number(p.slot as u128);
    out.text(" at ");
    out.text(time.as_str());
    out.text(" — hash ");
    out.text(p.block_hash.short());
    out.text("\n");
}

/// The first `n` producers.
pub open spec fn producer_lines(out: ReportView, p: Seq<DuplicateProducerView>, n: nat) -> ReportView
    decreases n,
{
    if n == 0 {
        out
    } else {
        producer_line(producer_lines(out, p, (n - 1) as nat), p[n - 1])
    }
}

fn write_producer_lines(out: &mut Report, p: &Vec<DuplicateProducer>)
    ensures
        final(out)@ == producer_lines(old(out)@, views(p@), p@.len()),
{
    let mut i: usize = 0;
    while i < p.len()
        invariant
            i <= p@.len(),
            out@ == producer_lines(old(out)@, views(p@), i as nat),
        decreases p@.len() - i,
    {
        assert(views(p@)[i as int] == p@[i as int]@);
        write_producer_line(out, &p[i]);
        i = i + 1;
    }
}

/// A duplicate with its producers.
pub open spec fn duplicate_details(out: ReportView, d: DuplicateBlockOnSameRPView) -> ReportView {
    let out = out.text("#### Block #"@).number(d.block_number as nat).text(" on RP #"@)
        .number(d.relay_parent_num as nat).text("\n\n"@);
    let p = by_time(d.producers);
    let out = producer_lines(out, p, p.len());
    out.text("\n"@)
}

/// Writes about a duplicate with its producers.
fn write_duplicate_details(out: &mut Report, d: &DuplicateBlockOnSameRP)
    ensures
        final(out)@ == duplicate_details(old(out)@, d@),
{
    out.text("#### Block #");
    out.number(d.block_number as u128);
    out.text(" on RP #");
    out.number(d.relay_parent_num as u128);
    out.text("\n\n");
    let p = order_by_time(&d.producers);
    assert(views(p@).len() == p.len());
    write_producer_lines(out, &p);
    out.text("\n");
}

/// The first `n` duplicates with their producers.
pub open spec fn all_details(out: ReportView, dupes: Seq<DuplicateBlockOnSameRPView>, n: nat) -> ReportView
    decreases n,
{
    if n == 0 {
        out
    } else {
        duplicate_details(all_details(out, dupes, (n - 1) as nat), dupes[n - 1])
    }
}

fn write_all_details(out: &mut Report, dupes: &Vec<DuplicateBlockOnSameRP>, n: usize)
    requires
        n <= dupes@.len(),
    ensures
        final(out)@ == all_details(old(out)@, views(dupes@), n as nat),
{
    let mut i: usize = 0;
    while i < n
        invariant
            i <= n <= dupes@.len(),
            out@ == all_details(old(out)@, views(dupes@), i as nat),
        decreases n - i,
    {
        assert(views(dupes@)[i as int] == dupes@[i as int]@);
        write_duplicate_details(out, &dupes[i]);
        i = i + 1;
    }
}

/// Up to how many duplicates are shown with their producers.
pub const MAX_DUPLICATE_SAMPLES: usize = 5;

/// The block numbers that different collators built on one relay parent.
pub open spec fn duplicates_section(
    out: ReportView,
    dupes: Seq<DuplicateBlockOnSameRPView>,
) -> ReportView {
    let out = out.text("## Duplicate Block Production Check\n\n"@);
    let out = out
        .text("Checks whether 2+ different collators ever built the same para block number on the same relay parent. This would indicate a protocol-level issue (e.g. Aura slot assignment violation or shared collator keys).\n\n"@);
    if dupes.len() == 0 {
        out
            .text("**No duplicates found.** Every (block number, relay parent) pair was produced by exactly one collator. Slot assignment is clean.\n\n"@)
    } else {
        let out = out.text("**WARNING: "@).number(dupes.len())
            .text(" case(s)** where different collators built the same block on the same RP:\n\n"@);
        let out = out.text("| Block # | Relay Parent | Collators | Slots | Time Gap |\n"@);
        let out = out.text("|---|---|---|---|---|\n"@);
        let out = duplicate_rows(out, dupes, dupes.len()).text("\n"@);
        let out = out.text("### Duplicate Production Details\n\n"@);
        all_details(out, dupes, at_most(dupes.len(), MAX_DUPLICATE_SAMPLES))
    }
}

/// Writes about the block numbers that different collators built on one relay parent.
pub fn write_duplicate_block_section(out: &mut Report, dupes: &Vec<DuplicateBlockOnSameRP>)
    ensures
        final(out)@ == duplicates_section(old(out)@, views(dupes@)),
{
    assert(views(dupes@).len() == dupes.len());
    out.text("## Duplicate Block Production Check\n\n");
    out.text("Checks whether 2+ different collators ever built the same para block number on the same relay parent. This would indicate a protocol-level issue (e.g. Aura slot assignment violation or shared collator keys).\n\n");
    if dupes.len() == 0 {
        out.text("**No duplicates found.** Every (block number, relay parent) pair was produced by exactly one collator. Slot assignment is clean.\n\n");
    } else {
        out.text("**WARNING: ");
        out.number(dupes.len() as u128);
        out.text(" case(s)** where different collators built the same block on the same RP:\n\n");
        out.text("| Block # | Relay Parent | Collators | Slots | Time Gap |\n");
        out.text("|---|---|---|---|---|\n");
        write_duplicate_rows(out, dupes);
        out.text("\n");
        out.text("### Duplicate Production Details\n\n");
        let n: usize = if dupes.len() < MAX_DUPLICATE_SAMPLES {
            dupes.len()
        } else {
            MAX_DUPLICATE_SAMPLES
        };
        write_all_details(out, dupes, n);
    }
}

// ---- The whole report ----
/// The report on several collators; the confidence is that of the first one.
pub fn generate_multi_collator_report(
    analysis: &Analysis,
    config: &ReportConfig,
    multi_analysis: &MultiCollatorAnalysis,
    primary_log: &ParsedLog,
) -> (report: Report)
    ensures
        report@ == drops_report(
            duplicates_section(
                collators_section(
                    confidence_section(blank(), primary_log@),
                    multi_analysis@,
                    config.max_samples,
                ),
                multi_analysis@.duplicate_blocks_same_rp,
            ),
            analysis@,
            *config,
        ),
{
    let mut out = Report::new();
    write_confidence(&mut out, primary_log);
    write_multi_collator_section(&mut out, multi_analysis, config.max_samples);
    write_duplicate_block_section(&mut out, &multi_analysis.duplicate_blocks_same_rp);
    write_drops_report(&mut out, analysis, config);
    out
}

} // verus!
