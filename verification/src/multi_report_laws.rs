//! What holds of the part of the report that compares collators: each figure stands behind its own
//! label.

use crate::chain_client::{blake2b_256, para_number};
use crate::document::ReportView;
use crate::hash::{full_text, short_text, truncated_text};
use crate::multi_report::{
    all_details, badness, badness_of, badness_orders, boundary_line, boundary_lines, by_time,
    causes_section, collator_line, collator_lines, collators_section, decoded, duplicate_details,
    duplicate_row, duplicate_rows, duplicates_section, list_line, newer_rps_in, originals_in,
    outcomes_section, overlapping_in, overlaps_in, producer_line, producer_lines, rebuild_sample,
    rebuild_samples, rebuild_side, replacements_in, scheduled_in, sequence_line, sequence_lines,
    sequence_section, slot_section, unknown_causes_in, unknown_winners_in, with_list, with_names,
    with_range, with_slots, worst_of, MAX_DUPLICATE_SAMPLES,
};
use crate::report::{at_most, groups_of, long_numbers_in, with_numbers, with_schedule};
use crate::report_laws::{
    all_stays, figure_behind_1, figure_behind_3, holds_all, in_percent, line_of_1, line_of_2,
    line_of_3, line_of_4, line_of_5, line_of_6, line_of_7, numbers_are_added, part_of, plain, says,
    schedule_is_added, shows, text_is_said,
};
use crate::search::{sort_order, sort_order_is_stable};
use crate::selection::{picked, picked_selects, selection_counts, selection_is_unique, selects};
use crate::text::{decimal, signed_decimal};
use crate::time::{clock_text, elapsed};
use crate::types::{
    CollatorStatsView, DuplicateBlockOnSameRPView, DuplicateProducerView, MultiCollatorAnalysisView,
    OnChainBlockInfoView, OnChainWinner, ParaCandidateEventView, RebuildCause, RebuildEventView,
    SlotBoundaryAnalysisView, SlotBoundaryDetailView,
};
use vstd::prelude::*;

verus! {

/// A boundary as it is told: the two slots, each with its collator, the gap, the overlap and the two
/// relay parents.
pub open spec fn boundary_words(b: SlotBoundaryDetailView) -> Seq<char> {
    "- Slot "@ + decimal(b.outgoing_slot as nat) + " ("@ + b.outgoing_collator + ") → "@ + decimal(
        b.incoming_slot as nat,
    ) + " ("@ + b.incoming_collator + "): gap **"@ + signed_decimal(b.propagation_gap_ms as int)
        + "ms**, overlap **"@ + decimal(b.overlap_count as nat) + " blocks**, RP #"@ + decimal(
        b.outgoing_rp as nat,
    ) + " → #"@ + decimal(b.incoming_rp as nat) + "\n"@
}

/// A boundary is told in that way.
pub proof fn boundary_is_reported(out: ReportView, b: SlotBoundaryDetailView)
    ensures
        holds_all(boundary_line(out, b), out),
        says(boundary_line(out, b), boundary_words(b)),
{
    assert(boundary_line(out, b) =~= out.text(boundary_words(b)));
    text_is_said(out, boundary_words(b));
}

proof fn boundaries_are_added(
    out: ReportView,
    b: Seq<SlotBoundaryDetailView>,
    order: Seq<int>,
    n: nat,
)
    requires
        n <= order.len(),
    ensures
        holds_all(boundary_lines(out, b, order, n), out),
        forall|k: int|
            0 <= k < n ==> says(
                boundary_lines(out, b, order, n),
                boundary_words(b[#[trigger] order[k]]),
            ),
    decreases n,
{
    if n > 0 {
        let m = (n - 1) as nat;
        let before = boundary_lines(out, b, order, m);
        let new = boundary_lines(out, b, order, n);
        boundaries_are_added(out, b, order, m);
        boundary_is_reported(before, b[order[n - 1]]);
        all_stays(out, before, new);
        assert forall|k: int| 0 <= k < n implies says(
            new,
            boundary_words(b[#[trigger] order[k]]),
        ) by {
            if k < m {
                assert(says(before, boundary_words(b[order[k]])));
            }
        }
    }
}

/// The boundaries told are those with an overlap, each once, the most overlap first and, with as much
/// overlap, the lesser gap first.
pub proof fn worst_boundaries_come_first(b: Seq<SlotBoundaryDetailView>)
    ensures
        forall|i: int|
            worst_of(b).contains(i) <==> 0 <= i < b.len() && (#[trigger] b[i]).overlap_count > 0,
        forall|x: int, y: int|
            0 <= x < y < worst_of(b).len() ==> {
                let (p, q) = (b[#[trigger] worst_of(b)[x]], b[#[trigger] worst_of(b)[y]]);
                p.overlap_count > q.overlap_count || (p.overlap_count == q.overlap_count
                    && p.propagation_gap_ms <= q.propagation_gap_ms)
            },
{
    let keys = badness_of(b);
    let order = sort_order(keys);
    sort_order_is_stable(keys);
    let w = worst_of(b);
    worst_are_picked(b, order, b.len());
    assert(order.len() == b.len());
    assert forall|i: int|
        w.contains(i) <==> 0 <= i < b.len() && (#[trigger] b[i]).overlap_count > 0 by {
        if 0 <= i < b.len() && b[i].overlap_count > 0 {
            assert(order.contains(i));
            let k = choose|k: int| 0 <= k < order.len() && order[k] == i;
            assert(w.contains(order[k]));
        }
        if w.contains(i) {
            let k = choose|k: int| 0 <= k < w.len() && w[k] == i;
            assert(b[w[k]].overlap_count > 0);
            assert(0 <= w[k] < b.len());
        }
    }
    assert forall|x: int, y: int| 0 <= x < y < w.len() implies {
        let (p, q) = (b[#[trigger] w[x]], b[#[trigger] w[y]]);
        p.overlap_count > q.overlap_count || (p.overlap_count == q.overlap_count
            && p.propagation_gap_ms <= q.propagation_gap_ms)
    } by {
        assert(keys[w[x]] <= keys[w[y]]);
        badness_orders(b[w[y]], b[w[x]]);
        assert(badness(b[w[x]]) <= badness(b[w[y]]));
    }
}

proof fn worst_are_picked(b: Seq<SlotBoundaryDetailView>, order: Seq<int>, n: nat)
    requires
        n <= order.len(),
        order.len() == b.len(),
        forall|k: int| 0 <= k < order.len() ==> 0 <= #[trigger] order[k] < b.len(),
        forall|x: int, y: int|
            0 <= x < y < order.len() ==> badness_of(b)[#[trigger] order[x]] <= badness_of(
                b,
            )[#[trigger] order[y]],
    ensures
        ({
            let w = overlapping_in(b, order, n);
            &&& forall|k: int|
                0 <= k < w.len() ==> 0 <= #[trigger] w[k] < b.len() && b[w[k]].overlap_count > 0
                    && exists|x: int| 0 <= x < n && #[trigger] order[x] == w[k]
            &&& forall|k: int|
                0 <= k < n && b[#[trigger] order[k]].overlap_count > 0 ==> w.contains(order[k])
            &&& forall|x: int, y: int|
                0 <= x < y < w.len() ==> badness_of(b)[#[trigger] w[x]] <= badness_of(
                    b,
                )[#[trigger] w[y]]
        }),
    decreases n,
{
    if n > 0 {
        let m = (n - 1) as nat;
        worst_are_picked(b, order, m);
        let before = overlapping_in(b, order, m);
        let w = overlapping_in(b, order, n);
        assert forall|k: int| 0 <= k < n
            && b[#[trigger] order[k]].overlap_count > 0 implies w.contains(
            order[k],
        ) by {
            if k < m {
                assert(before.contains(order[k]));
                let j = choose|j: int| 0 <= j < before.len() && before[j] == order[k];
                assert(w[j] == order[k]);
            } else {
                assert(w[w.len() - 1] == order[k]);
            }
        }
        assert forall|k: int| 0 <= k < w.len() implies 0 <= #[trigger] w[k] < b.len()
            && b[w[k]].overlap_count > 0 && exists|x: int|
            0 <= x < n && #[trigger] order[x] == w[k] by {
            if k < before.len() {
                assert(w[k] == before[k]);
                let x = choose|x: int| 0 <= x < m && #[trigger] order[x] == before[k];
                assert(0 <= x < n && order[x] == w[k]);
            } else {
                assert(order[n - 1] == w[k]);
            }
        }
        assert forall|x: int, y: int| 0 <= x < y < w.len() implies badness_of(b)[#[trigger] w[x]]
            <= badness_of(b)[#[trigger] w[y]] by {
            assert(w[x] == before[x]);
            if y < before.len() {
                assert(w[y] == before[y]);
            } else {
                let k = choose|k: int| 0 <= k < m && #[trigger] order[k] == before[x];
                assert(badness_of(b)[order[k]] <= badness_of(b)[order[n - 1]]);
            }
        }
    }
}

/// The section on slot boundaries names, each behind its own label, how many there are, how many with
/// and without overlap and what shares these are, the average, the middle, the least and the greatest
/// gap, the average and the greatest overlap where there is any, and the gaps between relay parents
/// where there are any.
pub proof fn slot_boundaries_are_reported(out: ReportView, a: SlotBoundaryAnalysisView, max: usize)
    requires
        a.boundaries.len() > 0,
    ensures
        ({
            let new = slot_section(out, a, max);
            &&& holds_all(new, out)
            &&& says(new, "| Total slot boundaries | "@ + decimal(a.boundaries.len()) + " |\n"@)
            &&& shows(
                new,
                "| Boundaries with overlap | **"@ + decimal(a.boundaries_with_overlap as nat)
                    + "** ("@,
                in_percent(part_of(a.boundaries_with_overlap as nat, a.boundaries.len()), 0),
            )
            &&& shows(
                new,
                "| Boundaries without overlap | "@ + decimal(a.boundaries_without_overlap as nat)
                    + " ("@,
                in_percent(part_of(a.boundaries_without_overlap as nat, a.boundaries.len()), 0),
            )
            &&& shows(new, "| Propagation gap (avg) | **"@, plain(a.avg_propagation_gap_ms, 0))
            &&& says(
                new,
                "| Propagation gap (median) | **"@
                    + signed_decimal(a.median_propagation_gap_ms as int) + "ms** |\n"@,
            )
            &&& says(
                new,
                "| Propagation gap (min / max) | "@
                    + signed_decimal(a.min_propagation_gap_ms as int) + "ms / "@
                    + signed_decimal(a.max_propagation_gap_ms as int) + "ms |\n"@,
            )
            &&& a.boundaries_with_overlap > 0 ==> shows(
                new,
                "| Avg overlap per boundary (when overlapping) | **"@,
                plain(a.avg_overlap_count, 1),
            )
            &&& a.boundaries_with_overlap > 0 ==> says(
                new,
                "| Max overlap at a single boundary | **"@ + decimal(a.max_overlap_count as nat)
                    + " blocks** |\n"@,
            )
            &&& (a.relay_parent_gaps > 0) ==> shows(
                new,
                "| Relay parent gaps > 1 block | **"@ + decimal(a.relay_parent_gaps as nat)
                    + "** ("@,
                in_percent(part_of(a.relay_parent_gaps as nat, a.boundaries.len()), 0),
            )
            &&& forall|k: int|
                0 <= k < worst_of(a.boundaries).len() && k < max ==> says(
                    new,
                    boundary_words(a.boundaries[#[trigger] worst_of(a.boundaries)[k]]),
                )
        }),
{
    let o0 = out;
    let o1 = o0.text("### Slot Boundary Propagation Analysis\n\n"@);
    line_of_1(o0, "### Slot Boundary Propagation Analysis\n\n"@);
    let o2 = o1.text(
        "Measures the time gap between the outgoing collator sealing its last block and the incoming collator starting to build. Negative = overlap (incoming started before outgoing's block was propagated).\n\n"@
    );
    line_of_1(
        o1,
        "Measures the time gap between the outgoing collator sealing its last block and the incoming collator starting to build. Negative = overlap (incoming started before outgoing's block was propagated).\n\n"@,
    );
    let o3 = o2.text("| Metric | Value |\n"@);
    line_of_1(o2, "| Metric | Value |\n"@);
    let o4 = o3.text("|---|---|\n"@);
    line_of_1(o3, "|---|---|\n"@);
    let o5 = o4.text("| Total slot boundaries | "@).number(a.boundaries.len()).text(" |\n"@);
    line_of_3(o4, "| Total slot boundaries | "@, decimal(a.boundaries.len()), " |\n"@);
    let o6 = o5
        .text("| Boundaries with overlap | **"@)
        .number(a.boundaries_with_overlap as nat)
        .text("** ("@)
        .percent(part_of(a.boundaries_with_overlap as nat, a.boundaries.len()), 0)
        .text("%) |\n"@);
    figure_behind_3(
        o5,
        "| Boundaries with overlap | **"@,
        decimal(a.boundaries_with_overlap as nat),
        "** ("@,
        in_percent(part_of(a.boundaries_with_overlap as nat, a.boundaries.len()), 0),
        "%) |\n"@,
    );
    let o7 = o6
        .text("| Boundaries without overlap | "@)
        .number(a.boundaries_without_overlap as nat)
        .text(" ("@)
        .percent(part_of(a.boundaries_without_overlap as nat, a.boundaries.len()), 0)
        .text("%) |\n"@);
    figure_behind_3(
        o6,
        "| Boundaries without overlap | "@,
        decimal(a.boundaries_without_overlap as nat),
        " ("@,
        in_percent(part_of(a.boundaries_without_overlap as nat, a.boundaries.len()), 0),
        "%) |\n"@,
    );
    let o8 = o7
        .text("| Propagation gap (avg) | **"@)
        .quotient(a.avg_propagation_gap_ms, 0)
        .text("ms** |\n"@);
    figure_behind_1(
        o7,
        "| Propagation gap (avg) | **"@,
        plain(a.avg_propagation_gap_ms, 0),
        "ms** |\n"@,
    );
    let o9 = o8
        .text("| Propagation gap (median) | **"@)
        .signed(a.median_propagation_gap_ms as int)
        .text("ms** |\n"@);
    line_of_3(
        o8,
        "| Propagation gap (median) | **"@,
        signed_decimal(a.median_propagation_gap_ms as int),
        "ms** |\n"@,
    );
    let o10 = o9
        .text("| Propagation gap (min / max) | "@)
        .signed(a.min_propagation_gap_ms as int)
        .text("ms / "@)
        .signed(a.max_propagation_gap_ms as int)
        .text("ms |\n"@);
    line_of_5(
        o9,
        "| Propagation gap (min / max) | "@,
        signed_decimal(a.min_propagation_gap_ms as int),
        "ms / "@,
        signed_decimal(a.max_propagation_gap_ms as int),
        "ms |\n"@,
    );
    let o11 = if a.boundaries_with_overlap > 0 {
        o10
            .text("| Avg overlap per boundary (when overlapping) | **"@)
            .quotient(a.avg_overlap_count, 1)
            .text(" blocks** |\n"@)
            .text("| Max overlap at a single boundary | **"@)
            .number(a.max_overlap_count as nat)
            .text(" blocks** |\n"@)
    } else {
        o10
    };
    if a.boundaries_with_overlap > 0 {
        let x = o10
            .text("| Avg overlap per boundary (when overlapping) | **"@)
            .quotient(a.avg_overlap_count, 1)
            .text(" blocks** |\n"@);
        figure_behind_1(
            o10,
            "| Avg overlap per boundary (when overlapping) | **"@,
            plain(a.avg_overlap_count, 1),
            " blocks** |\n"@,
        );
        line_of_3(
            x,
            "| Max overlap at a single boundary | **"@,
            decimal(a.max_overlap_count as nat),
            " blocks** |\n"@,
        );
        all_stays(o10, x, o11);
        assert(
            shows(
                o11,
                "| Avg overlap per boundary (when overlapping) | **"@,
                plain(a.avg_overlap_count, 1),
            )
        );
    }
    assert(holds_all(o11, o10));
    let o12 = if a.relay_parent_gaps > 0 {
        o11
            .text("| Relay parent gaps > 1 block | **"@)
            .number(a.relay_parent_gaps as nat)
            .text("** ("@)
            .percent(part_of(a.relay_parent_gaps as nat, a.boundaries.len()), 0)
            .text("%) — possible relay chain forks |\n"@)
    } else {
        o11
    };
    if a.relay_parent_gaps > 0 {
        figure_behind_3(
            o11,
            "| Relay parent gaps > 1 block | **"@,
            decimal(a.relay_parent_gaps as nat),
            "** ("@,
            in_percent(part_of(a.relay_parent_gaps as nat, a.boundaries.len()), 0),
            "%) — possible relay chain forks |\n"@,
        );
        assert(o12 == o11
            .text("| Relay parent gaps > 1 block | **"@)
            .number(a.relay_parent_gaps as nat)
            .text("** ("@)
            .percent(part_of(a.relay_parent_gaps as nat, a.boundaries.len()), 0)
            .text("%) — possible relay chain forks |\n"@));
    }
    assert(holds_all(o12, o11));
    let o13 = o12.text("\n"@);
    line_of_1(o12, "\n"@);
    let o14 = if at_most(worst_of(a.boundaries).len(), max) > 0 {
        boundary_lines(
            o13.text("#### Worst overlap boundaries\n\n"@),
            a.boundaries,
            worst_of(a.boundaries),
            at_most(worst_of(a.boundaries).len(), max),
        ).text("\n"@)
    } else {
        o13
    };
    if at_most(worst_of(a.boundaries).len(), max) > 0 {
        let shown = at_most(worst_of(a.boundaries).len(), max);
        let x = o13.text("#### Worst overlap boundaries\n\n"@);
        let y = boundary_lines(x, a.boundaries, worst_of(a.boundaries), shown);
        line_of_1(o13, "#### Worst overlap boundaries\n\n"@);
        boundaries_are_added(x, a.boundaries, worst_of(a.boundaries), shown);
        line_of_1(y, "\n"@);
        all_stays(o13, x, y);
        all_stays(o13, y, o14);
    }
    assert(holds_all(o14, o13));
    assert(slot_section(out, a, max) == o14);
    all_stays(o0, o1, o2);
    all_stays(o0, o2, o3);
    all_stays(o0, o3, o4);
    all_stays(o0, o4, o5);
    all_stays(o0, o5, o6);
    all_stays(o0, o6, o7);
    all_stays(o0, o7, o8);
    all_stays(o0, o8, o9);
    all_stays(o0, o9, o10);
    all_stays(o0, o10, o11);
    all_stays(o0, o11, o12);
    all_stays(o0, o12, o13);
    all_stays(o0, o13, o14);
}

/// What is told first of a relay block between two relay parents: its number and its hash.
pub open spec fn block_words(info: OnChainBlockInfoView) -> Seq<char> {
    "  - [#"@ + decimal(info.block_number as nat)
        + "](https://polkadot.js.org/apps/?rpc=wss%3A%2F%2Frpc.polkadot.io#/explorer/query/"@
        + full_text(info.block_hash) + ") ("@ + truncated_text(info.block_hash) + "): "@
}

/// A candidate as it is told: the number in its head, and the hash of the head with its middle left
/// out.
pub open spec fn candidate_words(head: Seq<u8>, number: u32) -> Seq<char> {
    "#"@ + decimal(number as nat) + " "@ + truncated_text(blake2b_256(head))
}

proof fn candidates_are_decoded(c: Seq<ParaCandidateEventView>, n: nat)
    requires
        n <= c.len(),
    ensures
        decoded(c, n).len() <= n,
        forall|i: int|
            0 <= i < n && (#[trigger] c[i]).para_head_data is Some && para_number(
                c[i].para_head_data->0,
            ) is Some ==> decoded(c, n).contains(
                (
                    para_number(c[i].para_head_data->0)->0,
                    truncated_text(blake2b_256(c[i].para_head_data->0)),
                ),
            ),
    decreases n,
{
    if n > 0 {
        let m = (n - 1) as nat;
        candidates_are_decoded(c, m);
        let before = decoded(c, m);
        let new = decoded(c, n);
        assert forall|i: int|
            0 <= i < n && (#[trigger] c[i]).para_head_data is Some && para_number(
                c[i].para_head_data->0,
            ) is Some implies new.contains(
            (
                para_number(c[i].para_head_data->0)->0,
                truncated_text(blake2b_256(c[i].para_head_data->0)),
            ),
        ) by {
            let e = (
                para_number(c[i].para_head_data->0)->0,
                truncated_text(blake2b_256(c[i].para_head_data->0)),
            );
            if i < m {
                assert(before.contains(e));
                let k = choose|k: int| 0 <= k < before.len() && before[k] == e;
                assert(new[k] == e);
            } else {
                assert(new[new.len() - 1] == e);
            }
        }
    }
}

proof fn list_is_added(out: ReportView, list: Seq<(u32, Seq<char>)>, n: nat)
    requires
        n <= list.len(),
    ensures
        holds_all(with_list(out, list, n), out),
        forall|k: int|
            0 <= k < n ==> says(
                with_list(out, list, n),
                "#"@ + decimal((#[trigger] list[k]).0 as nat) + " "@ + list[k].1,
            ),
    decreases n,
{
    if n > 0 {
        let m = (n - 1) as nat;
        let before = with_list(out, list, m);
        let comma = if n > 1 {
            before.text(", "@)
        } else {
            before
        };
        let new = with_list(out, list, n);
        list_is_added(out, list, m);
        line_of_1(before, ", "@);
        assert(holds_all(comma, before));
        line_of_4(comma, "#"@, decimal(list[n - 1].0 as nat), " "@, list[n - 1].1);
        all_stays(out, before, comma);
        all_stays(out, comma, new);
        all_stays(before, comma, new);
        assert forall|k: int| 0 <= k < n implies says(
            new,
            "#"@ + decimal((#[trigger] list[k]).0 as nat) + " "@ + list[k].1,
        ) by {
            if k < m {
                assert(says(before, "#"@ + decimal(list[k].0 as nat) + " "@ + list[k].1));
            }
        }
    }
}

proof fn list_line_is_added(out: ReportView, heading: Seq<char>, list: Seq<(u32, Seq<char>)>)
    ensures
        holds_all(list_line(out, heading, list), out),
        list.len() > 0 ==> says(list_line(out, heading, list), heading),
        forall|k: int|
            0 <= k < list.len() ==> says(
                list_line(out, heading, list),
                "#"@ + decimal((#[trigger] list[k]).0 as nat) + " "@ + list[k].1,
            ),
{
    if list.len() > 0 {
        let x = out.text(heading);
        let y = with_list(x, list, list.len());
        line_of_1(out, heading);
        list_is_added(x, list, list.len());
        line_of_1(y, "\n"@);
        all_stays(out, x, y);
        all_stays(out, y, list_line(out, heading, list));
        all_stays(x, y, list_line(out, heading, list));
    }
}

proof fn range_is_added(out: ReportView, words: Seq<char>, list: Seq<(u32, Seq<char>)>, count: nat)
    ensures
        holds_all(with_range(out.text(words), list, count), out),
        says(with_range(out.text(words), list, count), words + decimal(count)),
{
    let x = out.text(words).number(count);
    line_of_2(out, words, decimal(count));
    let new = with_range(out.text(words), list, count);
    let number = |i: int| list[i].0 as int;
    match (
        crate::search::least_of(list.len(), number),
        crate::search::greatest_of(list.len(), number),
    ) {
        (Some(min), Some(max)) => {
            line_of_3(x, " (#"@, decimal(min as nat), ")"@);
            line_of_5(x, " ("@, decimal(min as nat), "–"@, decimal(max as nat), ")"@);
        },
        _ => {},
    }
    assert(holds_all(new, x));
    all_stays(out, x, new);
}

/// The numbers of candidates that can be read are told by the lowest and the highest, or by the one
/// where these are the same.
pub proof fn range_is_reported(
    out: ReportView,
    list: Seq<(u32, Seq<char>)>,
    count: nat,
    lo: u32,
    hi: u32,
)
    requires
        exists|i: int| 0 <= i < list.len() && (#[trigger] list[i]).0 == lo,
        exists|i: int| 0 <= i < list.len() && (#[trigger] list[i]).0 == hi,
        forall|i: int| 0 <= i < list.len() ==> lo <= (#[trigger] list[i]).0 <= hi,
    ensures
        says(
            with_range(out, list, count),
            if lo == hi {
                decimal(count) + " (#"@ + decimal(lo as nat) + ")"@
            } else {
                decimal(count) + " ("@ + decimal(lo as nat) + "–"@ + decimal(hi as nat) + ")"@
            },
        ),
{
    let number = |i: int| list[i].0 as int;
    let n = list.len();
    crate::search::least_of_is_least(n, number);
    crate::search::greatest_of_is_greatest(n, number);
    let a = choose|i: int| 0 <= i < n && (#[trigger] list[i]).0 == lo;
    let b = choose|i: int| 0 <= i < n && (#[trigger] list[i]).0 == hi;
    assert(number(a) == lo && number(b) == hi);
    let x = choose|i: int|
        0 <= i < n && #[trigger] number(i) == crate::search::least_of(n, number)->0;
    let y = choose|i: int|
        0 <= i < n && #[trigger] number(i) == crate::search::greatest_of(n, number)->0;
    assert(lo <= list[x].0 <= hi && lo <= list[y].0 <= hi);
    line_of_4(out, decimal(count), " (#"@, decimal(lo as nat), ")"@);
    line_of_6(out, decimal(count), " ("@, decimal(lo as nat), "–"@, decimal(hi as nat), ")"@);
}

/// A relay block between two relay parents is told with its number and hash, how many candidates it
/// backs and how many it includes, and the number and hash of each that can be read.
pub proof fn block_is_reported(out: ReportView, info: OnChainBlockInfoView)
    ensures
        ({
            let new = sequence_line(out, info);
            let b = info.backed_para_candidates;
            let c = info.included_para_candidates;
            &&& holds_all(new, out)
            &&& says(new, block_words(info))
            &&& b.len() == 0 ==> says(new, "no backed candidates for our para"@)
            &&& b.len() > 0 ==> says(new, "backs "@ + decimal(b.len()))
            &&& c.len() > 0 ==> says(new, ", includes "@ + decimal(c.len()))
            &&& forall|i: int, number: u32|
                0 <= i < c.len() && (#[trigger] c[i]).para_head_data is Some && para_number(
                    c[i].para_head_data->0,
                ) == Some(number) ==> says(
                    new,
                    #[trigger] candidate_words(c[i].para_head_data->0, number),
                )
            &&& forall|i: int, number: u32|
                0 <= i < b.len() && (#[trigger] b[i]).para_head_data is Some && para_number(
                    b[i].para_head_data->0,
                ) == Some(number) ==> says(
                    new,
                    #[trigger] candidate_words(b[i].para_head_data->0, number),
                )
        }),
{
    let b = info.backed_para_candidates;
    let c = info.included_para_candidates;
    let backed = decoded(b, b.len());
    let included = decoded(c, c.len());
    let new = sequence_line(out, info);
    let url = "](https://polkadot.js.org/apps/?rpc=wss%3A%2F%2Frpc.polkadot.io#/explorer/query/"@;
    let o1 = out.text("  - [#"@).number(info.block_number as nat).text(url).text(
        full_text(info.block_hash),
    ).text(") ("@).text(truncated_text(info.block_hash)).text("): "@);
    line_of_7(
        out,
        "  - [#"@,
        decimal(info.block_number as nat),
        url,
        full_text(info.block_hash),
        ") ("@,
        truncated_text(info.block_hash),
        "): "@,
    );
    let groups = groups_of(b);
    let x = with_range(o1.text("backs "@), backed, b.len());
    let y = x.text(" [group(s) "@);
    let z = with_numbers(y, long_numbers_in(groups), groups.len());
    let o2 = if b.len() == 0 {
        o1.text("no backed candidates for our para"@)
    } else if groups.len() > 0 {
        z.text("]"@)
    } else {
        x
    };
    if b.len() == 0 {
        line_of_1(o1, "no backed candidates for our para"@);
    } else {
        range_is_added(o1, "backs "@, backed, b.len());
        if groups.len() > 0 {
            line_of_1(x, " [group(s) "@);
            numbers_are_added(y, long_numbers_in(groups), groups.len());
            line_of_1(z, "]"@);
            all_stays(x, y, z);
            all_stays(x, z, o2);
        }
        all_stays(o1, x, o2);
    }
    let o3 = if c.len() > 0 {
        with_range(o2.text(", includes "@), included, c.len())
    } else {
        o2
    };
    range_is_added(o2, ", includes "@, included, c.len());
    assert(holds_all(o3, o2));
    let o4 = with_schedule(o3, info.claim_queue_cores);
    schedule_is_added(o3, info.claim_queue_cores);
    let o5 = o4.text("\n"@);
    line_of_1(o4, "\n"@);
    let o6 = list_line(o5, "    - backed "@, backed);
    list_line_is_added(o5, "    - backed "@, backed);
    let o7 = list_line(o6, "    - included "@, included);
    list_line_is_added(o6, "    - included "@, included);
    assert(new == o7);
    all_stays(o1, o2, o3);
    all_stays(o2, o3, o4);
    all_stays(o1, o3, o4);
    all_stays(o2, o4, o5);
    all_stays(o3, o4, o5);
    all_stays(o1, o4, o5);
    all_stays(o5, o6, o7);
    all_stays(o1, o5, o7);
    all_stays(o2, o5, o7);
    all_stays(o3, o5, o7);
    all_stays(out, o1, o7);
    candidates_are_decoded(b, b.len());
    candidates_are_decoded(c, c.len());
    assert forall|i: int, number: u32|
        0 <= i < c.len() && (#[trigger] c[i]).para_head_data is Some && para_number(
            c[i].para_head_data->0,
        ) == Some(number) implies says(
        new,
        #[trigger] candidate_words(c[i].para_head_data->0, number),
    ) by {
        let e = (number, truncated_text(blake2b_256(c[i].para_head_data->0)));
        assert(included.contains(e));
        let k = choose|k: int| 0 <= k < included.len() && included[k] == e;
        assert(says(o7, "#"@ + decimal(included[k].0 as nat) + " "@ + included[k].1));
    }
    assert forall|i: int, number: u32|
        0 <= i < b.len() && (#[trigger] b[i]).para_head_data is Some && para_number(
            b[i].para_head_data->0,
        ) == Some(number) implies says(
        new,
        #[trigger] candidate_words(b[i].para_head_data->0, number),
    ) by {
        let e = (number, truncated_text(blake2b_256(b[i].para_head_data->0)));
        assert(backed.contains(e));
        let k = choose|k: int| 0 <= k < backed.len() && backed[k] == e;
        assert(says(o6, "#"@ + decimal(backed[k].0 as nat) + " "@ + backed[k].1));
    }
}

proof fn blocks_are_added(out: ReportView, blocks: Seq<OnChainBlockInfoView>, n: nat)
    requires
        n <= blocks.len(),
    ensures
        holds_all(sequence_lines(out, blocks, n), out),
        forall|i: int|
            0 <= i < n ==> says(sequence_lines(out, blocks, n), #[trigger] block_words(blocks[i])),
    decreases n,
{
    if n > 0 {
        let m = (n - 1) as nat;
        let before = sequence_lines(out, blocks, m);
        let new = sequence_lines(out, blocks, n);
        blocks_are_added(out, blocks, m);
        block_is_reported(before, blocks[n - 1]);
        all_stays(out, before, new);
        assert forall|i: int| 0 <= i < n implies says(new, #[trigger] block_words(blocks[i])) by {
            if i < m {
                assert(says(before, block_words(blocks[i])));
            }
        }
    }
}

/// The relay blocks between two relay parents are told one by one; where the parachain was not
/// scheduled in all of them, in how many it was and in how many it was not.
pub proof fn sequence_is_reported(out: ReportView, blocks: Seq<OnChainBlockInfoView>)
    ensures
        ({
            let new = sequence_section(out, blocks);
            let scheduled = scheduled_in(blocks);
            &&& holds_all(new, out)
            &&& forall|i: int|
                0 <= i < blocks.len() ==> says(new, #[trigger] block_words(blocks[i]))
            &&& scheduled < blocks.len() ==> says(
                new,
                "- Scheduling: para was scheduled in "@ + decimal(scheduled) + "/"@ + decimal(
                    blocks.len(),
                ) + " relay blocks in this range ("@ + decimal((blocks.len() - scheduled) as nat)
                    + " unscheduled)\n"@,
            )
        }),
{
    let x = out.text("- Relay chain block sequence:\n"@);
    let y = sequence_lines(x, blocks, blocks.len());
    let new = sequence_section(out, blocks);
    let scheduled = scheduled_in(blocks);
    line_of_1(out, "- Relay chain block sequence:\n"@);
    blocks_are_added(x, blocks, blocks.len());
    if scheduled < blocks.len() {
        line_of_7(
            y,
            "- Scheduling: para was scheduled in "@,
            decimal(scheduled),
            "/"@,
            decimal(blocks.len()),
            " relay blocks in this range ("@,
            decimal((blocks.len() - scheduled) as nat),
            " unscheduled)\n"@,
        );
    }
    assert(holds_all(new, y));
    all_stays(out, x, y);
    all_stays(out, y, new);
}

/// As many relay blocks have the parachain scheduled as there are with a core for it.
pub proof fn scheduled_blocks_are_counted(blocks: Seq<OnChainBlockInfoView>, at: Seq<int>)
    requires
        selects(at, blocks.len(), |i: int| blocks[i].claim_queue_cores.len() > 0),
    ensures
        scheduled_in(blocks) == at.len(),
{
    let ok = |i: int| blocks[i].claim_queue_cores.len() > 0;
    selection_is_counted(blocks.len(), ok, at);
}

proof fn selection_is_counted(n: nat, ok: spec_fn(int) -> bool, at: Seq<int>)
    requires
        selects(at, n, ok),
    ensures
        crate::search::count_where(n, ok) == at.len(),
{
    picked_selects(n, ok);
    selection_counts(n, ok);
    selection_is_unique(at, picked(n, ok), n, ok);
}

/// The rebuilds of each cause and of each outcome are counted: as many as there are of it.
pub proof fn rebuilds_are_counted(r: Seq<RebuildEventView>, at: Seq<int>)
    ensures
        selects(at, r.len(), |i: int| r[i].cause is SlotBoundaryOverlap) ==> overlaps_in(r)
            == at.len(),
        selects(at, r.len(), |i: int| r[i].cause is NewerRelayParent) ==> newer_rps_in(r)
            == at.len(),
        selects(at, r.len(), |i: int| r[i].cause is Unknown) ==> unknown_causes_in(r) == at.len(),
        selects(at, r.len(), |i: int| r[i].on_chain_winner is OriginalBest) ==> originals_in(r)
            == at.len(),
        selects(at, r.len(), |i: int| r[i].on_chain_winner is Replacement) ==> replacements_in(r)
            == at.len(),
        selects(at, r.len(), |i: int| r[i].on_chain_winner is Unknown) ==> unknown_winners_in(r)
            == at.len(),
{
    let a = |i: int| r[i].cause is SlotBoundaryOverlap;
    let b = |i: int| r[i].cause is NewerRelayParent;
    let c = |i: int| r[i].cause is Unknown;
    let d = |i: int| r[i].on_chain_winner is OriginalBest;
    let e = |i: int| r[i].on_chain_winner is Replacement;
    let f = |i: int| r[i].on_chain_winner is Unknown;
    if selects(at, r.len(), a) {
        selection_is_counted(r.len(), a, at);
    }
    if selects(at, r.len(), b) {
        selection_is_counted(r.len(), b, at);
    }
    if selects(at, r.len(), c) {
        selection_is_counted(r.len(), c, at);
    }
    if selects(at, r.len(), d) {
        selection_is_counted(r.len(), d, at);
    }
    if selects(at, r.len(), e) {
        selection_is_counted(r.len(), e, at);
    }
    if selects(at, r.len(), f) {
        selection_is_counted(r.len(), f, at);
    }
}

/// One of the two blocks of a rebuild as it is told: its hash, the collator that built it and when,
/// and the relay parent and slot where they are known.
pub open spec fn side_words(
    heading: Seq<char>,
    hash: Seq<char>,
    collator: Option<Seq<char>>,
    time: int,
    rp: Option<u32>,
    slot: Option<u64>,
) -> Seq<char> {
    let by = match collator {
        Some(name) => name,
        None => "unknown"@,
    };
    let on = match rp {
        Some(rp) => " on RP #"@ + decimal(rp as nat),
        None => Seq::empty(),
    };
    let in_slot = match slot {
        Some(slot) => " slot "@ + decimal(slot as nat),
        None => Seq::empty(),
    };
    heading + short_text(hash) + " (built by "@ + by + " at "@ + clock_text(time) + on + in_slot
        + ")\n"@
}

/// One of the two blocks of a rebuild is told in that way.
pub proof fn side_is_reported(
    out: ReportView,
    heading: Seq<char>,
    hash: Seq<char>,
    collator: Option<Seq<char>>,
    time: int,
    rp: Option<u32>,
    slot: Option<u64>,
)
    ensures
        ({
            let new = rebuild_side(out, heading, hash, collator, time, rp, slot);
            &&& holds_all(new, out)
            &&& says(new, side_words(heading, hash, collator, time, rp, slot))
        }),
{
    let words = side_words(heading, hash, collator, time, rp, slot);
    assert(rebuild_side(out, heading, hash, collator, time, rp, slot) =~= out.text(words));
    text_is_said(out, words);
}

/// The causes of rebuilds are told with how many rebuilds have each, and what share of all that is.
pub proof fn causes_are_reported(out: ReportView, r: Seq<RebuildEventView>)
    ensures
        ({
            let new = causes_section(out, r);
            &&& holds_all(new, out)
            &&& says(new, "### Rebuild Breakdown ("@ + decimal(r.len()) + " total)\n\n"@)
            &&& (overlaps_in(r) > 0) ==> shows(
                new,
                "- Slot boundary overlap: **"@ + decimal(overlaps_in(r)) + "** ("@,
                in_percent(part_of(overlaps_in(r), r.len()), 0),
            )
            &&& (newer_rps_in(r) > 0) ==> shows(
                new,
                "- Rebuilt on newer relay parent: **"@ + decimal(newer_rps_in(r)) + "** ("@,
                in_percent(part_of(newer_rps_in(r), r.len()), 0),
            )
            &&& (unknown_causes_in(r) > 0) ==> shows(
                new,
                "- Unknown: **"@ + decimal(unknown_causes_in(r)) + "** ("@,
                in_percent(part_of(unknown_causes_in(r), r.len()), 0),
            )
        }),
{
    let o0 = out;
    let o1 = o0.text("### Rebuild Breakdown ("@).number(r.len()).text(" total)\n\n"@);
    line_of_3(o0, "### Rebuild Breakdown ("@, decimal(r.len()), " total)\n\n"@);
    let o2 = if overlaps_in(r) > 0 {
        o1
            .text("- Slot boundary overlap: **"@)
            .number(overlaps_in(r))
            .text("** ("@)
            .percent(part_of(overlaps_in(r), r.len()), 0)
            .text("%) — incoming collator started before outgoing collator's block propagated\n"@)
    } else {
        o1
    };
    if overlaps_in(r) > 0 {
        figure_behind_3(
            o1,
            "- Slot boundary overlap: **"@,
            decimal(overlaps_in(r)),
            "** ("@,
            in_percent(part_of(overlaps_in(r), r.len()), 0),
            "%) — incoming collator started before outgoing collator's block propagated\n"@,
        );
        assert(o2 == o1
            .text("- Slot boundary overlap: **"@)
            .number(overlaps_in(r))
            .text("** ("@)
            .percent(part_of(overlaps_in(r), r.len()), 0)
            .text("%) — incoming collator started before outgoing collator's block propagated\n"@));
    }
    assert(holds_all(o2, o1));
    let o3 = if newer_rps_in(r) > 0 {
        o2
            .text("- Rebuilt on newer relay parent: **"@)
            .number(newer_rps_in(r))
            .text("** ("@)
            .percent(part_of(newer_rps_in(r), r.len()), 0)
            .text("%) — collator rebuilt at same height on a newer RP in a later slot\n"@)
    } else {
        o2
    };
    if newer_rps_in(r) > 0 {
        figure_behind_3(
            o2,
            "- Rebuilt on newer relay parent: **"@,
            decimal(newer_rps_in(r)),
            "** ("@,
            in_percent(part_of(newer_rps_in(r), r.len()), 0),
            "%) — collator rebuilt at same height on a newer RP in a later slot\n"@,
        );
        assert(o3 == o2
            .text("- Rebuilt on newer relay parent: **"@)
            .number(newer_rps_in(r))
            .text("** ("@)
            .percent(part_of(newer_rps_in(r), r.len()), 0)
            .text("%) — collator rebuilt at same height on a newer RP in a later slot\n"@));
    }
    assert(holds_all(o3, o2));
    let o4 = if unknown_causes_in(r) > 0 {
        o3
            .text("- Unknown: **"@)
            .number(unknown_causes_in(r))
            .text("** ("@)
            .percent(part_of(unknown_causes_in(r), r.len()), 0)
            .text("%)\n"@)
    } else {
        o3
    };
    if unknown_causes_in(r) > 0 {
        figure_behind_3(
            o3,
            "- Unknown: **"@,
            decimal(unknown_causes_in(r)),
            "** ("@,
            in_percent(part_of(unknown_causes_in(r), r.len()), 0),
            "%)\n"@,
        );
        assert(o4 == o3
            .text("- Unknown: **"@)
            .number(unknown_causes_in(r))
            .text("** ("@)
            .percent(part_of(unknown_causes_in(r), r.len()), 0)
            .text("%)\n"@));
    }
    assert(holds_all(o4, o3));
    let o5 = o4.text("\n"@);
    line_of_1(o4, "\n"@);
    assert(causes_section(out, r) == o5);
    all_stays(o0, o1, o2);
    all_stays(o0, o2, o3);
    all_stays(o0, o3, o4);
    all_stays(o0, o4, o5);
}

/// What was included after rebuilds is told: how often the original best, how often the replacement,
/// and how often it is not known, each with its share of all rebuilds.
pub proof fn outcomes_are_reported(out: ReportView, r: Seq<RebuildEventView>)
    ensures
        ({
            let new = outcomes_section(out, r);
            &&& holds_all(new, out)
            &&& shows(
                new,
                "| Original best (\u{1f3c6}) won on-chain | "@ + decimal(originals_in(r)) + " | "@,
                in_percent(part_of(originals_in(r), r.len()), 0),
            )
            &&& shows(
                new,
                "| Replacement (\u{1f195}) won on-chain | "@ + decimal(replacements_in(r)) + " | "@,
                in_percent(part_of(replacements_in(r), r.len()), 0),
            )
            &&& (unknown_winners_in(r) > 0) ==> shows(
                new,
                "| Unknown (outside query range) | "@ + decimal(unknown_winners_in(r)) + " | "@,
                in_percent(part_of(unknown_winners_in(r), r.len()), 0),
            )
            &&& (replacements_in(r) > 0) ==> shows(
                new,
                "**"@ + decimal(replacements_in(r)) + "** rebuilds ("@,
                in_percent(part_of(replacements_in(r), r.len()), 0),
            )
        }),
{
    let o0 = out;
    let o1 = o0.text("### On-Chain Inclusion Outcome\n\n"@);
    line_of_1(o0, "### On-Chain Inclusion Outcome\n\n"@);
    let o2 = o1.text("For each rebuild, which block was actually included on-chain?\n\n"@);
    line_of_1(o1, "For each rebuild, which block was actually included on-chain?\n\n"@);
    let o3 = o2.text("| Outcome | Count | % |\n"@);
    line_of_1(o2, "| Outcome | Count | % |\n"@);
    let o4 = o3.text("|---|---|---|\n"@);
    line_of_1(o3, "|---|---|---|\n"@);
    let o5 = o4
        .text("| Original best (\u{1f3c6}) won on-chain | "@)
        .number(originals_in(r))
        .text(" | "@)
        .percent(part_of(originals_in(r), r.len()), 0)
        .text("% |\n"@);
    figure_behind_3(
        o4,
        "| Original best (\u{1f3c6}) won on-chain | "@,
        decimal(originals_in(r)),
        " | "@,
        in_percent(part_of(originals_in(r), r.len()), 0),
        "% |\n"@,
    );
    let o6 = o5
        .text("| Replacement (\u{1f195}) won on-chain | "@)
        .number(replacements_in(r))
        .text(" | "@)
        .percent(part_of(replacements_in(r), r.len()), 0)
        .text("% |\n"@);
    figure_behind_3(
        o5,
        "| Replacement (\u{1f195}) won on-chain | "@,
        decimal(replacements_in(r)),
        " | "@,
        in_percent(part_of(replacements_in(r), r.len()), 0),
        "% |\n"@,
    );
    let o7 = if unknown_winners_in(r) > 0 {
        o6
            .text("| Unknown (outside query range) | "@)
            .number(unknown_winners_in(r))
            .text(" | "@)
            .percent(part_of(unknown_winners_in(r), r.len()), 0)
            .text("% |\n"@)
    } else {
        o6
    };
    if unknown_winners_in(r) > 0 {
        figure_behind_3(
            o6,
            "| Unknown (outside query range) | "@,
            decimal(unknown_winners_in(r)),
            " | "@,
            in_percent(part_of(unknown_winners_in(r), r.len()), 0),
            "% |\n"@,
        );
        assert(o7 == o6
            .text("| Unknown (outside query range) | "@)
            .number(unknown_winners_in(r))
            .text(" | "@)
            .percent(part_of(unknown_winners_in(r), r.len()), 0)
            .text("% |\n"@));
    }
    assert(holds_all(o7, o6));
    let o8 = o7.text("\n"@);
    line_of_1(o7, "\n"@);
    let o9 = if replacements_in(r) > 0 {
        o8
            .text("**"@)
            .number(replacements_in(r))
            .text("** rebuilds ("@)
            .percent(part_of(replacements_in(r), r.len()), 0)
            .text(
                "%) resulted in the replacement block winning on-chain — these are real chain replacements where the later collator's block was backed instead.\n\n"@
            )
    } else {
        o8
    };
    if replacements_in(r) > 0 {
        figure_behind_3(
            o8,
            "**"@,
            decimal(replacements_in(r)),
            "** rebuilds ("@,
            in_percent(part_of(replacements_in(r), r.len()), 0),
            "%) resulted in the replacement block winning on-chain — these are real chain replacements where the later collator's block was backed instead.\n\n"@,
        );
        assert(o9 == o8
            .text("**"@)
            .number(replacements_in(r))
            .text("** rebuilds ("@)
            .percent(part_of(replacements_in(r), r.len()), 0)
            .text(
                "%) resulted in the replacement block winning on-chain — these are real chain replacements where the later collator's block was backed instead.\n\n"@
            ));
    }
    assert(holds_all(o9, o8));
    assert(outcomes_section(out, r) == o9);
    all_stays(o0, o1, o2);
    all_stays(o0, o2, o3);
    all_stays(o0, o3, o4);
    all_stays(o0, o4, o5);
    all_stays(o0, o5, o6);
    all_stays(o0, o6, o7);
    all_stays(o0, o7, o8);
    all_stays(o0, o8, o9);
}

/// A rebuild is told with its height and observer, the original best and the replacement, the cause,
/// and which of the two was included.
pub proof fn rebuild_is_reported(out: ReportView, r: RebuildEventView)
    ensures
        ({
            let new = rebuild_sample(out, r);
            &&& holds_all(new, out)
            &&& says(
                new,
                "#### Block #"@ + decimal(r.block_number as nat) + " \u{2014} rebuilt on "@
                    + r.observer + "\n"@,
            )
            &&& says(
                new,
                side_words(
                    "- Original best: "@,
                    r.block_hash_best.raw,
                    r.best_collator,
                    r.best_timestamp,
                    r.best_relay_parent,
                    r.best_slot,
                ),
            )
            &&& says(
                new,
                side_words(
                    "- Replacement: "@,
                    r.block_hash_rebuilt.raw,
                    r.rebuilt_collator,
                    r.rebuilt_timestamp,
                    r.rebuilt_relay_parent,
                    r.rebuilt_slot,
                ),
            )
            &&& match r.cause {
                RebuildCause::SlotBoundaryOverlap { outgoing_slot, incoming_slot } => says(
                    new,
                    "- Root cause: slot boundary overlap (slot "@ + decimal(outgoing_slot as nat)
                        + " → "@ + decimal(incoming_slot as nat) + ")\n"@,
                ),
                RebuildCause::NewerRelayParent { old_rp, new_rp } => says(
                    new,
                    "- Root cause: rebuilt on newer relay parent (RP #"@ + decimal(old_rp as nat)
                        + " → #"@ + decimal(new_rp as nat) + ")\n"@,
                ),
                RebuildCause::Unknown => says(new, "- Root cause: unknown\n"@),
            }
            &&& match r.on_chain_winner {
                OnChainWinner::OriginalBest => says(
                    new,
                    "- On-chain: **original best** was included\n"@,
                ),
                OnChainWinner::Replacement => says(
                    new,
                    "- On-chain: **replacement** was included\n"@,
                ),
                OnChainWinner::Unknown => says(
                    new,
                    "- On-chain: unknown (outside query range)\n"@,
                ),
            }
            &&& forall|i: int|
                0 <= i < r.relay_block_sequence.len() ==> says(
                    new,
                    #[trigger] block_words(r.relay_block_sequence[i]),
                )
        }),
{
    let o0 = out;
    let o1 = o0
        .text("#### Block #"@)
        .number(r.block_number as nat)
        .text(" \u{2014} rebuilt on "@)
        .text(r.observer)
        .text("\n"@);
    line_of_5(
        o0,
        "#### Block #"@,
        decimal(r.block_number as nat),
        " \u{2014} rebuilt on "@,
        r.observer,
        "\n"@,
    );
    let o2 = rebuild_side(
        o1,
        "- Original best: "@,
        r.block_hash_best.raw,
        r.best_collator,
        r.best_timestamp,
        r.best_relay_parent,
        r.best_slot,
    );
    side_is_reported(
        o1,
        "- Original best: "@,
        r.block_hash_best.raw,
        r.best_collator,
        r.best_timestamp,
        r.best_relay_parent,
        r.best_slot,
    );
    let o3 = rebuild_side(
        o2,
        "- Replacement: "@,
        r.block_hash_rebuilt.raw,
        r.rebuilt_collator,
        r.rebuilt_timestamp,
        r.rebuilt_relay_parent,
        r.rebuilt_slot,
    );
    side_is_reported(
        o2,
        "- Replacement: "@,
        r.block_hash_rebuilt.raw,
        r.rebuilt_collator,
        r.rebuilt_timestamp,
        r.rebuilt_relay_parent,
        r.rebuilt_slot,
    );
    let o4 = match r.cause {
        RebuildCause::SlotBoundaryOverlap { outgoing_slot, incoming_slot } => o3
            .text("- Root cause: slot boundary overlap (slot "@)
            .number(outgoing_slot as nat)
            .text(" → "@)
            .number(incoming_slot as nat)
            .text(")\n"@),
        RebuildCause::NewerRelayParent { old_rp, new_rp } => o3
            .text("- Root cause: rebuilt on newer relay parent (RP #"@)
            .number(old_rp as nat)
            .text(" → #"@)
            .number(new_rp as nat)
            .text(")\n"@),
        RebuildCause::Unknown => o3.text("- Root cause: unknown\n"@),
    };
    match r.cause {
        RebuildCause::SlotBoundaryOverlap { outgoing_slot, incoming_slot } => {
            line_of_5(
                o3,
                "- Root cause: slot boundary overlap (slot "@,
                decimal(outgoing_slot as nat),
                " → "@,
                decimal(incoming_slot as nat),
                ")\n"@,
            );
        },
        RebuildCause::NewerRelayParent { old_rp, new_rp } => {
            line_of_5(
                o3,
                "- Root cause: rebuilt on newer relay parent (RP #"@,
                decimal(old_rp as nat),
                " → #"@,
                decimal(new_rp as nat),
                ")\n"@,
            );
        },
        RebuildCause::Unknown => {
            line_of_1(o3, "- Root cause: unknown\n"@);
        },
    }
    let o5 = match r.on_chain_winner {
        OnChainWinner::OriginalBest => o4.text("- On-chain: **original best** was included\n"@),
        OnChainWinner::Replacement => o4.text("- On-chain: **replacement** was included\n"@),
        OnChainWinner::Unknown => o4.text("- On-chain: unknown (outside query range)\n"@),
    };
    match r.on_chain_winner {
        OnChainWinner::OriginalBest => {
            line_of_1(o4, "- On-chain: **original best** was included\n"@);
        },
        OnChainWinner::Replacement => {
            line_of_1(o4, "- On-chain: **replacement** was included\n"@);
        },
        OnChainWinner::Unknown => {
            line_of_1(o4, "- On-chain: unknown (outside query range)\n"@);
        },
    }
    let o6 = if r.relay_block_sequence.len() > 0 {
        sequence_section(o5, r.relay_block_sequence)
    } else {
        o5
    };
    if r.relay_block_sequence.len() > 0 {
        sequence_is_reported(o5, r.relay_block_sequence);
    }
    assert(holds_all(o6, o5));
    let o7 = o6.text("\n"@);
    line_of_1(o6, "\n"@);
    assert(rebuild_sample(out, r) == o7);
    all_stays(o0, o1, o2);
    all_stays(o0, o2, o3);
    all_stays(o0, o3, o4);
    all_stays(o0, o4, o5);
    all_stays(o0, o5, o6);
    all_stays(o0, o6, o7);
}

/// A collator is told with its name, the blocks that it built, those that it won and those that it
/// lost, in this order, and its win rate in percent.
pub proof fn collator_is_reported(out: ReportView, c: CollatorStatsView)
    ensures
        holds_all(collator_line(out, c), out),
        shows(collator_line(out, c), row_words(c), in_percent(c.win_rate, 2)),
{
    let x = out.text(row_words(c));
    let y = out.text("| "@).text(c.name).text(" | "@).number(c.blocks_built as nat).text(
        " | "@,
    ).number(c.blocks_won as nat).text(" | "@).number(c.blocks_lost as nat).text(" | "@);
    assert(y =~= x);
    figure_behind_1(out, row_words(c), in_percent(c.win_rate, 2), "% |\n"@);
}

proof fn collators_are_added(out: ReportView, stats: Seq<CollatorStatsView>, n: nat)
    requires
        n <= stats.len(),
    ensures
        holds_all(collator_lines(out, stats, n), out),
        forall|i: int|
            0 <= i < n ==> shows(
                collator_lines(out, stats, n),
                row_words(#[trigger] stats[i]),
                in_percent(stats[i].win_rate, 2),
            ),
    decreases n,
{
    if n > 0 {
        let m = (n - 1) as nat;
        let before = collator_lines(out, stats, m);
        let new = collator_lines(out, stats, n);
        collators_are_added(out, stats, m);
        collator_is_reported(before, stats[n - 1]);
        all_stays(out, before, new);
        assert forall|i: int| 0 <= i < n implies shows(
            new,
            row_words(#[trigger] stats[i]),
            in_percent(stats[i].win_rate, 2),
        ) by {
            if i < m {
                assert(shows(before, row_words(stats[i]), in_percent(stats[i].win_rate, 2)));
            }
        }
    }
}

/// A collator as it is told, up to its win rate: its name, and the blocks built, won and lost.
pub open spec fn row_words(c: CollatorStatsView) -> Seq<char> {
    "| "@ + c.name + " | "@ + decimal(c.blocks_built as nat) + " | "@ + decimal(
        c.blocks_won as nat,
    ) + " | "@ + decimal(c.blocks_lost as nat) + " | "@
}

/// A rebuild as it is told first: its height and observer.
pub open spec fn rebuild_words(r: RebuildEventView) -> Seq<char> {
    "#### Block #"@ + decimal(r.block_number as nat) + " \u{2014} rebuilt on "@ + r.observer
        + "\n"@
}

proof fn rebuilds_are_added(out: ReportView, r: Seq<RebuildEventView>, n: nat)
    requires
        n <= r.len(),
    ensures
        holds_all(rebuild_samples(out, r, n), out),
        forall|i: int|
            0 <= i < n ==> says(rebuild_samples(out, r, n), rebuild_words(#[trigger] r[i])),
    decreases n,
{
    if n > 0 {
        let m = (n - 1) as nat;
        let before = rebuild_samples(out, r, m);
        let new = rebuild_samples(out, r, n);
        rebuilds_are_added(out, r, m);
        rebuild_is_reported(before, r[n - 1]);
        all_stays(out, before, new);
        assert forall|i: int| 0 <= i < n implies says(new, rebuild_words(#[trigger] r[i])) by {
            if i < m {
                assert(says(before, rebuild_words(r[i])));
            }
        }
    }
}

proof fn same_rebuilds(
    out: ReportView,
    a: Seq<RebuildEventView>,
    b: Seq<RebuildEventView>,
    n: nat,
)
    requires
        n <= a.len(),
        n <= b.len(),
        forall|i: int| 0 <= i < n ==> a[i] == b[i],
    ensures
        rebuild_samples(out, a, n) == rebuild_samples(out, b, n),
    decreases n,
{
    if n > 0 {
        same_rebuilds(out, a, b, (n - 1) as nat);
    }
}

/// Only as many rebuilds are told one by one as samples are asked for: where the later ones are
/// others of the same causes and outcomes, the section is the same.
pub proof fn later_rebuilds_are_only_counted(
    out: ReportView,
    m: MultiCollatorAnalysisView,
    other: Seq<RebuildEventView>,
    max: usize,
)
    requires
        m.rebuilds.len() >= max,
        m.rebuilds.len() == other.len(),
        forall|i: int| 0 <= i < max ==> m.rebuilds[i] == other[i],
        forall|i: int|
            0 <= i < other.len() ==> (#[trigger] other[i]).cause == m.rebuilds[i].cause
                && other[i].on_chain_winner == m.rebuilds[i].on_chain_winner,
    ensures
        collators_section(out, m, max) == collators_section(
            out,
            MultiCollatorAnalysisView { rebuilds: other, ..m },
            max,
        ),
{
    let r = m.rebuilds;
    let n = r.len();
    same_counts(
        n,
        |i: int| r[i].cause is SlotBoundaryOverlap,
        |i: int| other[i].cause is SlotBoundaryOverlap,
    );
    same_counts(
        n,
        |i: int| r[i].cause is NewerRelayParent,
        |i: int| other[i].cause is NewerRelayParent,
    );
    same_counts(n, |i: int| r[i].cause is Unknown, |i: int| other[i].cause is Unknown);
    same_counts(
        n,
        |i: int| r[i].on_chain_winner is OriginalBest,
        |i: int| other[i].on_chain_winner is OriginalBest,
    );
    same_counts(
        n,
        |i: int| r[i].on_chain_winner is Replacement,
        |i: int| other[i].on_chain_winner is Replacement,
    );
    same_counts(
        n,
        |i: int| r[i].on_chain_winner is Unknown,
        |i: int| other[i].on_chain_winner is Unknown,
    );
    assert forall|o: ReportView| #[trigger] rebuild_samples(o, r, max as nat) == rebuild_samples(
        o,
        other,
        max as nat,
    ) by {
        same_rebuilds(o, r, other, max as nat);
    }
    let h1 = "## Multi-Collator Rebuild Analysis\n\n"@;
    let h2 = "| Collator | Blocks Built | \u{1f3c6} Won (final best) | Lost (replaced) | Win Rate |\n"@;
    let h3 = "|---|---|---|---|---|\n"@;
    let o1 = out.text(h1).text(h2).text(h3);
    let o2 = collator_lines(o1, m.per_collator, m.per_collator.len()).text("\n"@);
    assert(causes_section(o2, r) == causes_section(o2, other));
    let o3 = causes_section(o2, r);
    assert(outcomes_section(o3, r) == outcomes_section(o3, other));
    let o4 = outcomes_section(o3, r);
    let o5 = match m.slot_boundary_analysis {
        Some(a) => slot_section(o4, a, max),
        None => o4,
    };
    let o6 = o5.text("### Sample Rebuilds\n\n"@);
    assert(rebuild_samples(o6, r, max as nat) == rebuild_samples(o6, other, max as nat));
}

proof fn same_counts(n: nat, f: spec_fn(int) -> bool, g: spec_fn(int) -> bool)
    requires
        forall|k: int| 0 <= k < n ==> #[trigger] f(k) == g(k),
    ensures
        crate::search::count_where(n, f) == crate::search::count_where(n, g),
    decreases n,
{
    if n > 0 {
        same_counts((n - 1) as nat, f, g);
        assert(f(n - 1) == g(n - 1));
    }
}

/// The section on collators tells of every collator; where there are rebuilds, of their causes and
/// outcomes, of the slot boundaries where they were looked at, and of each of the first rebuilds up
/// to the number of samples asked for; else that there are none.
pub proof fn collators_are_reported(out: ReportView, m: MultiCollatorAnalysisView, max: usize)
    ensures
        ({
            let new = collators_section(out, m, max);
            &&& holds_all(new, out)
            &&& forall|i: int|
                0 <= i < m.per_collator.len() ==> shows(
                    new,
                    row_words(#[trigger] m.per_collator[i]),
                    in_percent(m.per_collator[i].win_rate, 2),
                )
            &&& m.rebuilds.len() == 0 ==> says(
                new,
                "No rebuild events detected across collators.\n\n"@,
            )
            &&& m.rebuilds.len() > 0 ==> {
                &&& says(
                    new,
                    "### Rebuild Breakdown ("@ + decimal(m.rebuilds.len()) + " total)\n\n"@,
                )
                &&& shows(
                    new,
                    "| Original best (\u{1f3c6}) won on-chain | "@ + decimal(
                        originals_in(m.rebuilds),
                    ) + " | "@,
                    in_percent(part_of(originals_in(m.rebuilds), m.rebuilds.len()), 0),
                )
                &&& m.slot_boundary_analysis matches Some(a) ==> (a.boundaries.len() > 0 ==> says(
                    new,
                    "| Total slot boundaries | "@ + decimal(a.boundaries.len()) + " |\n"@,
                ))
                &&& forall|i: int|
                    0 <= i < m.rebuilds.len() && i < max ==> says(
                        new,
                        rebuild_words(#[trigger] m.rebuilds[i]),
                    )
            }
        }),
{
    let h1 = "## Multi-Collator Rebuild Analysis\n\n"@;
    let h2 = "| Collator | Blocks Built | \u{1f3c6} Won (final best) | Lost (replaced) | Win Rate |\n"@;
    let h3 = "|---|---|---|---|---|\n"@;
    let new = collators_section(out, m, max);
    let o1 = out.text(h1).text(h2).text(h3);
    line_of_3(out, h1, h2, h3);
    let o2 = collator_lines(o1, m.per_collator, m.per_collator.len());
    collators_are_added(o1, m.per_collator, m.per_collator.len());
    let o3 = o2.text("\n"@);
    line_of_1(o2, "\n"@);
    all_stays(out, o1, o2);
    all_stays(out, o2, o3);
    if m.rebuilds.len() == 0 {
        line_of_1(o3, "No rebuild events detected across collators.\n\n"@);
        all_stays(out, o3, new);
    } else {
        let r = m.rebuilds;
        let o4 = causes_section(o3, r);
        let o5 = outcomes_section(o4, r);
        causes_are_reported(o3, r);
        outcomes_are_reported(o4, r);
        let o6 = match m.slot_boundary_analysis {
            Some(a) => slot_section(o5, a, max),
            None => o5,
        };
        if let Some(a) = m.slot_boundary_analysis {
            if a.boundaries.len() > 0 {
                slot_boundaries_are_reported(o5, a, max);
            }
        }
        assert(holds_all(o6, o5));
        let shown = at_most(r.len(), max);
        if shown > 0 {
            let o7 = o6.text("### Sample Rebuilds\n\n"@);
            line_of_1(o6, "### Sample Rebuilds\n\n"@);
            rebuilds_are_added(o7, r, shown);
            all_stays(o6, o7, new);
        }
        assert(holds_all(new, o6));
        all_stays(o5, o6, new);
        all_stays(o4, o5, new);
        all_stays(o3, o4, new);
        all_stays(out, o3, new);
    }
}

// ---- Duplicates ----
/// Producers are told in the order of time: the same ones, and none before an earlier one.
pub proof fn producers_are_in_order(p: Seq<DuplicateProducerView>)
    ensures
        by_time(p).len() == p.len(),
        by_time(p).to_multiset() == p.to_multiset(),
        forall|x: int, y: int|
            0 <= x < y < p.len() ==> (#[trigger] by_time(p)[x]).timestamp <= (#[trigger] by_time(
                p,
            )[y]).timestamp,
{
    let keys = crate::multi_report::times_of(p);
    let order = sort_order(keys);
    sort_order_is_stable(keys);
    let q = by_time(p);
    assert forall|x: int, y: int| 0 <= x < y < p.len() implies (#[trigger] q[x]).timestamp <= (
    #[trigger] q[y]).timestamp by {
        assert(keys[order[x]] <= keys[order[y]]);
    }
    picks_are_same(p, order);
    assert(q =~= Seq::new(order.len(), |k: int| p[order[k]]));
}

proof fn picks_are_same(p: Seq<DuplicateProducerView>, order: Seq<int>)
    requires
        order.len() == p.len(),
        forall|k: int| 0 <= k < order.len() ==> 0 <= #[trigger] order[k] < p.len(),
        forall|x: int, y: int| 0 <= x < y < order.len() ==> order[x] != order[y],
        forall|i: int| 0 <= i < p.len() ==> #[trigger] order.contains(i),
    ensures
        Seq::new(order.len(), |k: int| p[order[k]]).to_multiset() == p.to_multiset(),
    decreases p.len(),
{
    broadcast use vstd::seq_lib::group_to_multiset_ensures;

    let q = Seq::new(order.len(), |k: int| p[order[k]]);
    if p.len() == 0 {
        assert(q =~= p);
    } else {
        let n = p.len() - 1;
        assert(order.contains(n));
        let k = choose|k: int| 0 <= k < order.len() && order[k] == n;
        let rest = order.remove(k);
        let front = p.drop_last();
        assert forall|i: int| 0 <= i < front.len() implies #[trigger] rest.contains(i) by {
            assert(order.contains(i));
            let j = choose|j: int| 0 <= j < order.len() && order[j] == i;
            if j < k {
                assert(rest[j] == i);
            } else {
                assert(rest[j - 1] == i);
            }
        }
        assert forall|x: int| 0 <= x < rest.len() implies 0 <= #[trigger] rest[x] < front.len() by {
            let j = if x < k {
                x
            } else {
                x + 1
            };
            assert(rest[x] == order[j]);
            assert(order[j] != order[k]);
        }
        picks_are_same(front, rest);
        let sub = Seq::new(rest.len(), |j: int| front[rest[j]]);
        assert(q.remove(k) =~= sub);
        assert(q[k] == p[n]);
        assert(front.push(p[n]) =~= p);
        assert(q.remove(k).to_multiset() == q.to_multiset().remove(q[k]));
        assert(q.to_multiset().contains(q[k])) by {
            assert(q.contains(q[k]));
        }
        assert(q.to_multiset() =~= sub.to_multiset().insert(p[n]));
        assert(p.to_multiset() =~= front.to_multiset().insert(p[n]));
    }
}

proof fn names_are_added(out: ReportView, p: Seq<DuplicateProducerView>, n: nat)
    requires
        n <= p.len(),
    ensures
        holds_all(with_names(out, p, n), out),
        forall|i: int| 0 <= i < n ==> says(with_names(out, p, n), (#[trigger] p[i]).collator),
    decreases n,
{
    if n > 0 {
        let m = (n - 1) as nat;
        let before = with_names(out, p, m);
        let comma = if n > 1 {
            before.text(", "@)
        } else {
            before
        };
        let new = with_names(out, p, n);
        names_are_added(out, p, m);
        line_of_1(before, ", "@);
        assert(holds_all(comma, before));
        line_of_1(comma, p[n - 1].collator);
        all_stays(out, before, comma);
        all_stays(out, comma, new);
        all_stays(before, comma, new);
        assert forall|i: int| 0 <= i < n implies says(new, (#[trigger] p[i]).collator) by {
            if i < m {
                assert(says(before, p[i].collator));
            }
        }
    }
}

proof fn slots_are_added(out: ReportView, p: Seq<DuplicateProducerView>, n: nat)
    requires
        n <= p.len(),
    ensures
        holds_all(with_slots(out, p, n), out),
        forall|i: int|
            0 <= i < n ==> says(with_slots(out, p, n), decimal((#[trigger] p[i]).slot as nat)),
    decreases n,
{
    if n > 0 {
        let m = (n - 1) as nat;
        let before = with_slots(out, p, m);
        let comma = if n > 1 {
            before.text(", "@)
        } else {
            before
        };
        let new = with_slots(out, p, n);
        slots_are_added(out, p, m);
        line_of_1(before, ", "@);
        assert(holds_all(comma, before));
        line_of_1(comma, decimal(p[n - 1].slot as nat));
        all_stays(out, before, comma);
        all_stays(out, comma, new);
        all_stays(before, comma, new);
        assert forall|i: int| 0 <= i < n implies says(
            new,
            decimal((#[trigger] p[i]).slot as nat),
        ) by {
            if i < m {
                assert(says(before, decimal(p[i].slot as nat)));
            }
        }
    }
}

/// A duplicate is told in a row with its number, its relay parent, the names and slots of its
/// producers, and the time between the first and the last of them.
pub proof fn duplicate_is_reported(out: ReportView, d: DuplicateBlockOnSameRPView)
    ensures
        ({
            let new = duplicate_row(out, d);
            let p = by_time(d.producers);
            &&& holds_all(new, out)
            &&& says(
                new,
                "| "@ + decimal(d.block_number as nat) + " | #"@ + decimal(
                    d.relay_parent_num as nat,
                ) + " | "@,
            )
            &&& forall|i: int| 0 <= i < p.len() ==> says(new, (#[trigger] p[i]).collator)
            &&& forall|i: int|
                0 <= i < p.len() ==> says(new, decimal((#[trigger] p[i]).slot as nat))
            &&& p.len() >= 2 ==> says(
                new,
                signed_decimal(elapsed(p[0].timestamp, p[p.len() - 1].timestamp)) + "ms"@,
            )
        }),
{
    let p = by_time(d.producers);
    let new = duplicate_row(out, d);
    let o1 = out.text("| "@).number(d.block_number as nat).text(" | #"@).number(
        d.relay_parent_num as nat,
    ).text(" | "@);
    line_of_5(
        out,
        "| "@,
        decimal(d.block_number as nat),
        " | #"@,
        decimal(d.relay_parent_num as nat),
        " | "@,
    );
    let o2 = with_names(o1, p, p.len());
    names_are_added(o1, p, p.len());
    let o3 = o2.text(" | "@);
    line_of_1(o2, " | "@);
    let o4 = with_slots(o3, p, p.len());
    slots_are_added(o3, p, p.len());
    let o5 = o4.text(" | "@);
    line_of_1(o4, " | "@);
    let gap = signed_decimal(elapsed(p[0].timestamp, p[p.len() - 1].timestamp));
    let o6 = if p.len() >= 2 {
        o5.signed(elapsed(p[0].timestamp, p[p.len() - 1].timestamp)).text("ms"@)
    } else {
        o5.text("-"@)
    };
    line_of_2(o5, gap, "ms"@);
    line_of_1(o5, "-"@);
    assert(holds_all(o6, o5));
    let o7 = o6.text(" |\n"@);
    line_of_1(o6, " |\n"@);
    assert(new == o7);
    all_stays(o5, o6, o7);
    all_stays(o4, o5, o7);
    all_stays(o3, o4, o7);
    all_stays(o2, o3, o7);
    all_stays(o1, o2, o7);
    all_stays(out, o1, o7);
}

/// How a duplicate is told first in a row: its number and its relay parent.
pub open spec fn duplicate_words(d: DuplicateBlockOnSameRPView) -> Seq<char> {
    "| "@ + decimal(d.block_number as nat) + " | #"@ + decimal(d.relay_parent_num as nat) + " | "@
}

/// A producer as it is told: its name, slot, time and hash.
pub open spec fn producer_words(p: DuplicateProducerView) -> Seq<char> {
    "- **"@ + p.collator + "**: slot "@ + decimal(p.slot as nat) + " at "@ + clock_text(p.timestamp)
        + " — hash "@ + short_text(p.block_hash.raw) + "\n"@
}

/// A producer is told in that way.
pub proof fn producer_is_reported(out: ReportView, p: DuplicateProducerView)
    ensures
        holds_all(producer_line(out, p), out),
        says(producer_line(out, p), producer_words(p)),
{
    assert(producer_line(out, p) =~= out.text(producer_words(p)));
    text_is_said(out, producer_words(p));
}

proof fn rows_are_added(out: ReportView, d: Seq<DuplicateBlockOnSameRPView>, n: nat)
    requires
        n <= d.len(),
    ensures
        holds_all(duplicate_rows(out, d, n), out),
        forall|i: int|
            0 <= i < n ==> says(duplicate_rows(out, d, n), duplicate_words(#[trigger] d[i])),
    decreases n,
{
    if n > 0 {
        let m = (n - 1) as nat;
        let before = duplicate_rows(out, d, m);
        let new = duplicate_rows(out, d, n);
        rows_are_added(out, d, m);
        duplicate_is_reported(before, d[n - 1]);
        all_stays(out, before, new);
        assert forall|i: int| 0 <= i < n implies says(new, duplicate_words(#[trigger] d[i])) by {
            if i < m {
                assert(says(before, duplicate_words(d[i])));
            }
        }
    }
}

proof fn producers_are_added(out: ReportView, p: Seq<DuplicateProducerView>, n: nat)
    requires
        n <= p.len(),
    ensures
        holds_all(producer_lines(out, p, n), out),
        forall|i: int|
            0 <= i < n ==> says(producer_lines(out, p, n), producer_words(#[trigger] p[i])),
    decreases n,
{
    if n > 0 {
        let m = (n - 1) as nat;
        let before = producer_lines(out, p, m);
        let new = producer_lines(out, p, n);
        producers_are_added(out, p, m);
        producer_is_reported(before, p[n - 1]);
        all_stays(out, before, new);
        assert forall|i: int| 0 <= i < n implies says(new, producer_words(#[trigger] p[i])) by {
            if i < m {
                assert(says(before, producer_words(p[i])));
            }
        }
    }
}

/// The details of a duplicate name its number and relay parent, and tell of each of its producers.
pub proof fn details_are_reported(out: ReportView, d: DuplicateBlockOnSameRPView)
    ensures
        ({
            let new = duplicate_details(out, d);
            let p = by_time(d.producers);
            &&& holds_all(new, out)
            &&& says(
                new,
                "#### Block #"@ + decimal(d.block_number as nat) + " on RP #"@ + decimal(
                    d.relay_parent_num as nat,
                ) + "\n\n"@,
            )
            &&& forall|i: int| 0 <= i < p.len() ==> says(new, producer_words(#[trigger] p[i]))
        }),
{
    let p = by_time(d.producers);
    let new = duplicate_details(out, d);
    let x = out.text("#### Block #"@).number(d.block_number as nat).text(" on RP #"@).number(
        d.relay_parent_num as nat,
    ).text("\n\n"@);
    line_of_5(
        out,
        "#### Block #"@,
        decimal(d.block_number as nat),
        " on RP #"@,
        decimal(d.relay_parent_num as nat),
        "\n\n"@,
    );
    let y = producer_lines(x, p, p.len());
    producers_are_added(x, p, p.len());
    line_of_1(y, "\n"@);
    all_stays(x, y, new);
    all_stays(out, x, new);
}

proof fn details_are_added(out: ReportView, d: Seq<DuplicateBlockOnSameRPView>, n: nat)
    requires
        n <= d.len(),
    ensures
        holds_all(all_details(out, d, n), out),
        forall|i: int, k: int|
            0 <= i < n && 0 <= k < by_time(d[i].producers).len() ==> says(
                all_details(out, d, n),
                producer_words(#[trigger] by_time(d[i].producers)[k]),
            ),
    decreases n,
{
    if n > 0 {
        let m = (n - 1) as nat;
        let before = all_details(out, d, m);
        let new = all_details(out, d, n);
        details_are_added(out, d, m);
        details_are_reported(before, d[n - 1]);
        all_stays(out, before, new);
        assert forall|i: int, k: int|
            0 <= i < n && 0 <= k < by_time(d[i].producers).len() implies says(
            new,
            producer_words(#[trigger] by_time(d[i].producers)[k]),
        ) by {
            if i < m {
                assert(says(before, producer_words(by_time(d[i].producers)[k])));
            }
        }
    }
}

/// The section on duplicates names how many there are and tells of each in a row, and of each
/// producer of the first five; or says that there are none.
pub proof fn duplicates_are_reported(out: ReportView, d: Seq<DuplicateBlockOnSameRPView>)
    ensures
        ({
            let new = duplicates_section(out, d);
            &&& holds_all(new, out)
            &&& d.len() == 0 ==> says(
                new,
                "**No duplicates found.** Every (block number, relay parent) pair was produced by exactly one collator. Slot assignment is clean.\n\n"@,
            )
            &&& d.len() > 0 ==> says(
                new,
                "**WARNING: "@ + decimal(d.len())
                    + " case(s)** where different collators built the same block on the same RP:\n\n"@,
            )
            &&& forall|i: int| 0 <= i < d.len() ==> says(new, duplicate_words(#[trigger] d[i]))
            &&& forall|i: int, k: int|
                0 <= i < d.len() && i < 5 && 0 <= k < by_time(d[i].producers).len() ==> says(
                    new,
                    producer_words(#[trigger] by_time(d[i].producers)[k]),
                )
        }),
{
    let h1 = "## Duplicate Block Production Check\n\n"@;
    let h2 = "Checks whether 2+ different collators ever built the same para block number on the same relay parent. This would indicate a protocol-level issue (e.g. Aura slot assignment violation or shared collator keys).\n\n"@;
    let new = duplicates_section(out, d);
    let o1 = out.text(h1).text(h2);
    line_of_2(out, h1, h2);
    if d.len() == 0 {
        let none = "**No duplicates found.** Every (block number, relay parent) pair was produced by exactly one collator. Slot assignment is clean.\n\n"@;
        line_of_1(o1, none);
        all_stays(out, o1, new);
    } else {
        let w2 = " case(s)** where different collators built the same block on the same RP:\n\n"@;
        let o2 = o1.text("**WARNING: "@).number(d.len()).text(w2);
        line_of_3(o1, "**WARNING: "@, decimal(d.len()), w2);
        let h3 = "| Block # | Relay Parent | Collators | Slots | Time Gap |\n"@;
        let h4 = "|---|---|---|---|---|\n"@;
        let o3 = o2.text(h3).text(h4);
        line_of_2(o2, h3, h4);
        let o4 = duplicate_rows(o3, d, d.len());
        rows_are_added(o3, d, d.len());
        let o5 = o4.text("\n"@).text("### Duplicate Production Details\n\n"@);
        line_of_2(o4, "\n"@, "### Duplicate Production Details\n\n"@);
        details_are_added(o5, d, at_most(d.len(), MAX_DUPLICATE_SAMPLES));
        assert(new == all_details(o5, d, at_most(d.len(), MAX_DUPLICATE_SAMPLES)));
        all_stays(o4, o5, new);
        all_stays(o3, o4, new);
        all_stays(o2, o3, new);
        all_stays(o1, o2, new);
        all_stays(out, o1, new);
    }
}

} // verus!
