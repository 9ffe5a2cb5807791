//! What holds of the reports: each figure stands behind its own label.

use crate::document::{Figure, ReportView};
use crate::hash::{ends_with, short_text, truncated_text};
use crate::logs::{best_count, confidence, non_best_count};
use crate::report::{
    at_most, confidence_section, drop_sample, drop_samples, drops_report, expired_line,
    expired_lines, expiry_section, groups_of, long_numbers_in, nearby_line, nearby_lines,
    non_session_section, number_before, numbers_in, reason_text, sample_section, samples_section,
    session_section, states_of, summary_section, with_numbers, with_schedule, with_session_length,
    with_session_note, with_states, ReportConfig, MAX_LISTED_COLLATIONS,
};
use crate::text::{decimal, occurs_in, signed_decimal};
use crate::time::{clock_text, duration_text, elapsed};
use crate::types::{
    AnalysisView, CollationExpiredView, DropReasonView, DroppedBlockView, OnChainBlockInfoView,
    ParaCandidateEventView, ParsedLogView, Ratio,
};
use vstd::prelude::*;

verus! {

// ---- What a report shows ----
/// Whether words stand in a report.
pub open spec fn says(out: ReportView, words: Seq<char>) -> bool {
    ||| occurs_in(words, out.tail)
    ||| exists|i: int|
        0 <= i < out.pieces.len() && occurs_in(words, (#[trigger] out.pieces[i]).0)
}

/// Whether a figure stands in a report right behind words.
pub open spec fn shows(out: ReportView, words: Seq<char>, figure: Figure) -> bool {
    exists|i: int|
        0 <= i < out.pieces.len() && (#[trigger] out.pieces[i]).1 == figure && ends_with(
            out.pieces[i].0,
            words,
        )
}

/// A quotient in percent, with a number of decimals.
pub open spec fn in_percent(ratio: Ratio, decimals: u8) -> Figure {
    Figure { ratio, percent: true, decimals }
}

/// A quotient, with a number of decimals.
pub open spec fn plain(ratio: Ratio, decimals: u8) -> Figure {
    Figure { ratio, percent: false, decimals }
}

/// A part of a whole.
pub open spec fn part_of(part: nat, whole: nat) -> Ratio {
    Ratio { num: part as i128, den: whole as u128 }
}

/// Whether a report says and shows all that another one does.
pub open spec fn holds_all(out: ReportView, before: ReportView) -> bool {
    &&& forall|w: Seq<char>| says(before, w) ==> #[trigger] says(out, w)
    &&& forall|w: Seq<char>, f: Figure| shows(before, w, f) ==> #[trigger] shows(out, w, f)
}

proof fn words_stay(words: Seq<char>, a: Seq<char>, b: Seq<char>)
    requires
        occurs_in(words, a),
    ensures
        occurs_in(words, a + b),
{
    let i = choose|i: int|
        0 <= i && i + words.len() <= a.len() && #[trigger] a.subrange(i, i + words.len()) == words;
    assert((a + b).subrange(i, i + words.len()) =~= words);
}

/// A text behind a report leaves what it says, and is said.
pub proof fn text_is_said(out: ReportView, s: Seq<char>)
    ensures
        holds_all(out.text(s), out),
        says(out.text(s), s),
{
    let new = out.text(s);
    assert forall|w: Seq<char>| says(out, w) implies #[trigger] says(new, w) by {
        if occurs_in(w, out.tail) {
            words_stay(w, out.tail, s);
        } else {
            let i = choose|i: int|
                0 <= i < out.pieces.len() && occurs_in(w, (#[trigger] out.pieces[i]).0);
            assert(occurs_in(w, new.pieces[i].0));
        }
    }
    assert forall|w: Seq<char>, f: Figure| shows(out, w, f) implies #[trigger] shows(
        new,
        w,
        f,
    ) by {
        let i = choose|i: int|
            0 <= i < out.pieces.len() && (#[trigger] out.pieces[i]).1 == f && ends_with(
                out.pieces[i].0,
                w,
            );
        assert(new.pieces[i].1 == f);
    }
    let t = out.tail.len() as int;
    assert(new.tail.subrange(t, t + s.len()) =~= s);
}

/// A figure behind a report leaves what it says, and is shown behind the words before it.
pub proof fn figure_is_shown(out: ReportView, words: Seq<char>, f: Figure)
    ensures
        holds_all(out.figure(f), out),
        holds_all(out.text(words).figure(f), out),
        shows(out.text(words).figure(f), words, f),
{
    figure_stays(out, f);
    text_is_said(out, words);
    figure_stays(out.text(words), f);
    let new = out.text(words).figure(f);
    let n = out.pieces.len() as int;
    let t = out.tail + words;
    assert(new.pieces[n].1 == f);
    assert(t.skip(t.len() - words.len()) =~= words);
    assert(ends_with(new.pieces[n].0, words));
    assert forall|w: Seq<char>| says(out, w) implies #[trigger] says(new, w) by {
        assert(says(out.text(words), w));
    }
    assert forall|w: Seq<char>, g: Figure| shows(out, w, g) implies #[trigger] shows(
        new,
        w,
        g,
    ) by {
        assert(shows(out.text(words), w, g));
    }
}

pub(crate) proof fn figure_stays(out: ReportView, f: Figure)
    ensures
        holds_all(out.figure(f), out),
{
    let new = out.figure(f);
    let n = out.pieces.len() as int;
    assert forall|w: Seq<char>| says(out, w) implies #[trigger] says(new, w) by {
        if occurs_in(w, out.tail) {
            assert(occurs_in(w, new.pieces[n].0));
        } else {
            let i = choose|i: int|
                0 <= i < out.pieces.len() && occurs_in(w, (#[trigger] out.pieces[i]).0);
            assert(occurs_in(w, new.pieces[i].0));
        }
    }
    assert forall|w: Seq<char>, g: Figure| shows(out, w, g) implies #[trigger] shows(
        new,
        w,
        g,
    ) by {
        let i = choose|i: int|
            0 <= i < out.pieces.len() && (#[trigger] out.pieces[i]).1 == g && ends_with(
                out.pieces[i].0,
                w,
            );
        assert(new.pieces[i].1 == g);
    }
}

pub(crate) proof fn all_stays(a: ReportView, b: ReportView, c: ReportView)
    requires
        holds_all(b, a),
        holds_all(c, b),
    ensures
        holds_all(c, a),
{
    assert forall|w: Seq<char>| says(a, w) implies #[trigger] says(c, w) by {
        assert(says(b, w));
    }
    assert forall|w: Seq<char>, f: Figure| shows(a, w, f) implies #[trigger] shows(c, w, f) by {
        assert(shows(b, w, f));
    }
}

pub(crate) proof fn line_of_1(out: ReportView, p1: Seq<char>)
    ensures
        says(out.text(p1), p1),
        holds_all(out.text(p1), out),
{
    assert(out.text(p1) =~= out.text(p1));
    text_is_said(out, p1);
}

pub(crate) proof fn line_of_2(out: ReportView, p1: Seq<char>, p2: Seq<char>)
    ensures
        says(out.text(p1).text(p2), p1 + p2),
        holds_all(out.text(p1).text(p2), out),
{
    assert(out.text(p1).text(p2) =~= out.text(p1 + p2));
    text_is_said(out, p1 + p2);
}

pub(crate) proof fn line_of_3(out: ReportView, p1: Seq<char>, p2: Seq<char>, p3: Seq<char>)
    ensures
        says(out.text(p1).text(p2).text(p3), p1 + p2 + p3),
        holds_all(out.text(p1).text(p2).text(p3), out),
{
    assert(out.text(p1).text(p2).text(p3) =~= out.text(p1 + p2 + p3));
    text_is_said(out, p1 + p2 + p3);
}

pub(crate) proof fn line_of_4(
    out: ReportView,
    p1: Seq<char>,
    p2: Seq<char>,
    p3: Seq<char>,
    p4: Seq<char>,
)
    ensures
        says(out.text(p1).text(p2).text(p3).text(p4), p1 + p2 + p3 + p4),
        holds_all(out.text(p1).text(p2).text(p3).text(p4), out),
{
    assert(out.text(p1).text(p2).text(p3).text(p4) =~= out.text(p1 + p2 + p3 + p4));
    text_is_said(out, p1 + p2 + p3 + p4);
}

pub(crate) proof fn line_of_5(
    out: ReportView,
    p1: Seq<char>,
    p2: Seq<char>,
    p3: Seq<char>,
    p4: Seq<char>,
    p5: Seq<char>,
)
    ensures
        says(out.text(p1).text(p2).text(p3).text(p4).text(p5), p1 + p2 + p3 + p4 + p5),
        holds_all(out.text(p1).text(p2).text(p3).text(p4).text(p5), out),
{
    assert(out.text(p1).text(p2).text(p3).text(p4).text(p5) =~= out.text(p1 + p2 + p3 + p4 + p5));
    text_is_said(out, p1 + p2 + p3 + p4 + p5);
}

pub(crate) proof fn line_of_6(
    out: ReportView,
    p1: Seq<char>,
    p2: Seq<char>,
    p3: Seq<char>,
    p4: Seq<char>,
    p5: Seq<char>,
    p6: Seq<char>,
)
    ensures
        says(
            out.text(p1).text(p2).text(p3).text(p4).text(p5).text(p6),
            p1 + p2 + p3 + p4 + p5 + p6,
        ),
        holds_all(out.text(p1).text(p2).text(p3).text(p4).text(p5).text(p6), out),
{
    assert(out.text(p1).text(p2).text(p3).text(p4).text(p5).text(p6)
        =~= out.text(p1 + p2 + p3 + p4 + p5 + p6));
    text_is_said(out, p1 + p2 + p3 + p4 + p5 + p6);
}

pub(crate) proof fn line_of_7(
    out: ReportView,
    p1: Seq<char>,
    p2: Seq<char>,
    p3: Seq<char>,
    p4: Seq<char>,
    p5: Seq<char>,
    p6: Seq<char>,
    p7: Seq<char>,
)
    ensures
        says(
            out.text(p1).text(p2).text(p3).text(p4).text(p5).text(p6).text(p7),
            p1 + p2 + p3 + p4 + p5 + p6 + p7,
        ),
        holds_all(out.text(p1).text(p2).text(p3).text(p4).text(p5).text(p6).text(p7), out),
{
    assert(out.text(p1).text(p2).text(p3).text(p4).text(p5).text(p6).text(p7)
        =~= out.text(p1 + p2 + p3 + p4 + p5 + p6 + p7));
    text_is_said(out, p1 + p2 + p3 + p4 + p5 + p6 + p7);
}

pub(crate) proof fn figure_behind_1(out: ReportView, p1: Seq<char>, f: Figure, rest: Seq<char>)
    ensures
        shows(out.text(p1).figure(f).text(rest), p1, f),
        says(out.text(p1).figure(f).text(rest), p1),
        holds_all(out.text(p1).figure(f).text(rest), out),
{
    assert(out.text(p1) =~= out.text(p1));
    text_is_said(out, p1);
    figure_is_shown(out, p1, f);
    figure_stays(out.text(p1), f);
    text_is_said(out.text(p1).figure(f), rest);
    all_stays(out, out.text(p1).figure(f), out.text(p1).figure(f).text(rest));
}

pub(crate) proof fn figure_behind_3(
    out: ReportView,
    p1: Seq<char>,
    p2: Seq<char>,
    p3: Seq<char>,
    f: Figure,
    rest: Seq<char>,
)
    ensures
        shows(out.text(p1).text(p2).text(p3).figure(f).text(rest), p1 + p2 + p3, f),
        says(out.text(p1).text(p2).text(p3).figure(f).text(rest), p1 + p2 + p3),
        holds_all(out.text(p1).text(p2).text(p3).figure(f).text(rest), out),
{
    assert(out.text(p1).text(p2).text(p3) =~= out.text(p1 + p2 + p3));
    text_is_said(out, p1 + p2 + p3);
    figure_is_shown(out, p1 + p2 + p3, f);
    figure_stays(out.text(p1 + p2 + p3), f);
    text_is_said(out.text(p1 + p2 + p3).figure(f), rest);
    all_stays(out, out.text(p1 + p2 + p3).figure(f), out.text(p1 + p2 + p3).figure(f).text(rest));
}

// ---- Sections ----
/// The length of a session is told where there are at least two boundaries: the blocks between the
/// first and the last of them, over the sessions between them.
pub proof fn session_length_is_added(out: ReportView, boundaries: Seq<(u32, u32, u32)>)
    ensures
        ({
            let new = with_session_length(out, boundaries);
            let n = boundaries.len();
            let span = boundaries[n - 1].0 - boundaries[0].0;
            &&& holds_all(new, out)
            &&& n < 2 ==> says(new, "unknown"@)
            &&& forall|blocks: int|
                n >= 2 && span >= 0 && (n - 1) * blocks <= span < (n - 1) * (blocks + 1) ==> says(
                    new,
                    #[trigger] length_text(blocks),
                )
        }),
{
    let new = with_session_length(out, boundaries);
    let n = boundaries.len();
    if n >= 2 {
        let span = boundaries[n - 1].0 - boundaries[0].0;
        let q = crate::time::toward_zero(span, n - 1);
        let minutes = crate::time::toward_zero(q * 6, 60);
        line_of_5(
            out,
            "~"@,
            signed_decimal(q),
            " blocks (~"@,
            signed_decimal(minutes),
            " minutes)"@,
        );
        assert forall|blocks: int|
            span >= 0 && (n - 1) * blocks <= span < (n - 1) * (blocks + 1) implies says(
            new,
            #[trigger] length_text(blocks),
        ) by {
            let d = n - 1;
            assert(span / d == blocks && blocks >= 0) by (nonlinear_arith)
                requires
                    d > 0,
                    span >= 0,
                    d * blocks <= span < d * (blocks + 1),
            ;
            assert(blocks * 6 / 60 == blocks / 10);
        }
    } else {
        line_of_1(out, "unknown"@);
    }
}

/// A session's length in blocks, and in minutes of ten blocks each.
pub open spec fn length_text(blocks: int) -> Seq<char> {
    "~"@ + signed_decimal(blocks) + " blocks (~"@ + signed_decimal(blocks / 10) + " minutes)"@
}

/// A reason names its sessions and block, or its relay parent and window, each behind its own label.
pub proof fn reason_is_named(
    before: u32,
    after: u32,
    block: u32,
    window: u32,
    chain: Option<Seq<u8>>,
)
    ensures
        occurs_in(
            "(session "@ + decimal(before as nat) + " → "@ + decimal(after as nat)
                + " at relay block #"@ + decimal(block as nat) + ")"@,
            reason_text(
                DropReasonView::SessionBoundary {
                    session_before: before,
                    session_after: after,
                    boundary_relay_block: block,
                },
            ),
        ),
        occurs_in(
            "(RP #"@ + decimal(block as nat) + ", viability window "@ + decimal(window as nat)
                + ")"@,
            reason_text(
                DropReasonView::RelayParentExpired {
                    relay_parent_num: block,
                    viability_window: window,
                },
            ),
        ),
{
    reveal_strlit("Session boundary (session ");
    reveal_strlit("(session ");
    reveal_strlit("Relay parent expired (RP #");
    reveal_strlit("(RP #");
    reveal_strlit("Session boundary ");
    reveal_strlit("Relay parent expired ");
    assert("Session boundary (session "@ =~= "Session boundary "@ + "(session "@);
    assert("Relay parent expired (RP #"@ =~= "Relay parent expired "@ + "(RP #"@);
    let a = "(session "@ + decimal(before as nat) + " → "@ + decimal(after as nat)
        + " at relay block #"@ + decimal(block as nat) + ")"@;
    let b = "(RP #"@ + decimal(block as nat) + ", viability window "@ + decimal(window as nat)
        + ")"@;
    let x = reason_text(
        DropReasonView::SessionBoundary {
            session_before: before,
            session_after: after,
            boundary_relay_block: block,
        },
    );
    let y = reason_text(
        DropReasonView::RelayParentExpired { relay_parent_num: block, viability_window: window },
    );
    assert(x =~= "Session boundary "@ + a + Seq::<char>::empty());
    assert(y =~= "Relay parent expired "@ + b + Seq::<char>::empty());
    crate::text_laws::words_occur_between("Session boundary "@, a, Seq::empty());
    crate::text_laws::words_occur_between("Relay parent expired "@, b, Seq::empty());
}

/// What is told first of a relay block near a drop: its number, its hash, and how many candidates it
/// backs.
pub open spec fn nearby_words(info: OnChainBlockInfoView) -> Seq<char> {
    "  - #"@ + decimal(info.block_number as nat) + " ("@ + truncated_text(info.block_hash) + "): "@
}

/// A relay block near a drop is told with its number and hash, how many candidates of the parachain
/// it backs and how many it includes, and whether the parachain is scheduled.
pub proof fn nearby_block_is_reported(
    out: ReportView,
    blocks: Seq<OnChainBlockInfoView>,
    info: OnChainBlockInfoView,
    para_id: u32,
)
    ensures
        ({
            let new = nearby_line(out, blocks, info, para_id);
            let backed = info.backed_para_candidates.len();
            let included = info.included_para_candidates.len();
            &&& holds_all(new, out)
            &&& says(new, nearby_words(info))
            &&& backed == 0 ==> says(new, "no backed candidates for our para"@)
            &&& backed > 0 ==> says(
                new,
                "backs "@ + decimal(backed) + " candidate(s) for para "@ + decimal(para_id as nat),
            )
            &&& included > 0 ==> says(
                new,
                ", includes "@ + decimal(included) + " candidate(s)"@,
            )
            &&& info.claim_queue_cores.len() == 0 ==> says(new, " — **not scheduled**"@)
        }),
{
    let o0 = out;
    let o1 = o0.text("  - #"@).number(info.block_number as nat).text(" ("@).text(
        truncated_text(info.block_hash),
    ).text("): "@);
    line_of_5(
        o0,
        "  - #"@,
        decimal(info.block_number as nat),
        " ("@,
        truncated_text(info.block_hash),
        "): "@,
    );
    let backed = info.backed_para_candidates.len();
    let included = info.included_para_candidates.len();
    let groups = groups_of(info.backed_para_candidates);
    let x = o1.text("backs "@).number(backed).text(" candidate(s) for para "@).number(
        para_id as nat,
    );
    let y = x.text(" (group(s) "@);
    let z = with_numbers(y, long_numbers_in(groups), groups.len());
    let o2 = if backed == 0 {
        o1.text("no backed candidates for our para"@)
    } else if groups.len() > 0 {
        z.text(")"@)
    } else {
        x
    };
    if backed == 0 {
        line_of_1(o1, "no backed candidates for our para"@);
    } else {
        line_of_4(
            o1,
            "backs "@,
            decimal(backed),
            " candidate(s) for para "@,
            decimal(para_id as nat),
        );
        if groups.len() > 0 {
            line_of_1(x, " (group(s) "@);
            numbers_are_added(y, long_numbers_in(groups), groups.len());
            line_of_1(z, ")"@);
            all_stays(x, y, z);
            all_stays(x, z, o2);
        }
        all_stays(o1, x, o2);
    }
    let o3 = if included > 0 {
        o2.text(", includes "@).number(included).text(" candidate(s)"@)
    } else {
        o2
    };
    if included > 0 {
        line_of_3(o2, ", includes "@, decimal(included), " candidate(s)"@);
    }
    assert(holds_all(o3, o2));
    let o4 = with_session_note(o3, blocks, info);
    session_note_is_added(o3, blocks, info);
    let o5 = with_schedule(o4, info.claim_queue_cores);
    schedule_is_added(o4, info.claim_queue_cores);
    let o6 = o5.text("\n"@);
    line_of_1(o5, "\n"@);
    assert(nearby_line(out, blocks, info, para_id) == o6);
    all_stays(o0, o1, o2);
    all_stays(o0, o2, o3);
    all_stays(o0, o3, o4);
    all_stays(o0, o4, o5);
    all_stays(o0, o5, o6);
}

/// Numbers in a list are all told.
pub proof fn numbers_are_added(out: ReportView, item: spec_fn(int) -> nat, n: nat)
    ensures
        holds_all(with_numbers(out, item, n), out),
        forall|i: int| 0 <= i < n ==> says(with_numbers(out, item, n), decimal(#[trigger] item(i))),
    decreases n,
{
    if n == 1 {
        line_of_1(out, decimal(item(0)));
    } else if n > 1 {
        let m = (n - 1) as nat;
        let before = with_numbers(out, item, m);
        numbers_are_added(out, item, m);
        line_of_1(before, ", "@);
        line_of_1(before.text(", "@), decimal(item(n - 1)));
        all_stays(out, before, before.text(", "@));
        all_stays(out, before.text(", "@), with_numbers(out, item, n));
        all_stays(before, before.text(", "@), with_numbers(out, item, n));
        assert forall|i: int| 0 <= i < n implies says(
            with_numbers(out, item, n),
            decimal(#[trigger] item(i)),
        ) by {
            if i < m {
                assert(says(before, decimal(item(i))));
            }
        }
    }
}

/// The schedule names every core, or that there is none.
pub proof fn schedule_is_added(out: ReportView, cores: Seq<u32>)
    ensures
        holds_all(with_schedule(out, cores), out),
        cores.len() == 0 ==> says(with_schedule(out, cores), " — **not scheduled**"@),
        cores.len() > 0 ==> says(with_schedule(out, cores), " — scheduled on core(s) "@),
        forall|i: int|
            0 <= i < cores.len() ==> says(
                with_schedule(out, cores),
                decimal(#[trigger] cores[i] as nat),
            ),
{
    if cores.len() == 0 {
        line_of_1(out, " — **not scheduled**"@);
    } else {
        let x = out.text(" — scheduled on core(s) "@);
        line_of_1(out, " — scheduled on core(s) "@);
        numbers_are_added(x, numbers_in(cores), cores.len());
        all_stays(out, x, with_schedule(out, cores));
        assert forall|i: int| 0 <= i < cores.len() implies says(
            with_schedule(out, cores),
            decimal(#[trigger] cores[i] as nat),
        ) by {
            assert(numbers_in(cores)(i) == cores[i]);
        }
    }
}

/// A new session is told where the block before is known and has another one: both are named.
pub proof fn session_note_is_added(
    out: ReportView,
    blocks: Seq<OnChainBlockInfoView>,
    info: OnChainBlockInfoView,
)
    ensures
        holds_all(with_session_note(out, blocks, info), out),
        forall|k: int|
            0 <= k < blocks.len() && info.block_number > 0 && (#[trigger] blocks[k]).block_number
                == info.block_number - 1 && blocks.len() > 1 && blocks[k].session_index
                != info.session_index && (forall|j: int|
                0 <= j < k ==> (#[trigger] blocks[j]).block_number != info.block_number - 1)
                ==> says(
                with_session_note(out, blocks, info),
                ", **NEW SESSION** ("@ + decimal(blocks[k].session_index as nat) + " → "@ + decimal(
                    info.session_index as nat,
                ) + ")"@,
            ),
{
    let before = |k: int| blocks[k].block_number == number_before(info.block_number);
    crate::search::first_where_is_first(blocks.len(), before);
    if let Some(k) = crate::search::first_where(blocks.len(), before) {
        assert(before(k));
        line_of_5(
            out,
            ", **NEW SESSION** ("@,
            decimal(blocks[k].session_index as nat),
            " → "@,
            decimal(info.session_index as nat),
            ")"@,
        );
    }
    assert forall|k: int|
        0 <= k < blocks.len() && info.block_number > 0 && (#[trigger] blocks[k]).block_number
            == info.block_number - 1 && blocks.len() > 1 && blocks[k].session_index
            != info.session_index && (forall|j: int|
            0 <= j < k ==> (#[trigger] blocks[j]).block_number != info.block_number
                - 1) implies says(
        with_session_note(out, blocks, info),
        ", **NEW SESSION** ("@ + decimal(blocks[k].session_index as nat) + " → "@ + decimal(
            info.session_index as nat,
        ) + ")"@,
    ) by {
        assert(before(k));
        let f = crate::search::first_where(blocks.len(), before)->0;
        assert(before(f));
        assert(blocks[f].block_number == info.block_number - 1);
        assert(f == k);
    }
}

/// Each relay block near a drop is told.
pub proof fn nearby_blocks_are_reported(
    out: ReportView,
    blocks: Seq<OnChainBlockInfoView>,
    n: nat,
    para_id: u32,
)
    requires
        n <= blocks.len(),
    ensures
        holds_all(nearby_lines(out, blocks, n, para_id), out),
        forall|i: int|
            0 <= i < n ==> says(
                nearby_lines(out, blocks, n, para_id),
                #[trigger] nearby_words(blocks[i]),
            ),
    decreases n,
{
    if n > 0 {
        let m = (n - 1) as nat;
        let before = nearby_lines(out, blocks, m, para_id);
        let new = nearby_lines(out, blocks, n, para_id);
        nearby_blocks_are_reported(out, blocks, m, para_id);
        nearby_block_is_reported(before, blocks, blocks[n - 1], para_id);
        all_stays(out, before, new);
        assert forall|i: int| 0 <= i < n implies says(new, #[trigger] nearby_words(blocks[i])) by {
            if i < m {
                assert(says(before, nearby_words(blocks[i])));
            }
        }
    }
}

/// What is told first of the expired collations on a relay parent: how many there are.
pub open spec fn expiry_words(rp: u32, n: nat) -> Seq<char> {
    "- Collation expiry on RP #"@ + decimal(rp as nat) + ": **"@ + decimal(n)
        + "** collation(s) expired — "@
}

/// Of the expired collations on a relay parent, how many there are is told, how many are in each of
/// their states, and each one where there are no more than twenty.
pub proof fn expiries_are_reported(out: ReportView, rp: u32, expired: Seq<CollationExpiredView>)
    ensures
        ({
            let new = expiry_section(out, rp, expired);
            &&& holds_all(new, out)
            &&& says(new, expiry_words(rp, expired.len()))
            &&& forall|i: int|
                0 <= i < expired.len() ==> says(new, #[trigger] state_words(expired, i))
            &&& expired.len() <= 20 ==> forall|i: int|
                0 <= i < expired.len() ==> says(
                    new,
                    "  - state=**"@ + (#[trigger] expired[i]).collation_state + "**"@,
                )
        }),
{
    let o1 = out.text("- Collation expiry on RP #"@).number(rp as nat).text(": **"@).number(
        expired.len(),
    ).text("** collation(s) expired — "@);
    line_of_5(
        out,
        "- Collation expiry on RP #"@,
        decimal(rp as nat),
        ": **"@,
        decimal(expired.len()),
        "** collation(s) expired — "@,
    );
    let states = states_of(expired, expired.len());
    let o2 = with_states(o1, expired, states, states.len());
    states_are_added(o1, expired, states, states.len());
    let o3 = o2.text("\n"@);
    line_of_1(o2, "\n"@);
    let new = expiry_section(out, rp, expired);
    crate::report::states_are_ordered(expired, expired.len());
    if expired.len() <= MAX_LISTED_COLLATIONS {
        expired_collations_are_reported(o3, expired, expired.len());
    }
    assert(holds_all(new, o3));
    all_stays(out, o1, o2);
    all_stays(out, o2, o3);
    all_stays(out, o3, new);
    assert forall|i: int| 0 <= i < expired.len() implies says(
        new,
        #[trigger] state_words(expired, i),
    ) by {
        let s = expired[i].collation_state;
        assert(states.contains(s));
        let k = choose|k: int| 0 <= k < states.len() && states[k] == s;
        assert(says(o2, state_text(expired, states[k])));
        assert(says(o3, state_text(expired, states[k])));
    }
}

/// How many collations are in the state of the `i`-th one, as it is told.
pub open spec fn state_words(expired: Seq<CollationExpiredView>, i: int) -> Seq<char> {
    state_text(expired, expired[i].collation_state)
}

/// How many collations are in a state, as it is told.
pub open spec fn state_text(expired: Seq<CollationExpiredView>, state: Seq<char>) -> Seq<char> {
    decimal(crate::search::count_where(expired.len(), |i: int| expired[i].collation_state == state))
        + " x "@ + state
}

proof fn states_are_added(
    out: ReportView,
    expired: Seq<CollationExpiredView>,
    states: Seq<Seq<char>>,
    n: nat,
)
    requires
        n <= states.len(),
    ensures
        holds_all(with_states(out, expired, states, n), out),
        forall|k: int|
            0 <= k < n ==> says(
                with_states(out, expired, states, n),
                state_text(expired, #[trigger] states[k]),
            ),
    decreases n,
{
    if n > 0 {
        let m = (n - 1) as nat;
        let before = with_states(out, expired, states, m);
        let comma = if n > 1 {
            before.text(", "@)
        } else {
            before
        };
        let new = with_states(out, expired, states, n);
        let s = states[n - 1];
        states_are_added(out, expired, states, m);
        line_of_1(before, ", "@);
        assert(holds_all(comma, before));
        line_of_3(comma, decimal(crate::report::count_in_state(expired, s)), " x "@, s);
        all_stays(out, before, comma);
        all_stays(out, comma, new);
        all_stays(before, comma, new);
        assert forall|k: int| 0 <= k < n implies says(
            new,
            state_text(expired, #[trigger] states[k]),
        ) by {
            if k < m {
                assert(says(before, state_text(expired, states[k])));
            }
        }
    }
}

proof fn expired_collations_are_reported(
    out: ReportView,
    expired: Seq<CollationExpiredView>,
    n: nat,
)
    requires
        n <= expired.len(),
    ensures
        holds_all(expired_lines(out, expired, n), out),
        forall|i: int|
            0 <= i < n ==> says(
                expired_lines(out, expired, n),
                "  - state=**"@ + (#[trigger] expired[i]).collation_state + "**"@,
            ),
    decreases n,
{
    if n > 0 {
        let m = (n - 1) as nat;
        let before = expired_lines(out, expired, m);
        let new = expired_lines(out, expired, n);
        expired_collations_are_reported(out, expired, m);
        expired_collation_is_reported(before, expired[n - 1]);
        all_stays(out, before, new);
        assert forall|i: int| 0 <= i < n implies says(
            new,
            "  - state=**"@ + (#[trigger] expired[i]).collation_state + "**"@,
        ) by {
            if i < m {
                assert(says(before, "  - state=**"@ + expired[i].collation_state + "**"@));
            }
        }
    }
}

/// The report names, each behind its own label, the best imports, the others, all of them and the
/// share of the best ones; and what share of the best ones the others are, where there are any.
pub proof fn confidence_is_reported(out: ReportView, log: ParsedLogView)
    ensures
        ({
            let new = confidence_section(out, log);
            &&& holds_all(new, out)
            &&& says(
                new,
                "| \u{1f3c6} Blocks built (best) | **"@ + decimal(best_count(log)) + "** |\n"@,
            )
            &&& says(
                new,
                "| \u{1f195} Blocks rebuilt (non-best) | **"@ + decimal(non_best_count(log))
                    + "** |\n"@,
            )
            &&& says(new, "| Total parachain imports | "@ + decimal(log.para_imports.len()) + " |\n"@)
            &&& shows(new, "| **Block Confidence** | **"@, in_percent(confidence(log), 2))
            &&& (best_count(log) > 0) ==> shows(
                new,
                "| Rebuild rate | "@,
                in_percent(part_of(non_best_count(log), best_count(log)), 2),
            )
        }),
{
    let o0 = out;
    let o1 = o0.text("## Block Confidence\n\n"@);
    line_of_1(o0, "## Block Confidence\n\n"@);
    let o2 = o1.text("| Metric | Value |\n"@);
    line_of_1(o1, "| Metric | Value |\n"@);
    let o3 = o2.text("|---|---|\n"@);
    line_of_1(o2, "|---|---|\n"@);
    let o4 = o3
        .text("| \u{1f3c6} Blocks built (best) | **"@)
        .number(best_count(log))
        .text("** |\n"@);
    line_of_3(o3, "| \u{1f3c6} Blocks built (best) | **"@, decimal(best_count(log)), "** |\n"@);
    let o5 = o4
        .text("| \u{1f195} Blocks rebuilt (non-best) | **"@)
        .number(non_best_count(log))
        .text("** |\n"@);
    line_of_3(
        o4,
        "| \u{1f195} Blocks rebuilt (non-best) | **"@,
        decimal(non_best_count(log)),
        "** |\n"@,
    );
    let o6 = o5.text("| Total parachain imports | "@).number(log.para_imports.len()).text(" |\n"@);
    line_of_3(o5, "| Total parachain imports | "@, decimal(log.para_imports.len()), " |\n"@);
    let o7 = o6.text("| **Block Confidence** | **"@).percent(confidence(log), 2).text("%** |\n"@);
    figure_behind_1(o6, "| **Block Confidence** | **"@, in_percent(confidence(log), 2), "%** |\n"@);
    let o8 = if best_count(log) > 0 {
        o7
            .text("| Rebuild rate | "@)
            .percent(part_of(non_best_count(log), best_count(log)), 2)
            .text("% |\n"@)
    } else {
        o7
    };
    if best_count(log) > 0 {
        figure_behind_1(
            o7,
            "| Rebuild rate | "@,
            in_percent(part_of(non_best_count(log), best_count(log)), 2),
            "% |\n"@,
        );
        assert(o8 == o7
            .text("| Rebuild rate | "@)
            .percent(part_of(non_best_count(log), best_count(log)), 2)
            .text("% |\n"@));
    }
    assert(holds_all(o8, o7));
    let o9 = o8.text("\n"@);
    line_of_1(o8, "\n"@);
    assert(confidence_section(out, log) == o9);
    all_stays(o0, o1, o2);
    all_stays(o0, o2, o3);
    all_stays(o0, o3, o4);
    all_stays(o0, o4, o5);
    all_stays(o0, o5, o6);
    all_stays(o0, o6, o7);
    all_stays(o0, o7, o8);
    all_stays(o0, o8, o9);
}

/// The summary names, each behind its own label, the length of the window, the parachain, the
/// collators and cores, and how many blocks were built, included and dropped; the range of relay
/// blocks where there is one; and the blocks at the edge, where there are any.
pub proof fn summary_is_reported(out: ReportView, a: AnalysisView, para_id: u32, n_collators: usize)
    ensures
        ({
            let new = summary_section(out, a, para_id, n_collators);
            &&& holds_all(new, out)
            &&& says(
                new,
                "## Summary of top issues identified over a "@
                    + duration_text(elapsed(a.time_window.0, a.time_window.1)) + " window\n\n"@,
            )
            &&& says(
                new,
                "This data was collected from collator logs for para_id "@ + decimal(para_id as nat)
                    + ".\n"@,
            )
            &&& says(
                new,
                "Setup: "@ + decimal(n_collators as nat) + " collator(s), "@
                    + decimal(a.n_cores as nat) + " core(s).\n\n"@,
            )
            &&& says(new, "- Total blocks built locally: **"@ + decimal(a.total_built as nat) + "**\n"@)
            &&& says(
                new,
                "- Total blocks included on-chain: **"@ + decimal(a.total_included as nat) + "**\n"@,
            )
            &&& says(new, "- Total blocks dropped: **"@ + decimal(a.total_dropped as nat) + "**\n"@)
            &&& match (a.min_relay_block, a.max_relay_block) {
                (Some(min), Some(max)) => says(
                    new,
                    "- Relay block range: **#"@ + decimal(min as nat) + "** to **#"@
                        + decimal(max as nat) + "**\n"@,
                ),
                _ => says(new, "- Relay block range: no relay blocks observed\n"@),
            }
            &&& (a.edge_of_window_drops.len() > 0) ==> says(
                new,
                "- Edge-of-window blocks excluded: **"@ + decimal(a.edge_of_window_drops.len())
                    + "** (these blocks were built near the start/end of the log window and might have been included in relay chain blocks outside the observed range)\n"@,
            )
        }),
{
    let o0 = out;
    let o1 = o0
        .text("## Summary of top issues identified over a "@)
        .text(duration_text(elapsed(a.time_window.0, a.time_window.1)))
        .text(" window\n\n"@);
    line_of_3(
        o0,
        "## Summary of top issues identified over a "@,
        duration_text(elapsed(a.time_window.0, a.time_window.1)),
        " window\n\n"@,
    );
    let o2 = o1
        .text("This data was collected from collator logs for para_id "@)
        .number(para_id as nat)
        .text(".\n"@);
    line_of_3(
        o1,
        "This data was collected from collator logs for para_id "@,
        decimal(para_id as nat),
        ".\n"@,
    );
    let o3 = o2.text("\n"@);
    line_of_1(o2, "\n"@);
    let o4 = o3
        .text("Setup: "@)
        .number(n_collators as nat)
        .text(" collator(s), "@)
        .number(a.n_cores as nat)
        .text(" core(s).\n\n"@);
    line_of_5(
        o3,
        "Setup: "@,
        decimal(n_collators as nat),
        " collator(s), "@,
        decimal(a.n_cores as nat),
        " core(s).\n\n"@,
    );
    let o5 = o4
        .text("- Total blocks built locally: **"@)
        .number(a.total_built as nat)
        .text("**\n"@);
    line_of_3(o4, "- Total blocks built locally: **"@, decimal(a.total_built as nat), "**\n"@);
    let o6 = o5
        .text("- Total blocks included on-chain: **"@)
        .number(a.total_included as nat)
        .text("**\n"@);
    line_of_3(
        o5,
        "- Total blocks included on-chain: **"@,
        decimal(a.total_included as nat),
        "**\n"@,
    );
    let o7 = o6.text("- Total blocks dropped: **"@).number(a.total_dropped as nat).text("**\n"@);
    line_of_3(o6, "- Total blocks dropped: **"@, decimal(a.total_dropped as nat), "**\n"@);
    let o8 = match (a.min_relay_block, a.max_relay_block) {
        (Some(min), Some(max)) => o7
            .text("- Relay block range: **#"@)
            .number(min as nat)
            .text("** to **#"@)
            .number(max as nat)
            .text("**\n"@),
        _ => o7.text("- Relay block range: no relay blocks observed\n"@),
    };
    match (a.min_relay_block, a.max_relay_block) {
        (Some(min), Some(max)) => {
            line_of_5(
                o7,
                "- Relay block range: **#"@,
                decimal(min as nat),
                "** to **#"@,
                decimal(max as nat),
                "**\n"@,
            );
        },
        _ => {
            line_of_1(o7, "- Relay block range: no relay blocks observed\n"@);
        },
    }
    let o9 = if a.edge_of_window_drops.len() > 0 {
        o8
            .text("- Edge-of-window blocks excluded: **"@)
            .number(a.edge_of_window_drops.len())
            .text(
                "** (these blocks were built near the start/end of the log window and might have been included in relay chain blocks outside the observed range)\n"@
            )
    } else {
        o8
    };
    if a.edge_of_window_drops.len() > 0 {
        line_of_3(
            o8,
            "- Edge-of-window blocks excluded: **"@,
            decimal(a.edge_of_window_drops.len()),
            "** (these blocks were built near the start/end of the log window and might have been included in relay chain blocks outside the observed range)\n"@,
        );
        assert(o9 == o8
            .text("- Edge-of-window blocks excluded: **"@)
            .number(a.edge_of_window_drops.len())
            .text(
                "** (these blocks were built near the start/end of the log window and might have been included in relay chain blocks outside the observed range)\n"@
            ));
    }
    assert(holds_all(o9, o8));
    let o10 = o9.text("\n"@);
    line_of_1(o9, "\n"@);
    assert(summary_section(out, a, para_id, n_collators) == o10);
    all_stays(o0, o1, o2);
    all_stays(o0, o2, o3);
    all_stays(o0, o3, o4);
    all_stays(o0, o4, o5);
    all_stays(o0, o5, o6);
    all_stays(o0, o6, o7);
    all_stays(o0, o7, o8);
    all_stays(o0, o8, o9);
    all_stays(o0, o9, o10);
}

/// The section on session boundaries names the chain and, where blocks were dropped at them, how many,
/// and how many per session change on average, at least and at most.
pub proof fn session_drops_are_reported(out: ReportView, a: AnalysisView, chain_name: Seq<char>)
    requires
        a.session_boundary_drops.len() > 0,
    ensures
        ({
            let new = session_section(out, a, chain_name);
            &&& holds_all(new, out)
            &&& says(new, "### Session boundaries on "@ + chain_name + " (every "@)
            &&& says(
                new,
                "Analysis shows a total of **"@ + decimal(a.session_boundary_drops.len())
                    + " blocks** being dropped at session boundaries.\n\n"@,
            )
            &&& ({
                let (num, den, min, max) = crate::drops::session_stats(a);
                &&& shows(
                    new,
                    "- Average (per session change): **"@,
                    plain(Ratio { num: num as i128, den: den as u128 }, 1),
                )
                &&& says(new, "- Min: **"@ + decimal(min as nat) + " block(s)**\n"@)
                &&& says(new, "- Max: **"@ + decimal(max as nat) + " blocks**\n"@)
            })
        }),
{
    let o0 = out;
    let o1 = o0.text("### Session boundaries on "@).text(chain_name).text(" (every "@);
    line_of_3(o0, "### Session boundaries on "@, chain_name, " (every "@);
    let o2 = with_session_length(o1, a.session_boundaries);
    session_length_is_added(o1, a.session_boundaries);
    let o3 = o2.text(")\n\n"@);
    line_of_1(o2, ")\n\n"@);
    let o4 = o3
        .text("Analysis shows a total of **"@)
        .number(a.session_boundary_drops.len())
        .text(" blocks** being dropped at session boundaries.\n\n"@);
    line_of_3(
        o3,
        "Analysis shows a total of **"@,
        decimal(a.session_boundary_drops.len()),
        " blocks** being dropped at session boundaries.\n\n"@,
    );
    let (num, den, min, max) = crate::drops::session_stats(a);
    let o5 = o4
        .text("- Average (per session change): **"@)
        .quotient(Ratio { num: num as i128, den: den as u128 }, 1)
        .text(" blocks**\n"@);
    figure_behind_1(
        o4,
        "- Average (per session change): **"@,
        plain(Ratio { num: num as i128, den: den as u128 }, 1),
        " blocks**\n"@,
    );
    let o6 = o5.text("- Min: **"@).number(min as nat).text(" block(s)**\n"@);
    line_of_3(o5, "- Min: **"@, decimal(min as nat), " block(s)**\n"@);
    let o7 = o6.text("- Max: **"@).number(max as nat).text(" blocks**\n"@);
    line_of_3(o6, "- Max: **"@, decimal(max as nat), " blocks**\n"@);
    let o8 = o7.text("\n"@);
    line_of_1(o7, "\n"@);
    assert(session_section(out, a, chain_name) == o8);
    all_stays(o0, o1, o2);
    all_stays(o0, o2, o3);
    all_stays(o0, o3, o4);
    all_stays(o0, o4, o5);
    all_stays(o0, o5, o6);
    all_stays(o0, o6, o7);
    all_stays(o0, o7, o8);
}

/// Where no block was dropped at a session boundary, the section names the session changes, or that
/// there were none.
pub proof fn no_session_drops_is_reported(out: ReportView, a: AnalysisView, chain_name: Seq<char>)
    requires
        a.session_boundary_drops.len() == 0,
    ensures
        ({
            let new = session_section(out, a, chain_name);
            &&& holds_all(new, out)
            &&& says(new, "### Session boundaries on "@ + chain_name + " (every "@)
            &&& (a.session_boundaries.len() > 0) ==> says(
                new,
                "No blocks dropped at session boundaries ("@ + decimal(a.session_boundaries.len())
                    + " session change(s) observed).\n\n"@,
            )
            &&& !(a.session_boundaries.len() > 0) ==> says(
                new,
                "No session boundaries observed in the log window. Cannot assess session boundary drops.\n\n"@,
            )
        }),
{
    let o0 = out;
    let o1 = o0.text("### Session boundaries on "@).text(chain_name).text(" (every "@);
    line_of_3(o0, "### Session boundaries on "@, chain_name, " (every "@);
    let o2 = with_session_length(o1, a.session_boundaries);
    session_length_is_added(o1, a.session_boundaries);
    let o3 = o2.text(")\n\n"@);
    line_of_1(o2, ")\n\n"@);
    let o4 = if a.session_boundaries.len() > 0 {
        o3
            .text("No blocks dropped at session boundaries ("@)
            .number(a.session_boundaries.len())
            .text(" session change(s) observed).\n\n"@)
    } else {
        o3.text(
            "No session boundaries observed in the log window. Cannot assess session boundary drops.\n\n"@
        )
    };
    if a.session_boundaries.len() > 0 {
        line_of_3(
            o3,
            "No blocks dropped at session boundaries ("@,
            decimal(a.session_boundaries.len()),
            " session change(s) observed).\n\n"@,
        );
        assert(o4 == o3
            .text("No blocks dropped at session boundaries ("@)
            .number(a.session_boundaries.len())
            .text(" session change(s) observed).\n\n"@));
    } else {
        line_of_1(
            o3,
            "No session boundaries observed in the log window. Cannot assess session boundary drops.\n\n"@,
        );
    }
    assert(holds_all(o4, o3));
    assert(session_section(out, a, chain_name) == o4);
    all_stays(o0, o1, o2);
    all_stays(o0, o2, o3);
    all_stays(o0, o3, o4);
}

/// The section on drops away from session boundaries names how many there are, what share of them
/// expired, what share was on a wrong fork, and how many are unknown.
pub proof fn other_drops_are_reported(out: ReportView, a: AnalysisView, total: nat)
    requires
        total == a.relay_parent_expired_drops.len() + a.wrong_fork_drops.len()
            + a.unknown_drops.len(),
        total > 0,
    ensures
        ({
            let new = non_session_section(out, a);
            &&& holds_all(new, out)
            &&& says(
                new,
                "Analysis shows a total of **"@ + decimal(total) + " blocks** being dropped.\n\n"@,
            )
            &&& shows(
                new,
                "- Relay parent expired (**~"@,
                in_percent(part_of(a.relay_parent_expired_drops.len(), total), 0),
            )
            &&& shows(
                new,
                "- Built on wrong fork (~**"@,
                in_percent(part_of(a.wrong_fork_drops.len(), total), 0),
            )
            &&& (a.unknown_drops.len() > 0) ==> says(new, "- Unknown reason: **"@ + decimal(a.unknown_drops.len()) + "**\n"@)
        }),
{
    let o0 = out;
    let o1 = o0.text("### Non-session boundary\n\n"@);
    line_of_1(o0, "### Non-session boundary\n\n"@);
    let o2 = o1
        .text("Analysis shows a total of **"@)
        .number(total)
        .text(" blocks** being dropped.\n\n"@);
    line_of_3(o1, "Analysis shows a total of **"@, decimal(total), " blocks** being dropped.\n\n"@);
    let o3 = o2.text("Approximate breakdown:\n"@);
    line_of_1(o2, "Approximate breakdown:\n"@);
    let o4 = o3
        .text("- Relay parent expired (**~"@)
        .percent(part_of(a.relay_parent_expired_drops.len(), total), 0)
        .text("%**). Why?\n"@);
    figure_behind_1(
        o3,
        "- Relay parent expired (**~"@,
        in_percent(part_of(a.relay_parent_expired_drops.len(), total), 0),
        "%**). Why?\n"@,
    );
    let o5 = o4.text(
        "\t- Low performance validators produce empty relay blocks or blocks with very few backed candidates\n"@
    );
    line_of_1(
        o4,
        "\t- Low performance validators produce empty relay blocks or blocks with very few backed candidates\n"@,
    );
    let o6 = o5
        .text("- Built on wrong fork (~**"@)
        .percent(part_of(a.wrong_fork_drops.len(), total), 0)
        .text("%**)\n"@);
    figure_behind_1(
        o5,
        "- Built on wrong fork (~**"@,
        in_percent(part_of(a.wrong_fork_drops.len(), total), 0),
        "%**)\n"@,
    );
    let o7 = if a.unknown_drops.len() > 0 {
        o6.text("- Unknown reason: **"@).number(a.unknown_drops.len()).text("**\n"@)
    } else {
        o6
    };
    if a.unknown_drops.len() > 0 {
        line_of_3(o6, "- Unknown reason: **"@, decimal(a.unknown_drops.len()), "**\n"@);
        assert(o7 == o6.text("- Unknown reason: **"@).number(a.unknown_drops.len()).text("**\n"@));
    }
    assert(holds_all(o7, o6));
    let o8 = o7.text("\n"@);
    line_of_1(o7, "\n"@);
    assert(non_session_section(out, a) == o8);
    all_stays(o0, o1, o2);
    all_stays(o0, o2, o3);
    all_stays(o0, o3, o4);
    all_stays(o0, o4, o5);
    all_stays(o0, o5, o6);
    all_stays(o0, o6, o7);
    all_stays(o0, o7, o8);
}

/// Where there are none, the section says so.
pub proof fn no_other_drops_is_reported(out: ReportView, a: AnalysisView)
    requires
        a.relay_parent_expired_drops.len() == 0,
        a.wrong_fork_drops.len() == 0,
        a.unknown_drops.len() == 0,
    ensures
        ({
            let new = non_session_section(out, a);
            &&& holds_all(new, out)
            &&& says(new, "No blocks dropped outside of session boundaries.\n\n"@)
        }),
{
    let o0 = out;
    let o1 = o0.text("### Non-session boundary\n\n"@);
    line_of_1(o0, "### Non-session boundary\n\n"@);
    let o2 = o1.text("No blocks dropped outside of session boundaries.\n\n"@);
    line_of_1(o1, "No blocks dropped outside of session boundaries.\n\n"@);
    assert(non_session_section(out, a) == o2);
    all_stays(o0, o1, o2);
}

/// An expired collation is told with its state, its age and its head where they are known, and the
/// time.
pub proof fn expired_collation_is_reported(out: ReportView, e: CollationExpiredView)
    ensures
        ({
            let new = expired_line(out, e);
            &&& holds_all(new, out)
            &&& says(new, "  - state=**"@ + e.collation_state + "**"@)
            &&& e.age matches Some(age) ==> says(new, ", age="@ + decimal(age as nat))
            &&& e.head matches Some(head) ==> says(new, ", head="@ + short_text(head.raw))
            &&& says(new, " ("@ + clock_text(e.timestamp) + ")\n"@)
        }),
{
    let o0 = out;
    let o1 = o0.text("  - state=**"@).text(e.collation_state).text("**"@);
    line_of_3(o0, "  - state=**"@, e.collation_state, "**"@);
    let o2 = match e.age {
        Some(age) => o1.text(", age="@).number(age as nat),
        None => o1,
    };
    if let Some(age) = e.age {
        line_of_2(o1, ", age="@, decimal(age as nat));
    }
    assert(holds_all(o2, o1));
    let o3 = match e.head {
        Some(head) => o2.text(", head="@).text(short_text(head.raw)),
        None => o2,
    };
    if let Some(head) = e.head {
        line_of_2(o2, ", head="@, short_text(head.raw));
    }
    assert(holds_all(o3, o2));
    let o4 = o3.text(" ("@).text(clock_text(e.timestamp)).text(")\n"@);
    line_of_3(o3, " ("@, clock_text(e.timestamp), ")\n"@);
    assert(expired_line(out, e) == o4);
    all_stays(o0, o1, o2);
    all_stays(o0, o2, o3);
    all_stays(o0, o3, o4);
}

/// A dropped block is told with its number, its parent and its hash, the cause, the time, the latency
/// where it is known, the relay parent, and whether that was on a wrong fork.
pub proof fn dropped_block_is_reported(out: ReportView, d: DroppedBlockView, para_id: u32)
    ensures
        ({
            let new = drop_sample(out, d, para_id);
            &&& holds_all(new, out)
            &&& says(
                new,
                "#### \u{1f3c6} Imported #"@ + decimal(d.para_block_number as nat) + " ("@
                    + short_text(d.parent_hash.raw) + " → "@ + short_text(d.para_block_hash.raw)
                    + ")\n"@,
            )
            &&& says(new, "- **Root cause**: "@ + reason_text(d.reason) + "\n"@)
            &&& says(new, "- Built at: "@ + clock_text(d.built_at) + "\n"@)
            &&& d.collation_fetch_latency_ms matches Some(latency) ==> says(
                new,
                "- Collation fetch latency: **"@ + decimal(latency as nat) + "ms**\n"@,
            )
            &&& says(
                new,
                "- Relay parent: #"@ + decimal(d.relay_parent_num as nat) + " ("@
                    + short_text(d.relay_parent_hash.raw) + ")\n"@,
            )
            &&& (d.reason is WrongFork) ==> says(new, "- RP **on wrong fork**: relay parent was pruned from canonical chain\n"@)
            &&& !(d.reason is WrongFork) ==> says(new, "- RP is not on wrong fork\n"@)
            &&& forall|i: int|
                0 <= i < d.nearby_relay_blocks.len() ==> says(
                    new,
                    #[trigger] nearby_words(d.nearby_relay_blocks[i]),
                )
            &&& d.collation_expired.len() > 0 ==> says(
                new,
                expiry_words(d.relay_parent_num, d.collation_expired.len()),
            )
        }),
{
    let o0 = out;
    let o1 = o0
        .text("#### \u{1f3c6} Imported #"@)
        .number(d.para_block_number as nat)
        .text(" ("@)
        .text(short_text(d.parent_hash.raw))
        .text(" → "@)
        .text(short_text(d.para_block_hash.raw))
        .text(")\n"@);
    line_of_7(
        o0,
        "#### \u{1f3c6} Imported #"@,
        decimal(d.para_block_number as nat),
        " ("@,
        short_text(d.parent_hash.raw),
        " → "@,
        short_text(d.para_block_hash.raw),
        ")\n"@,
    );
    let o2 = o1.text("- **Root cause**: "@).text(reason_text(d.reason)).text("\n"@);
    line_of_3(o1, "- **Root cause**: "@, reason_text(d.reason), "\n"@);
    let o3 = o2.text("- Built at: "@).text(clock_text(d.built_at)).text("\n"@);
    line_of_3(o2, "- Built at: "@, clock_text(d.built_at), "\n"@);
    let o4 = match d.collation_fetch_latency_ms {
        Some(latency) => o3
            .text("- Collation fetch latency: **"@)
            .number(latency as nat)
            .text("ms**\n"@),
        None => o3,
    };
    if let Some(latency) = d.collation_fetch_latency_ms {
        line_of_3(o3, "- Collation fetch latency: **"@, decimal(latency as nat), "ms**\n"@);
    }
    assert(holds_all(o4, o3));
    let o5 = o4
        .text("- Relay parent: #"@)
        .number(d.relay_parent_num as nat)
        .text(" ("@)
        .text(short_text(d.relay_parent_hash.raw))
        .text(")\n"@);
    line_of_5(
        o4,
        "- Relay parent: #"@,
        decimal(d.relay_parent_num as nat),
        " ("@,
        short_text(d.relay_parent_hash.raw),
        ")\n"@,
    );
    let o6 = if d.reason is WrongFork {
        o5.text("- RP **on wrong fork**: relay parent was pruned from canonical chain\n"@)
    } else {
        o5.text("- RP is not on wrong fork\n"@)
    };
    if d.reason is WrongFork {
        line_of_1(o5, "- RP **on wrong fork**: relay parent was pruned from canonical chain\n"@);
        assert(o6 == o5.text("- RP **on wrong fork**: relay parent was pruned from canonical chain\n"@));
    } else {
        line_of_1(o5, "- RP is not on wrong fork\n"@);
    }
    assert(holds_all(o6, o5));
    let o7 = if d.nearby_relay_blocks.len() > 0 {
        nearby_lines(
            o6.text("- Relay chain block sequence:\n"@),
            d.nearby_relay_blocks,
            d.nearby_relay_blocks.len(),
            para_id,
        )
    } else {
        o6
    };
    if d.nearby_relay_blocks.len() > 0 {
        let x = o6.text("- Relay chain block sequence:\n"@);
        line_of_1(o6, "- Relay chain block sequence:\n"@);
        nearby_blocks_are_reported(x, d.nearby_relay_blocks, d.nearby_relay_blocks.len(), para_id);
        all_stays(o6, x, o7);
    }
    assert(holds_all(o7, o6));
    let o8 = if d.collation_expired.len() > 0 {
        expiry_section(o7, d.relay_parent_num, d.collation_expired)
    } else {
        o7
    };
    if d.collation_expired.len() > 0 {
        expiries_are_reported(o7, d.relay_parent_num, d.collation_expired);
    }
    assert(holds_all(o8, o7));
    let o9 = o8.text("\n"@);
    line_of_1(o8, "\n"@);
    assert(drop_sample(out, d, para_id) == o9);
    all_stays(o0, o1, o2);
    all_stays(o0, o2, o3);
    all_stays(o0, o3, o4);
    all_stays(o0, o4, o5);
    all_stays(o0, o5, o6);
    all_stays(o0, o6, o7);
    all_stays(o0, o7, o8);
    all_stays(o0, o8, o9);
}

/// How a dropped block is told first: by its number, its parent and its hash.
pub open spec fn sample_words(d: DroppedBlockView) -> Seq<char> {
    "#### \u{1f3c6} Imported #"@ + decimal(d.para_block_number as nat) + " ("@ + short_text(
        d.parent_hash.raw,
    ) + " → "@ + short_text(d.para_block_hash.raw) + ")\n"@
}

/// Each of the first `n` dropped blocks is told.
pub proof fn dropped_blocks_are_reported(
    out: ReportView,
    drops: Seq<DroppedBlockView>,
    n: nat,
    para_id: u32,
)
    requires
        n <= drops.len(),
    ensures
        holds_all(drop_samples(out, drops, n, para_id), out),
        forall|i: int|
            0 <= i < n ==> says(
                drop_samples(out, drops, n, para_id),
                #[trigger] sample_words(drops[i]),
            ),
    decreases n,
{
    if n > 0 {
        let m = (n - 1) as nat;
        let before = drop_samples(out, drops, m, para_id);
        let new = drop_samples(out, drops, n, para_id);
        dropped_blocks_are_reported(out, drops, m, para_id);
        dropped_block_is_reported(before, drops[n - 1], para_id);
        all_stays(out, before, new);
        assert forall|i: int| 0 <= i < n implies says(new, #[trigger] sample_words(drops[i])) by {
            if i < m {
                assert(says(before, sample_words(drops[i])));
            }
        }
    }
}

proof fn samples_are_added(
    out: ReportView,
    heading: Seq<char>,
    drops: Seq<DroppedBlockView>,
    max: usize,
    para_id: u32,
)
    ensures
        ({
            let new = sample_section(out, heading, drops, max, para_id);
            &&& holds_all(new, out)
            &&& drops.len() > 0 ==> says(new, heading)
            &&& forall|i: int|
                0 <= i < drops.len() && i < max ==> says(new, #[trigger] sample_words(drops[i]))
        }),
{
    if drops.len() > 0 {
        let x = out.text(heading);
        line_of_1(out, heading);
        dropped_blocks_are_reported(x, drops, at_most(drops.len(), max), para_id);
        all_stays(out, x, sample_section(out, heading, drops, max, para_id));
    }
}

/// Of the drops at session boundaries, of those that expired and of those on a wrong fork, each of
/// the first ones is told, up to the number of samples asked for.
pub proof fn samples_are_reported(out: ReportView, a: AnalysisView, max: usize, para_id: u32)
    ensures
        ({
            let new = samples_section(out, a, max, para_id);
            &&& holds_all(new, out)
            &&& forall|i: int|
                0 <= i < a.session_boundary_drops.len() && i < max ==> says(
                    new,
                    #[trigger] sample_words(a.session_boundary_drops[i]),
                )
            &&& forall|i: int|
                0 <= i < a.relay_parent_expired_drops.len() && i < max ==> says(
                    new,
                    #[trigger] sample_words(a.relay_parent_expired_drops[i]),
                )
            &&& forall|i: int|
                0 <= i < a.wrong_fork_drops.len() && i < max ==> says(
                    new,
                    #[trigger] sample_words(a.wrong_fork_drops[i]),
                )
        }),
{
    let o1 = out.text("## Sample data points\n"@);
    line_of_1(out, "## Sample data points\n"@);
    let h1 = "### Session boundary drops\n"@;
    let h2 = "### Relay parent expired drops\n"@;
    let h3 = "### Blocks built on wrong fork\n"@;
    let o2 = sample_section(o1, h1, a.session_boundary_drops, max, para_id);
    let o3 = sample_section(o2, h2, a.relay_parent_expired_drops, max, para_id);
    let o4 = sample_section(o3, h3, a.wrong_fork_drops, max, para_id);
    samples_are_added(o1, h1, a.session_boundary_drops, max, para_id);
    samples_are_added(o2, h2, a.relay_parent_expired_drops, max, para_id);
    samples_are_added(o3, h3, a.wrong_fork_drops, max, para_id);
    all_stays(out, o1, o2);
    all_stays(out, o2, o3);
    all_stays(out, o3, o4);
    all_stays(o2, o3, o4);
}

proof fn same_samples(
    out: ReportView,
    a: Seq<DroppedBlockView>,
    b: Seq<DroppedBlockView>,
    n: nat,
    para_id: u32,
)
    requires
        n <= a.len(),
        n <= b.len(),
        forall|i: int| 0 <= i < n ==> a[i] == b[i],
    ensures
        drop_samples(out, a, n, para_id) == drop_samples(out, b, n, para_id),
    decreases n,
{
    if n > 0 {
        same_samples(out, a, b, (n - 1) as nat, para_id);
    }
}

/// No more drops are told than samples are asked for: what comes behind them in the list makes no
/// difference.
pub proof fn later_drops_are_not_reported(
    out: ReportView,
    heading: Seq<char>,
    a: Seq<DroppedBlockView>,
    b: Seq<DroppedBlockView>,
    max: usize,
    para_id: u32,
)
    requires
        a.len() > 0,
        b.len() > 0,
        a.len() >= max,
        b.len() >= max,
        forall|i: int| 0 <= i < max ==> a[i] == b[i],
    ensures
        sample_section(out, heading, a, max, para_id) == sample_section(
            out,
            heading,
            b,
            max,
            para_id,
        ),
{
    same_samples(out.text(heading), a, b, max as nat, para_id);
}

/// Where more than twenty collations expired, only their states are told: nothing else of them makes
/// a difference.
pub proof fn many_collations_are_only_counted(
    out: ReportView,
    rp: u32,
    a: Seq<CollationExpiredView>,
    b: Seq<CollationExpiredView>,
)
    requires
        a.len() > 20,
        a.len() == b.len(),
        forall|i: int|
            0 <= i < a.len() ==> (#[trigger] a[i]).collation_state == b[i].collation_state,
    ensures
        expiry_section(out, rp, a) == expiry_section(out, rp, b),
{
    same_states(a, b, a.len());
    let states = states_of(a, a.len());
    let o1 = out.text("- Collation expiry on RP #"@).number(rp as nat).text(": **"@).number(
        a.len(),
    ).text("** collation(s) expired — "@);
    same_state_counts(o1, a, b, states, states.len());
}

proof fn same_states(a: Seq<CollationExpiredView>, b: Seq<CollationExpiredView>, n: nat)
    requires
        n <= a.len(),
        a.len() == b.len(),
        forall|i: int|
            0 <= i < a.len() ==> (#[trigger] a[i]).collation_state == b[i].collation_state,
    ensures
        states_of(a, n) == states_of(b, n),
    decreases n,
{
    if n > 0 {
        same_states(a, b, (n - 1) as nat);
        assert(a[n - 1].collation_state == b[n - 1].collation_state);
    }
}

proof fn same_counts(n: nat, f: spec_fn(int) -> bool, g: spec_fn(int) -> bool)
    requires
        forall|k: int| 0 <= k < n ==> #[trigger] f(k) == g(k),
    ensures
        crate::search::count_where(n, f) == crate::search::count_where(n, g),
    decreases n,
{
    if n > 0 {
        same_counts((n - 1) as nat, f, g);
        assert(f(n - 1) == g(n - 1));
    }
}

proof fn same_state_counts(
    out: ReportView,
    a: Seq<CollationExpiredView>,
    b: Seq<CollationExpiredView>,
    states: Seq<Seq<char>>,
    n: nat,
)
    requires
        n <= states.len(),
        a.len() == b.len(),
        forall|i: int|
            0 <= i < a.len() ==> (#[trigger] a[i]).collation_state == b[i].collation_state,
    ensures
        with_states(out, a, states, n) == with_states(out, b, states, n),
    decreases n,
{
    if n > 0 {
        same_state_counts(out, a, b, states, (n - 1) as nat);
        let s = states[n - 1];
        let f = |i: int| a[i].collation_state == s;
        let g = |i: int| b[i].collation_state == s;
        assert forall|k: int| 0 <= k < a.len() implies #[trigger] f(k) == g(k) by {
            assert(a[k].collation_state == b[k].collation_state);
        }
        same_counts(a.len(), f, g);
        assert(crate::report::count_in_state(a, s) == crate::report::count_in_state(b, s));
    }
}

/// The groups told are those that backed a candidate, each once, ascending.
pub proof fn groups_are_those_that_backed(c: Seq<ParaCandidateEventView>)
    ensures
        forall|i: int, j: int| 0 <= i < j < groups_of(c).len() ==> groups_of(c)[i] < groups_of(c)[
            j
        ],
        forall|g: u64| #[trigger]
            groups_of(c).contains(g) <==> exists|i: int|
                0 <= i < c.len() && (#[trigger] c[i]).group_index is Some && c[i].group_index->0
                    == g,
{
    let ok = |i: int| c[i].group_index is Some;
    let value = |i: int| c[i].group_index->0 as u64;
    crate::search::distinct_values_are_all(c.len(), ok, value);
    assert forall|g: u64| #[trigger]
        groups_of(c).contains(g) <==> exists|i: int|
            0 <= i < c.len() && (#[trigger] c[i]).group_index is Some
                && c[i].group_index->0 == g by {
        if groups_of(c).contains(g) {
            let i = choose|i: int| 0 <= i < c.len() && ok(i) && #[trigger] value(i) == g;
            assert(c[i].group_index is Some && c[i].group_index->0 == g);
        }
        if exists|i: int|
            0 <= i < c.len() && (#[trigger] c[i]).group_index is Some && c[i].group_index->0 == g {
            let i = choose|i: int|
                0 <= i < c.len() && (#[trigger] c[i]).group_index is Some && c[i].group_index->0
                    == g;
            assert(ok(i) && value(i) == g);
        }
    }
}

/// The part of the report on drops says and shows all that its four sections do.
pub proof fn sections_are_kept(out: ReportView, a: AnalysisView, config: ReportConfig)
    ensures
        ({
            let new = drops_report(out, a, config);
            let o1 = summary_section(out, a, config.para_id, config.n_collators);
            let o2 = session_section(o1, a, config.chain_name@);
            let o3 = non_session_section(o2, a);
            let o4 = samples_section(o3, a, config.max_samples, config.para_id);
            &&& holds_all(new, out)
            &&& holds_all(new, o1)
            &&& holds_all(new, o2)
            &&& holds_all(new, o3)
            &&& holds_all(new, o4)
        }),
{
    let o1 = summary_section(out, a, config.para_id, config.n_collators);
    let o2 = session_section(o1, a, config.chain_name@);
    let o3 = non_session_section(o2, a);
    let o4 = samples_section(o3, a, config.max_samples, config.para_id);
    summary_is_reported(out, a, config.para_id, config.n_collators);
    if a.session_boundary_drops.len() > 0 {
        session_drops_are_reported(o1, a, config.chain_name@);
    } else {
        no_session_drops_is_reported(o1, a, config.chain_name@);
    }
    let total = a.relay_parent_expired_drops.len() + a.wrong_fork_drops.len()
        + a.unknown_drops.len();
    if total > 0 {
        other_drops_are_reported(o2, a, total);
    } else {
        no_other_drops_is_reported(o2, a);
    }
    samples_are_reported(o3, a, config.max_samples, config.para_id);
    all_stays(o2, o3, o4);
    all_stays(o1, o2, o4);
    all_stays(out, o1, o4);
}

} // verus!
