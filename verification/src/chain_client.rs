//! What is read from the relay chain: head data, the blocks of a range with their candidate events,
//! the search for session boundaries, and when a failed query is tried again.

use crate::model::{views, views_push};
use crate::scale::{
    bytes_of, candidate_in, cores_in, extract_bytes, extract_claim_queue_for_para,
    extract_para_candidate_event, map_entries, ScaleValue,
};
use crate::text::same_text;
use crate::types::{
    OnChainBlockInfo, OnChainBlockInfoView, ParaCandidateEvent, ParaCandidateEventView,
};
use blake2::digest::Digest;
use std::collections::BTreeMap;
use vstd::prelude::*;

verus! {

// ---- Head data ----
/// The number that four bytes give, the least significant first.
pub open spec fn le_u32(a: u8, b: u8, c: u8, d: u8) -> nat {
    a as nat + 0x100 * b as nat + 0x1_0000 * c as nat + 0x100_0000 * d as nat
}

/// The compact number at the start of some bytes. The low two bits of the first byte give the
/// mode: one, two or four bytes whose other bits are the number, or four bytes behind the first.
/// A number that a shorter mode could hold is none.
pub open spec fn compact_u32(s: Seq<u8>) -> Option<u32> {
    if s.len() == 0 {
        None
    } else if s[0] % 4 == 0 {
        Some((s[0] / 4) as u32)
    } else if s[0] % 4 == 1 {
        let n = le_u32(s[0], s[1], 0, 0) / 4;
        if s.len() >= 2 && n > 0x3f {
            Some(n as u32)
        } else {
            None
        }
    } else if s[0] % 4 == 2 {
        let n = le_u32(s[0], s[1], s[2], s[3]) / 4;
        if s.len() >= 4 && n > 0x3fff {
            Some(n as u32)
        } else {
            None
        }
    } else {
        let n = le_u32(s[1], s[2], s[3], s[4]);
        if s[0] == 3 && s.len() >= 5 && n > 0x3fff_ffff {
            Some(n as u32)
        } else {
            None
        }
    }
}

/// `parity_scale_codec::Compact::<u32>::decode`: the compact number at the start of the bytes, and
/// an error exactly where there is none. What follows the number does not matter.
#[verifier::external_body]
fn decode_compact(bytes: &[u8]) -> (number: Option<u32>)
    ensures
        number == compact_u32(bytes@),
{
    let mut cursor = bytes;
    <parity_scale_codec::Compact<u32> as parity_scale_codec::Decode>::decode(&mut cursor).ok().map(
        |number| number.0,
    )
}

/// The BLAKE2b hash, 32 bytes long, of some bytes.
pub uninterp spec fn blake2b_256(bytes: Seq<u8>) -> Seq<u8>;

/// `blake2::Blake2b::<U32>`: `new`, `update` with the bytes, and `finalize` give their 32-byte
/// BLAKE2b hash.
#[verifier::external_body]
fn hash_blake2b(bytes: &[u8]) -> (hash: [u8; 32])
    ensures
        hash@ == blake2b_256(bytes@),
{
    let mut hasher = blake2::Blake2b::<blake2::digest::consts::U32>::new();
    hasher.update(bytes);
    let mut hash = [0u8; 32];
    hash.copy_from_slice(&hasher.finalize());
    hash
}

/// The parachain block number in head data: the compact number behind the 32 bytes of the parent
/// hash.
pub open spec fn para_number(head_data: Seq<u8>) -> Option<u32> {
    if head_data.len() < 33 {
        None
    } else {
        compact_u32(head_data.skip(32))
    }
}

/// Decodes the parachain block number from head data.
/// Head data is the encoded parachain header:
///   parent_hash: [u8; 32] + Compact<u32> number + ...
pub fn decode_para_block_number(head_data: &[u8]) -> (number: Option<u32>)
    ensures
        number == para_number(head_data@),
{
    if head_data.len() < 33 {
        return None;
    }
    let rest = vstd::slice::slice_subrange(head_data, 32, head_data.len());
    assert(rest@ =~= head_data@.skip(32));
    decode_compact(rest)
}

/// Computes the block hash from head data (blake2b-256 of the header).
pub fn compute_block_hash_from_head_data(head_data: &[u8]) -> (hash: [u8; 32])
    ensures
        hash@ == blake2b_256(head_data@),
{
    hash_blake2b(head_data)
}

/// The parachain block number in a stored head: that of its bytes.
pub open spec fn head_number(val: Option<ScaleValue>) -> Option<u32> {
    match val {
        Some(v) => match bytes_of(v) {
            Some(bytes) => para_number(bytes),
            None => None,
        },
        None => None,
    }
}

/// The parachain block number in what was stored as the head, if anything was.
pub fn para_head_number(val: &Option<ScaleValue>) -> (number: Option<u32>)
    ensures
        number == head_number(*val),
{
    match val {
        Some(v) => match extract_bytes(v) {
            Some(bytes) => decode_para_block_number(bytes.as_slice()),
            None => None,
        },
        None => None,
    }
}

// ---- Blocks and their events ----
/// An event of a block: its pallet and variant, and its fields if they could be decoded.
pub struct ChainEvent {
    pub pallet: String,
    pub variant: String,
    pub fields: Option<Vec<ScaleValue>>,
}

/// The candidate that an event tells of, where it is of the variant asked for.
pub open spec fn event_candidate(e: ChainEvent, variant: Seq<char>, para_id: u32) -> Option<
    ParaCandidateEventView,
> {
    match e.fields {
        Some(fields) => if e.pallet@ == "ParaInclusion"@ && e.variant@ == variant {
            candidate_in(fields@, para_id)
        } else {
            None
        },
        None => None,
    }
}

/// The candidates that the first `n` events tell of.
pub open spec fn candidates_in(
    events: Seq<ChainEvent>,
    n: nat,
    variant: Seq<char>,
    para_id: u32,
) -> Seq<ParaCandidateEventView>
    decreases n,
{
    if n == 0 {
        Seq::empty()
    } else {
        let before = candidates_in(events, (n - 1) as nat, variant, para_id);
        match event_candidate(events[n - 1], variant, para_id) {
            Some(c) => before.push(c),
            None => before,
        }
    }
}

/// The candidates of a parachain that were backed and that were included, by the events.
pub fn candidate_events(events: &Vec<ChainEvent>, para_id: u32) -> (candidates: (
    Vec<ParaCandidateEvent>,
    Vec<ParaCandidateEvent>,
))
    ensures
        views(candidates.0@) == candidates_in(
            events@,
            events@.len(),
            "CandidateBacked"@,
            para_id,
        ),
        views(candidates.1@) == candidates_in(
            events@,
            events@.len(),
            "CandidateIncluded"@,
            para_id,
        ),
{
    proof {
        reveal_strlit("CandidateBacked");
        reveal_strlit("CandidateIncluded");
        assert("CandidateBacked"@.len() != "CandidateIncluded"@.len());
    }
    let mut backed: Vec<ParaCandidateEvent> = Vec::new();
    let mut included: Vec<ParaCandidateEvent> = Vec::new();
    assert(views(backed@) =~= Seq::<ParaCandidateEventView>::empty());
    assert(views(included@) =~= Seq::<ParaCandidateEventView>::empty());
    let mut i: usize = 0;
    while i < events.len()
        invariant
            i <= events@.len(),
            "CandidateBacked"@ != "CandidateIncluded"@,
            views(backed@) == candidates_in(events@, i as nat, "CandidateBacked"@, para_id),
            views(included@) == candidates_in(events@, i as nat, "CandidateIncluded"@, para_id),
        decreases events@.len() - i,
    {
        let event = &events[i];
        if same_text(event.pallet.as_str(), "ParaInclusion") {
            let is_backed = same_text(event.variant.as_str(), "CandidateBacked");
            let is_included = same_text(event.variant.as_str(), "CandidateIncluded");
            if is_backed || is_included {
                if let Some(fields) = &event.fields {
                    if let Some(candidate) = extract_para_candidate_event(fields, para_id) {
                        if is_backed {
                            proof {
                                views_push(backed@, candidate);
                            }
                            backed.push(candidate);
                        } else {
                            proof {
                                views_push(included@, candidate);
                            }
                            included.push(candidate);
                        }
                    }
                }
            }
        }
        i = i + 1;
    }
    (backed, included)
}

/// What the queries of one block gave: its hash, and the rest as far as the queries succeeded.
pub struct BlockReplies {
    pub block_number: u32,
    pub block_hash: [u8; 32],
    pub session_index: Option<u32>,
    pub events: Option<Vec<ChainEvent>>,
    pub claim_queue: Option<ScaleValue>,
}

/// What is known of a block: zero for a session that is not known, and nothing for what could not
/// be read.
pub open spec fn block_info(r: BlockReplies, para_id: u32) -> OnChainBlockInfoView {
    OnChainBlockInfoView {
        block_number: r.block_number,
        block_hash: r.block_hash@,
        session_index: match r.session_index {
            Some(s) => s,
            None => 0,
        },
        backed_para_candidates: match r.events {
            Some(e) => candidates_in(e@, e@.len(), "CandidateBacked"@, para_id),
            None => Seq::empty(),
        },
        included_para_candidates: match r.events {
            Some(e) => candidates_in(e@, e@.len(), "CandidateIncluded"@, para_id),
            None => Seq::empty(),
        },
        claim_queue_cores: match r.claim_queue {
            Some(q) => cores_in(map_entries(q), map_entries(q).len(), para_id),
            None => Seq::empty(),
        },
    }
}

/// How many of the queries that count as failures failed: those of the session and of the events.
pub open spec fn failed_queries(r: BlockReplies) -> nat {
    (if r.session_index is None {
        1nat
    } else {
        0nat
    }) + (if r.events is None {
        1nat
    } else {
        0nat
    })
}

/// Puts together what is known of a block, and counts the queries that failed.
pub fn assemble_block(r: &BlockReplies, para_id: u32) -> (info: (OnChainBlockInfo, u32))
    ensures
        info.0@ == block_info(*r, para_id),
        info.1 == failed_queries(*r),
{
    let mut failures: u32 = 0;
    let session_index = match r.session_index {
        Some(s) => s,
        None => {
            failures = failures + 1;
            0
        },
    };
    let (backed, included) = match &r.events {
        Some(events) => candidate_events(events, para_id),
        None => {
            failures = failures + 1;
            (Vec::new(), Vec::new())
        },
    };
    let claim_queue_cores = match &r.claim_queue {
        Some(queue) => extract_claim_queue_for_para(queue, para_id),
        None => Vec::new(),
    };
    let info = OnChainBlockInfo {
        block_number: r.block_number,
        block_hash: r.block_hash,
        session_index,
        backed_para_candidates: backed,
        included_para_candidates: included,
        claim_queue_cores,
    };
    assert(info@ =~= block_info(*r, para_id));
    (info, failures)
}

/// What is known of blocks, by number.
pub open spec fn chain_view(m: Map<u32, OnChainBlockInfo>) -> Map<u32, OnChainBlockInfoView> {
    m.map_values(|info: OnChainBlockInfo| info@)
}

/// What the first `n` blocks tell, by number; a later one counts.
pub open spec fn blocks_by_number(blocks: Seq<OnChainBlockInfoView>, n: nat) -> Map<
    u32,
    OnChainBlockInfoView,
>
    decreases n,
{
    if n == 0 {
        Map::empty()
    } else {
        blocks_by_number(blocks, (n - 1) as nat).insert(
            blocks[n - 1].block_number,
            blocks[n - 1],
        )
    }
}

/// Orders what is known of blocks by their numbers.
pub fn index_blocks(blocks: Vec<OnChainBlockInfo>) -> (by_number: BTreeMap<u32, OnChainBlockInfo>)
    ensures
        chain_view(by_number@) == blocks_by_number(views(blocks@), blocks@.len()),
{
    let mut by_number: BTreeMap<u32, OnChainBlockInfo> = BTreeMap::new();
    assert(chain_view(by_number@) =~= Map::<u32, OnChainBlockInfoView>::empty());
    let mut i: usize = 0;
    while i < blocks.len()
        invariant
            i <= blocks@.len(),
            chain_view(by_number@) == blocks_by_number(views(blocks@), i as nat),
        decreases blocks@.len() - i,
    {
        let info = blocks[i].clone();
        let ghost before = by_number@;
        by_number.insert(info.block_number, info);
        assert(chain_view(by_number@) =~= chain_view(before).insert(info.block_number, info@));
        i = i + 1;
    }
    by_number
}

// ---- Trying again ----
/// How often a query is tried again.
pub const MAX_RETRIES: u32 = 3;

/// The time to wait before a query is tried again for the first time.
pub const RETRY_BASE_MS: u64 = 500;

/// How long to wait after the failure of attempt number `attempt`, counted from zero: twice as long
/// each time; `None` after the last attempt.
pub fn retry_delay_ms(attempt: u32) -> (delay: Option<u64>)
    ensures
        delay == if attempt < MAX_RETRIES {
            Some((RETRY_BASE_MS * vstd::arithmetic::power2::pow2(attempt as nat)) as u64)
        } else {
            None
        },
{
    if attempt >= MAX_RETRIES {
        return None;
    }
    proof {
        vstd::arithmetic::power2::lemma2_to64();
    }
    let factor: u64 = if attempt == 0 {
        1
    } else if attempt == 1 {
        2
    } else {
        4
    };
    Some(RETRY_BASE_MS * factor)
}

// ---- Session boundaries ----
/// The first block from `lo` on, up to `hi`, that bisection finds in a session not before `target`.
pub open spec fn bisected(session: spec_fn(u32) -> u32, lo: u32, hi: u32, target: u32) -> u32
    decreases hi - lo,
{
    if lo >= hi {
        lo
    } else {
        let mid = (lo + (hi - lo) / 2) as u32;
        if session(mid) < target {
            bisected(session, (mid + 1) as u32, hi, target)
        } else {
            bisected(session, lo, mid, target)
        }
    }
}

/// The boundaries of the sessions `from` to `last`: block, session before and session after.
pub open spec fn boundaries_of(
    session: spec_fn(u32) -> u32,
    start: u32,
    end: u32,
    from: int,
    last: int,
) -> Seq<(u32, u32, u32)>
    decreases last + 1 - from,
{
    if from > last {
        Seq::empty()
    } else {
        seq![
            (
                bisected(session, start, end, from as u32),
                (from - 1) as u32,
                from as u32,
            ),
        ] + boundaries_of(session, start, end, from + 1, last)
    }
}

/// The session boundaries in a block range: one for each session that starts in it.
pub open spec fn session_boundaries(session: spec_fn(u32) -> u32, start: u32, end: u32) -> Seq<
    (u32, u32, u32),
> {
    if start >= end {
        Seq::empty()
    } else {
        boundaries_of(session, start, end, session(start) + 1, session(end) as int)
    }
}

/// How far the search for session boundaries is.
#[derive(Clone, Copy, Debug, PartialEq, Eq, Structural)]
pub enum SearchPhase {
    /// The session of the first block is wanted.
    Start,
    /// The session of the last block is wanted.
    End { start_session: u32 },
    /// The start of session `target`, of those up to `last`, is between blocks `lo` and `hi`.
    Bisect { target: u32, last: u32, lo: u32, hi: u32 },
    /// Everything is found.
    Done,
}

/// A search for the session boundaries in a block range, which asks for the sessions of blocks.
pub struct SessionSearch {
    start: u32,
    end: u32,
    phase: SearchPhase,
    boundaries: Vec<(u32, u32, u32)>,
}

/// The state of a search.
#[verifier::ext_equal]
pub struct SessionSearchView {
    pub start: u32,
    pub end: u32,
    pub phase: SearchPhase,
    pub boundaries: Seq<(u32, u32, u32)>,
}

impl View for SessionSearch {
    type V = SessionSearchView;

    closed spec fn view(&self) -> SessionSearchView {
        SessionSearchView {
            start: self.start,
            end: self.end,
            phase: self.phase,
            boundaries: self.boundaries@,
        }
    }
}

/// What every search keeps.
pub open spec fn search_ok(s: SessionSearchView) -> bool {
    match s.phase {
        SearchPhase::Start => s.start < s.end && s.boundaries.len() == 0,
        SearchPhase::End { .. } => s.start < s.end && s.boundaries.len() == 0,
        SearchPhase::Bisect { target, last, lo, hi } => s.start <= lo < hi <= s.end && 0 < target
            <= last,
        SearchPhase::Done => true,
    }
}

/// The block whose session is wanted next.
pub open spec fn wanted_block(s: SessionSearchView) -> Option<u32> {
    match s.phase {
        SearchPhase::Start => Some(s.start),
        SearchPhase::End { .. } => Some(s.end),
        SearchPhase::Bisect { lo, hi, .. } => Some((lo + (hi - lo) / 2) as u32),
        SearchPhase::Done => None,
    }
}

/// The search after the session of the wanted block came in.
pub open spec fn after_answer(s: SessionSearchView, session: u32) -> SessionSearchView {
    match s.phase {
        SearchPhase::Start => SessionSearchView {
            phase: SearchPhase::End { start_session: session },
            ..s
        },
        SearchPhase::End { start_session } => if start_session < session {
            SessionSearchView {
                phase: SearchPhase::Bisect {
                    target: (start_session + 1) as u32,
                    last: session,
                    lo: s.start,
                    hi: s.end,
                },
                ..s
            }
        } else {
            SessionSearchView { phase: SearchPhase::Done, ..s }
        },
        SearchPhase::Bisect { target, last, lo, hi } => {
            let mid = (lo + (hi - lo) / 2) as u32;
            let (low, high) = if session < target {
                ((mid + 1) as u32, hi)
            } else {
                (lo, mid)
            };
            if low < high {
                SessionSearchView {
                    phase: SearchPhase::Bisect { target, last, lo: low, hi: high },
                    ..s
                }
            } else {
                let found = s.boundaries.push((low, (target - 1) as u32, target));
                SessionSearchView {
                    phase: if target < last {
                        SearchPhase::Bisect {
                            target: (target + 1) as u32,
                            last,
                            lo: s.start,
                            hi: s.end,
                        }
                    } else {
                        SearchPhase::Done
                    },
                    boundaries: found,
                    ..s
                }
            }
        },
        SearchPhase::Done => s,
    }
}

impl SessionSearch {
    /// The search keeps what every search keeps.
    pub closed spec fn wf(&self) -> bool {
        search_ok(self@)
    }

    /// A search for the session boundaries between two blocks.
    pub fn new(start_block: u32, end_block: u32) -> (search: Self)
        ensures
            search.wf(),
            search@ == (SessionSearchView {
                start: start_block,
                end: end_block,
                phase: if start_block < end_block {
                    SearchPhase::Start
                } else {
                    SearchPhase::Done
                },
                boundaries: Seq::empty(),
            }),
    {
        let search = SessionSearch {
            start: start_block,
            end: end_block,
            phase: if start_block < end_block {
                SearchPhase::Start
            } else {
                SearchPhase::Done
            },
            boundaries: Vec::new(),
        };
        assert(search@.boundaries =~= Seq::empty());
        search
    }

    /// The block whose session is wanted next; `None` where everything is found.
    pub fn next_block(&self) -> (block: Option<u32>)
        requires
            self.wf(),
        ensures
            block == wanted_block(self@),
    {
        match self.phase {
            SearchPhase::Start => Some(self.start),
            SearchPhase::End { .. } => Some(self.end),
            SearchPhase::Bisect { lo, hi, .. } => Some(lo + (hi - lo) / 2),
            SearchPhase::Done => None,
        }
    }

    /// Takes the session of the wanted block.
    pub fn answer(&mut self, session: u32)
        requires
            old(self).wf(),
        ensures
            final(self).wf(),
            final(self)@ == after_answer(old(self)@, session),
    {
        match self.phase {
            SearchPhase::Start => {
                self.phase = SearchPhase::End { start_session: session };
            },
            SearchPhase::End { start_session } => {
                if start_session < session {
                    self.phase = SearchPhase::Bisect {
                        target: start_session + 1,
                        last: session,
                        lo: self.start,
                        hi: self.end,
                    };
                } else {
                    self.phase = SearchPhase::Done;
                }
            },
            SearchPhase::Bisect { target, last, lo, hi } => {
                let mid = lo + (hi - lo) / 2;
                let (low, high) = if session < target {
                    (mid + 1, hi)
                } else {
                    (lo, mid)
                };
                if low < high {
                    self.phase = SearchPhase::Bisect { target, last, lo: low, hi: high };
                } else {
                    self.boundaries.push((low, target - 1, target));
                    if target < last {
                        self.phase = SearchPhase::Bisect {
                            target: target + 1,
                            last,
                            lo: self.start,
                            hi: self.end,
                        };
                    } else {
                        self.phase = SearchPhase::Done;
                    }
                }
            },
            SearchPhase::Done => {},
        }
        assert(self@ =~= after_answer(old(self)@, session));
    }

    /// The boundaries found so far: block, session before and session after.
    pub fn boundaries(&self) -> (boundaries: &Vec<(u32, u32, u32)>)
        ensures
            boundaries@ == self@.boundaries,
    {
        &self.boundaries
    }
}

/// What a search finds in the end, where every answer is the block's session.
pub open spec fn outcome(s: SessionSearchView, session: spec_fn(u32) -> u32) -> Seq<
    (u32, u32, u32),
> {
    match s.phase {
        SearchPhase::Start => session_boundaries(session, s.start, s.end),
        SearchPhase::End { start_session } => boundaries_of(
            session,
            s.start,
            s.end,
            start_session + 1,
            session(s.end) as int,
        ),
        SearchPhase::Bisect { target, last, lo, hi } => s.boundaries + seq![
            (bisected(session, lo, hi, target), (target - 1) as u32, target),
        ] + boundaries_of(session, s.start, s.end, target + 1, last as int),
        SearchPhase::Done => s.boundaries,
    }
}

/// How many sessions are still looked for.
pub open spec fn sessions_left(s: SessionSearchView) -> int {
    match s.phase {
        SearchPhase::Start => 0x1_0000_0002,
        SearchPhase::End { .. } => 0x1_0000_0001,
        SearchPhase::Bisect { target, last, .. } => last - target + 1,
        SearchPhase::Done => 0,
    }
}

/// How many blocks are in question for the session that is looked for.
pub open spec fn blocks_left(s: SessionSearchView) -> int {
    match s.phase {
        SearchPhase::Bisect { lo, hi, .. } => hi - lo,
        _ => 0,
    }
}

/// An answer with the block's session does not change what the search finds in the end, and brings
/// the end nearer.
pub proof fn answer_keeps_outcome(s: SessionSearchView, session: spec_fn(u32) -> u32)
    requires
        search_ok(s),
        wanted_block(s) is Some,
    ensures
        ({
            let next = after_answer(s, session(wanted_block(s)->0));
            &&& search_ok(next)
            &&& outcome(next, session) == outcome(s, session)
            &&& decreases_to!(
                sessions_left(s), blocks_left(s) => sessions_left(next), blocks_left(next)
            )
        }),
{
    let block = wanted_block(s)->0;
    let next = after_answer(s, session(block));
    match s.phase {
        SearchPhase::Start => {},
        SearchPhase::End { start_session } => {
            assert(outcome(next, session) =~= outcome(s, session));
        },
        SearchPhase::Bisect { target, last, lo, hi } => {
            assert(bisected(session, lo, hi, target) == {
                if session(block) < target {
                    bisected(session, (block + 1) as u32, hi, target)
                } else {
                    bisected(session, lo, block, target)
                }
            });
            assert(outcome(next, session) =~= outcome(s, session));
        },
        SearchPhase::Done => {},
    }
}

/// A search after at most `n` answers with the sessions of the wanted blocks.
pub open spec fn after_answers(
    s: SessionSearchView,
    session: spec_fn(u32) -> u32,
    n: nat,
) -> SessionSearchView
    decreases n,
{
    match wanted_block(s) {
        Some(block) if n > 0 => after_answers(
            after_answer(s, session(block)),
            session,
            (n - 1) as nat,
        ),
        _ => s,
    }
}

/// A search that is answered with the sessions of the blocks, and wants no more of them, has found
/// the session boundaries.
pub proof fn finished_search_has_boundaries(
    s: SessionSearchView,
    session: spec_fn(u32) -> u32,
    n: nat,
)
    requires
        search_ok(s),
    ensures
        wanted_block(after_answers(s, session, n)) is None ==> after_answers(
            s,
            session,
            n,
        ).boundaries == outcome(s, session),
        s.phase is Start ==> outcome(s, session) == session_boundaries(session, s.start, s.end),
    decreases n,
{
    if n > 0 && wanted_block(s) is Some {
        answer_keeps_outcome(s, session);
        finished_search_has_boundaries(
            after_answer(s, session(wanted_block(s)->0)),
            session,
            (n - 1) as nat,
        );
    }
}

/// A search comes to its end.
pub proof fn search_finishes(s: SessionSearchView, session: spec_fn(u32) -> u32)
    requires
        search_ok(s),
    ensures
        exists|n: nat| wanted_block(#[trigger] after_answers(s, session, n)) is None,
    decreases sessions_left(s), blocks_left(s),
{
    if wanted_block(s) is Some {
        answer_keeps_outcome(s, session);
        let next = after_answer(s, session(wanted_block(s)->0));
        search_finishes(next, session);
        let n = choose|n: nat| wanted_block(#[trigger] after_answers(next, session, n)) is None;
        assert(after_answers(s, session, (n + 1) as nat) == after_answers(next, session, n));
    } else {
        assert(after_answers(s, session, 0) == s);
    }
}

/// Where sessions do not go back, bisection finds the least block of a session not before
/// `target`, if the last block is in one.
pub proof fn bisected_is_least(session: spec_fn(u32) -> u32, lo: u32, hi: u32, target: u32)
    requires
        lo <= hi,
        forall|a: u32, b: u32| lo <= a <= b <= hi ==> #[trigger] session(a) <= #[trigger] session(b),
        session(hi) >= target,
    ensures
        lo <= bisected(session, lo, hi, target) <= hi,
        session(bisected(session, lo, hi, target)) >= target,
        forall|a: u32| lo <= a < bisected(session, lo, hi, target) ==> #[trigger] session(a) < target,
    decreases hi - lo,
{
    if lo < hi {
        let mid = (lo + (hi - lo) / 2) as u32;
        if session(mid) < target {
            bisected_is_least(session, (mid + 1) as u32, hi, target);
            assert forall|a: u32| lo <= a < bisected(session, lo, hi, target) implies #[trigger] session(
                a,
            ) < target by {
                if a <= mid {
                    assert(session(a) <= session(mid));
                }
            }
        } else {
            bisected_is_least(session, lo, mid, target);
        }
    }
}

proof fn boundaries_of_at(
    session: spec_fn(u32) -> u32,
    start: u32,
    end: u32,
    from: int,
    last: int,
)
    requires
        from <= last + 1,
    ensures
        boundaries_of(session, start, end, from, last).len() == last + 1 - from,
        forall|k: int|
            0 <= k <= last - from ==> #[trigger] boundaries_of(session, start, end, from, last)[k]
                == (
                bisected(session, start, end, (from + k) as u32),
                (from + k - 1) as u32,
                (from + k) as u32,
            ),
    decreases last + 1 - from,
{
    if from <= last {
        boundaries_of_at(session, start, end, from + 1, last);
        let rest = boundaries_of(session, start, end, from + 1, last);
        assert forall|k: int| 0 <= k <= last - from implies #[trigger] boundaries_of(
            session,
            start,
            end,
            from,
            last,
        )[k] == (
            bisected(session, start, end, (from + k) as u32),
            (from + k - 1) as u32,
            (from + k) as u32,
        ) by {
            if k > 0 {
                assert(boundaries_of(session, start, end, from, last)[k] == rest[k - 1]);
            }
        }
    }
}

/// Where sessions do not go back, the boundaries are, for each session after that of the first
/// block up to that of the last, the first block that is in no earlier session.
pub proof fn boundaries_are_session_starts(session: spec_fn(u32) -> u32, start: u32, end: u32)
    requires
        start < end,
        forall|a: u32, b: u32|
            start <= a <= b <= end ==> #[trigger] session(a) <= #[trigger] session(b),
    ensures
        session_boundaries(session, start, end).len() == session(end) - session(start),
        forall|k: int|
            #![trigger session_boundaries(session, start, end)[k]]
            0 <= k < session(end) - session(start) ==> {
                let (block, before, after) = session_boundaries(session, start, end)[k];
                &&& after == session(start) + 1 + k
                &&& before == after - 1
                &&& start < block <= end
                &&& session(block) >= after
                &&& forall|a: u32| start <= a < block ==> #[trigger] session(a) < after
            },
{
    assert(session(start) <= session(end));
    let first = session(start) + 1;
    boundaries_of_at(session, start, end, first, session(end) as int);
    assert forall|k: int|
        #![trigger session_boundaries(session, start, end)[k]]
        0 <= k < session(end) - session(start) implies {
        let (block, before, after) = session_boundaries(session, start, end)[k];
        &&& after == session(start) + 1 + k
        &&& before == after - 1
        &&& start < block <= end
        &&& session(block) >= after
        &&& forall|a: u32| start <= a < block ==> #[trigger] session(a) < after
    } by {
        let target = (first + k) as u32;
        bisected_is_least(session, start, end, target);
        assert(session(start) < target);
    }
}

} // verus!
