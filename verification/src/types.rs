//! The events of a log, the data read from the relay chain, and the results of the analyses, each
//! with the mathematical model that the contracts speak of.

use crate::hash::{HashRegistry, LogHash, LogHashView, RegistryView};
use crate::model::{copy_text, copy_texts, opt_view, views};
use crate::time::Timestamp;
use vstd::prelude::*;

verus! {

fn copy_hash(v: &Option<LogHash>) -> (copy: Option<LogHash>)
    ensures
        opt_view(copy) == opt_view(*v),
{
    match v {
        Some(h) => Some(h.clone()),
        None => None,
    }
}

fn copy_bytes(v: &Option<Vec<u8>>) -> (copy: Option<Vec<u8>>)
    ensures
        opt_view(copy) == opt_view(*v),
{
    match v {
        Some(b) => {
            let copy = b.clone();
            assert(copy@ =~= b@);
            Some(copy)
        },
        None => None,
    }
}

// ---- Parsed log event types ----
/// A parachain block import.
#[derive(Debug)]
pub struct ParaBlockImport {
    pub block_number: u32,
    pub parent_hash: LogHash,
    pub block_hash: LogHash,
    pub timestamp: Timestamp,
    /// true = 🏆 (best/new block), false = 🆕 (non-best/reorg)
    pub is_best: bool,
    /// Which collator this event came from (set in multi-collator mode)
    pub collator: Option<String>,
}

/// What a `ParaBlockImport` holds.
#[verifier::ext_equal]
pub struct ParaBlockImportView {
    pub block_number: u32,
    pub parent_hash: LogHashView,
    pub block_hash: LogHashView,
    pub timestamp: int,
    pub is_best: bool,
    pub collator: Option<Seq<char>>,
}

impl View for ParaBlockImport {
    type V = ParaBlockImportView;

    open spec fn view(&self) -> ParaBlockImportView {
        ParaBlockImportView {
            block_number: self.block_number,
            parent_hash: self.parent_hash@,
            block_hash: self.block_hash@,
            timestamp: self.timestamp@,
            is_best: self.is_best,
            collator: opt_view(self.collator),
        }
    }
}

impl Clone for ParaBlockImport {
    fn clone(&self) -> (copy: Self)
        ensures
            copy@ == self@,
    {
        let copy = ParaBlockImport {
            block_number: self.block_number,
            parent_hash: self.parent_hash.clone(),
            block_hash: self.block_hash.clone(),
            timestamp: self.timestamp,
            is_best: self.is_best,
            collator: copy_text(&self.collator),
        };
        copy
    }
}

/// A relay chain block import.
#[derive(Debug)]
pub struct RelayBlockImport {
    pub block_number: u32,
    pub parent_hash: LogHash,
    pub block_hash: LogHash,
    pub timestamp: Timestamp,
}

/// What a `RelayBlockImport` holds.
#[verifier::ext_equal]
pub struct RelayBlockImportView {
    pub block_number: u32,
    pub parent_hash: LogHashView,
    pub block_hash: LogHashView,
    pub timestamp: int,
}

impl View for RelayBlockImport {
    type V = RelayBlockImportView;

    open spec fn view(&self) -> RelayBlockImportView {
        RelayBlockImportView {
            block_number: self.block_number,
            parent_hash: self.parent_hash@,
            block_hash: self.block_hash@,
            timestamp: self.timestamp@,
        }
    }
}

impl Clone for RelayBlockImport {
    fn clone(&self) -> (copy: Self)
        ensures
            copy@ == self@,
    {
        let copy = RelayBlockImport {
            block_number: self.block_number,
            parent_hash: self.parent_hash.clone(),
            block_hash: self.block_hash.clone(),
            timestamp: self.timestamp,
        };
        copy
    }
}

/// A decision to build, or not to build, on a relay parent.
#[derive(Debug)]
pub struct BuildAttempt {
    /// true = "Building block", false = "Not building block"
    pub building: bool,
    pub unincluded_segment_len: u32,
    pub relay_parent: LogHash,
    pub relay_parent_num: u32,
    pub relay_parent_offset: Option<u32>,
    pub included_hash: LogHash,
    pub included_num: u32,
    pub parent: LogHash,
    pub slot: u64,
    pub timestamp: Timestamp,
}

/// What a `BuildAttempt` holds.
#[verifier::ext_equal]
pub struct BuildAttemptView {
    pub building: bool,
    pub unincluded_segment_len: u32,
    pub relay_parent: LogHashView,
    pub relay_parent_num: u32,
    pub relay_parent_offset: Option<u32>,
    pub included_hash: LogHashView,
    pub included_num: u32,
    pub parent: LogHashView,
    pub slot: u64,
    pub timestamp: int,
}

impl View for BuildAttempt {
    type V = BuildAttemptView;

    open spec fn view(&self) -> BuildAttemptView {
        BuildAttemptView {
            building: self.building,
            unincluded_segment_len: self.unincluded_segment_len,
            relay_parent: self.relay_parent@,
            relay_parent_num: self.relay_parent_num,
            relay_parent_offset: self.relay_parent_offset,
            included_hash: self.included_hash@,
            included_num: self.included_num,
            parent: self.parent@,
            slot: self.slot,
            timestamp: self.timestamp@,
        }
    }
}

impl Clone for BuildAttempt {
    fn clone(&self) -> (copy: Self)
        ensures
            copy@ == self@,
    {
        let copy = BuildAttempt {
            building: self.building,
            unincluded_segment_len: self.unincluded_segment_len,
            relay_parent: self.relay_parent.clone(),
            relay_parent_num: self.relay_parent_num,
            relay_parent_offset: self.relay_parent_offset,
            included_hash: self.included_hash.clone(),
            included_num: self.included_num,
            parent: self.parent.clone(),
            slot: self.slot,
            timestamp: self.timestamp,
        };
        copy
    }
}

/// A block sealed by the collator itself.
#[derive(Debug)]
pub struct PreSealedBlock {
    pub block_number: u32,
    /// The hash after sealing (whole)
    pub post_hash: LogHash,
    /// The hash before sealing (whole)
    pub pre_hash: LogHash,
    pub timestamp: Timestamp,
}

/// What a `PreSealedBlock` holds.
#[verifier::ext_equal]
pub struct PreSealedBlockView {
    pub block_number: u32,
    pub post_hash: LogHashView,
    pub pre_hash: LogHashView,
    pub timestamp: int,
}

impl View for PreSealedBlock {
    type V = PreSealedBlockView;

    open spec fn view(&self) -> PreSealedBlockView {
        PreSealedBlockView {
            block_number: self.block_number,
            post_hash: self.post_hash@,
            pre_hash: self.pre_hash@,
            timestamp: self.timestamp@,
        }
    }
}

impl Clone for PreSealedBlock {
    fn clone(&self) -> (copy: Self)
        ensures
            copy@ == self@,
    {
        let copy = PreSealedBlock {
            block_number: self.block_number,
            post_hash: self.post_hash.clone(),
            pre_hash: self.pre_hash.clone(),
            timestamp: self.timestamp,
        };
        copy
    }
}

/// A collation submitted for a core.
#[derive(Debug)]
pub struct CollationSubmission {
    pub core_index: u32,
    pub hash: LogHash,
    pub block_number: u32,
    pub timestamp: Timestamp,
}

/// What a `CollationSubmission` holds.
#[verifier::ext_equal]
pub struct CollationSubmissionView {
    pub core_index: u32,
    pub hash: LogHashView,
    pub block_number: u32,
    pub timestamp: int,
}

impl View for CollationSubmission {
    type V = CollationSubmissionView;

    open spec fn view(&self) -> CollationSubmissionView {
        CollationSubmissionView {
            core_index: self.core_index,
            hash: self.hash@,
            block_number: self.block_number,
            timestamp: self.timestamp@,
        }
    }
}

impl Clone for CollationSubmission {
    fn clone(&self) -> (copy: Self)
        ensures
            copy@ == self@,
    {
        let copy = CollationSubmission {
            core_index: self.core_index,
            hash: self.hash.clone(),
            block_number: self.block_number,
            timestamp: self.timestamp,
        };
        copy
    }
}

/// A peer that connected or disconnected.
#[derive(Debug)]
pub struct PeerConnectionEvent {
    pub peer_id: String,
    pub connected: bool,
    /// Only present where the peer connected
    pub role: Option<String>,
    pub timestamp: Timestamp,
}

/// What a `PeerConnectionEvent` holds.
#[verifier::ext_equal]
pub struct PeerConnectionEventView {
    pub peer_id: Seq<char>,
    pub connected: bool,
    pub role: Option<Seq<char>>,
    pub timestamp: int,
}

impl View for PeerConnectionEvent {
    type V = PeerConnectionEventView;

    open spec fn view(&self) -> PeerConnectionEventView {
        PeerConnectionEventView {
            peer_id: self.peer_id@,
            connected: self.connected,
            role: opt_view(self.role),
            timestamp: self.timestamp@,
        }
    }
}

impl Clone for PeerConnectionEvent {
    fn clone(&self) -> (copy: Self)
        ensures
            copy@ == self@,
    {
        let copy = PeerConnectionEvent {
            peer_id: self.peer_id.clone(),
            connected: self.connected,
            role: copy_text(&self.role),
            timestamp: self.timestamp,
        };
        copy
    }
}

/// How long a validator took to fetch a collation.
#[derive(Debug)]
pub struct CollationFetchLatency {
    pub latency_ms: u64,
    /// The para head (whole)
    pub para_head: LogHash,
    pub para_id: u32,
    pub timestamp: Timestamp,
}

/// What a `CollationFetchLatency` holds.
#[verifier::ext_equal]
pub struct CollationFetchLatencyView {
    pub latency_ms: u64,
    pub para_head: LogHashView,
    pub para_id: u32,
    pub timestamp: int,
}

impl View for CollationFetchLatency {
    type V = CollationFetchLatencyView;

    open spec fn view(&self) -> CollationFetchLatencyView {
        CollationFetchLatencyView {
            latency_ms: self.latency_ms,
            para_head: self.para_head@,
            para_id: self.para_id,
            timestamp: self.timestamp@,
        }
    }
}

impl Clone for CollationFetchLatency {
    fn clone(&self) -> (copy: Self)
        ensures
            copy@ == self@,
    {
        let copy = CollationFetchLatency {
            latency_ms: self.latency_ms,
            para_head: self.para_head.clone(),
            para_id: self.para_id,
            timestamp: self.timestamp,
        };
        copy
    }
}

/// A candidate made for a core.
#[derive(Debug)]
pub struct CandidateGenerated {
    pub candidate_hash: LogHash,
    pub relay_parent: LogHash,
    pub para_id: u32,
    pub core_index: u32,
    pub timestamp: Timestamp,
}

/// What a `CandidateGenerated` holds.
#[verifier::ext_equal]
pub struct CandidateGeneratedView {
    pub candidate_hash: LogHashView,
    pub relay_parent: LogHashView,
    pub para_id: u32,
    pub core_index: u32,
    pub timestamp: int,
}

impl View for CandidateGenerated {
    type V = CandidateGeneratedView;

    open spec fn view(&self) -> CandidateGeneratedView {
        CandidateGeneratedView {
            candidate_hash: self.candidate_hash@,
            relay_parent: self.relay_parent@,
            para_id: self.para_id,
            core_index: self.core_index,
            timestamp: self.timestamp@,
        }
    }
}

impl Clone for CandidateGenerated {
    fn clone(&self) -> (copy: Self)
        ensures
            copy@ == self@,
    {
        let copy = CandidateGenerated {
            candidate_hash: self.candidate_hash.clone(),
            relay_parent: self.relay_parent.clone(),
            para_id: self.para_id,
            core_index: self.core_index,
            timestamp: self.timestamp,
        };
        copy
    }
}

/// A change of the active relay chain heads.
#[derive(Debug)]
pub struct ViewUpdate {
    pub heads: Vec<String>,
    pub finalized_number: u32,
    pub timestamp: Timestamp,
}

/// What a `ViewUpdate` holds.
#[verifier::ext_equal]
pub struct ViewUpdateView {
    pub heads: Seq<Seq<char>>,
    pub finalized_number: u32,
    pub timestamp: int,
}

impl View for ViewUpdate {
    type V = ViewUpdateView;

    open spec fn view(&self) -> ViewUpdateView {
        ViewUpdateView {
            heads: views(self.heads@),
            finalized_number: self.finalized_number,
            timestamp: self.timestamp@,
        }
    }
}

impl Clone for ViewUpdate {
    fn clone(&self) -> (copy: Self)
        ensures
            copy@ == self@,
    {
        let copy = ViewUpdate {
            heads: copy_texts(&self.heads),
            finalized_number: self.finalized_number,
            timestamp: self.timestamp,
        };
        copy
    }
}

/// A "Collation expired" log event from the collator protocol.
/// Shows why a collation was not included: the `collation_state` tells
/// how far the collation got in the pipeline before it expired.
#[derive(Debug)]
pub struct CollationExpired {
    /// How far through the pipeline: "created", "advertised", "requested", "fetched", "backed"
    pub collation_state: String,
    /// Relay parent block number
    pub relay_parent_num: u32,
    /// Relay parent hash (may be truncated)
    pub relay_parent_hash: LogHash,
    /// Age in relay blocks when it expired
    pub age: Option<u32>,
    /// Para block head hash
    pub head: Option<LogHash>,
    /// Candidate hash
    pub candidate_hash: Option<LogHash>,
    /// Timestamp of the "Collation expired" log entry
    pub timestamp: Timestamp,
    /// When the block was sealed (from the Pre-sealed block log)
    pub produced_at: Option<Timestamp>,
    /// When the collation was submitted (from the Submitting collation log)
    pub advertised_at: Option<Timestamp>,
    /// When a validator fetched the collation (from the fetch latency log)
    pub fetched_at: Option<Timestamp>,
    /// Validator peer IDs this candidate was advertised to
    pub advertised_to_peers: Vec<String>,
}

/// What a `CollationExpired` holds.
#[verifier::ext_equal]
pub struct CollationExpiredView {
    pub collation_state: Seq<char>,
    pub relay_parent_num: u32,
    pub relay_parent_hash: LogHashView,
    pub age: Option<u32>,
    pub head: Option<LogHashView>,
    pub candidate_hash: Option<LogHashView>,
    pub timestamp: int,
    pub produced_at: Option<int>,
    pub advertised_at: Option<int>,
    pub fetched_at: Option<int>,
    pub advertised_to_peers: Seq<Seq<char>>,
}

impl View for CollationExpired {
    type V = CollationExpiredView;

    open spec fn view(&self) -> CollationExpiredView {
        CollationExpiredView {
            collation_state: self.collation_state@,
            relay_parent_num: self.relay_parent_num,
            relay_parent_hash: self.relay_parent_hash@,
            age: self.age,
            head: opt_view(self.head),
            candidate_hash: opt_view(self.candidate_hash),
            timestamp: self.timestamp@,
            produced_at: opt_view(self.produced_at),
            advertised_at: opt_view(self.advertised_at),
            fetched_at: opt_view(self.fetched_at),
            advertised_to_peers: views(self.advertised_to_peers@),
        }
    }
}

impl Clone for CollationExpired {
    fn clone(&self) -> (copy: Self)
        ensures
            copy@ == self@,
    {
        let copy = CollationExpired {
            collation_state: self.collation_state.clone(),
            relay_parent_num: self.relay_parent_num,
            relay_parent_hash: self.relay_parent_hash.clone(),
            age: self.age,
            head: copy_hash(&self.head),
            candidate_hash: copy_hash(&self.candidate_hash),
            timestamp: self.timestamp,
            produced_at: self.produced_at,
            advertised_at: self.advertised_at,
            fetched_at: self.fetched_at,
            advertised_to_peers: copy_texts(&self.advertised_to_peers),
        };
        copy
    }
}

/// The validators that a candidate was advertised to.
#[derive(Debug)]
pub struct AdvertisedCandidate {
    /// The candidate hash as logged
    pub candidate_hash: String,
    /// Peer IDs, without repetition
    pub peers: Vec<String>,
}

/// What an `AdvertisedCandidate` holds.
#[verifier::ext_equal]
pub struct AdvertisedCandidateView {
    pub candidate_hash: Seq<char>,
    pub peers: Seq<Seq<char>>,
}

impl View for AdvertisedCandidate {
    type V = AdvertisedCandidateView;

    open spec fn view(&self) -> AdvertisedCandidateView {
        AdvertisedCandidateView {
            candidate_hash: self.candidate_hash@,
            peers: views(self.peers@),
        }
    }
}

impl Clone for AdvertisedCandidate {
    fn clone(&self) -> (copy: Self)
        ensures
            copy@ == self@,
    {
        let copy = AdvertisedCandidate {
            candidate_hash: self.candidate_hash.clone(),
            peers: copy_texts(&self.peers),
        };
        copy
    }
}

/// All events parsed from the log file, in chronological order.
pub struct ParsedLog {
    pub para_imports: Vec<ParaBlockImport>,
    pub relay_imports: Vec<RelayBlockImport>,
    pub build_attempts: Vec<BuildAttempt>,
    pub pre_sealed: Vec<PreSealedBlock>,
    pub collation_submissions: Vec<CollationSubmission>,
    pub collation_fetches: Vec<CollationFetchLatency>,
    pub candidates_generated: Vec<CandidateGenerated>,
    pub view_updates: Vec<ViewUpdate>,
    pub collation_expired: Vec<CollationExpired>,
    /// The validators advertised to, by candidate
    pub advertising_peers: Vec<AdvertisedCandidate>,
    /// Peers that connected or disconnected on the collation peer set
    pub peer_connections: Vec<PeerConnectionEvent>,
    pub hash_registry: HashRegistry,
}

/// What a `ParsedLog` holds.
#[verifier::ext_equal]
pub struct ParsedLogView {
    pub para_imports: Seq<ParaBlockImportView>,
    pub relay_imports: Seq<RelayBlockImportView>,
    pub build_attempts: Seq<BuildAttemptView>,
    pub pre_sealed: Seq<PreSealedBlockView>,
    pub collation_submissions: Seq<CollationSubmissionView>,
    pub collation_fetches: Seq<CollationFetchLatencyView>,
    pub candidates_generated: Seq<CandidateGeneratedView>,
    pub view_updates: Seq<ViewUpdateView>,
    pub collation_expired: Seq<CollationExpiredView>,
    pub advertising_peers: Seq<AdvertisedCandidateView>,
    pub peer_connections: Seq<PeerConnectionEventView>,
    pub hash_registry: RegistryView,
}

impl View for ParsedLog {
    type V = ParsedLogView;

    open spec fn view(&self) -> ParsedLogView {
        ParsedLogView {
            para_imports: views(self.para_imports@),
            relay_imports: views(self.relay_imports@),
            build_attempts: views(self.build_attempts@),
            pre_sealed: views(self.pre_sealed@),
            collation_submissions: views(self.collation_submissions@),
            collation_fetches: views(self.collation_fetches@),
            candidates_generated: views(self.candidates_generated@),
            view_updates: views(self.view_updates@),
            collation_expired: views(self.collation_expired@),
            advertising_peers: views(self.advertising_peers@),
            peer_connections: views(self.peer_connections@),
            hash_registry: self.hash_registry@,
        }
    }
}

// ---- On-chain data types ----
/// A candidate of a parachain that was backed or included.
#[derive(Debug)]
pub struct ParaCandidateEvent {
    pub para_id: u32,
    pub relay_parent: Option<[u8; 32]>,
    pub core_index: Option<u32>,
    pub group_index: Option<u32>,
    pub para_head_data: Option<Vec<u8>>,
}

/// What a `ParaCandidateEvent` holds.
#[verifier::ext_equal]
pub struct ParaCandidateEventView {
    pub para_id: u32,
    pub relay_parent: Option<Seq<u8>>,
    pub core_index: Option<u32>,
    pub group_index: Option<u32>,
    pub para_head_data: Option<Seq<u8>>,
}

impl View for ParaCandidateEvent {
    type V = ParaCandidateEventView;

    open spec fn view(&self) -> ParaCandidateEventView {
        ParaCandidateEventView {
            para_id: self.para_id,
            relay_parent: opt_view(self.relay_parent),
            core_index: self.core_index,
            group_index: self.group_index,
            para_head_data: opt_view(self.para_head_data),
        }
    }
}

impl Clone for ParaCandidateEvent {
    fn clone(&self) -> (copy: Self)
        ensures
            copy@ == self@,
    {
        let copy = ParaCandidateEvent {
            para_id: self.para_id,
            relay_parent: self.relay_parent,
            core_index: self.core_index,
            group_index: self.group_index,
            para_head_data: copy_bytes(&self.para_head_data),
        };
        copy
    }
}

/// What a relay block says about a parachain.
#[derive(Debug)]
pub struct OnChainBlockInfo {
    pub block_number: u32,
    pub block_hash: [u8; 32],
    pub session_index: u32,
    pub backed_para_candidates: Vec<ParaCandidateEvent>,
    pub included_para_candidates: Vec<ParaCandidateEvent>,
    /// Core indices where the para is in the claim queue at this relay block.
    /// Empty means the para was not scheduled on any core.
    pub claim_queue_cores: Vec<u32>,
}

/// What an `OnChainBlockInfo` holds.
#[verifier::ext_equal]
pub struct OnChainBlockInfoView {
    pub block_number: u32,
    pub block_hash: Seq<u8>,
    pub session_index: u32,
    pub backed_para_candidates: Seq<ParaCandidateEventView>,
    pub included_para_candidates: Seq<ParaCandidateEventView>,
    pub claim_queue_cores: Seq<u32>,
}

impl View for OnChainBlockInfo {
    type V = OnChainBlockInfoView;

    open spec fn view(&self) -> OnChainBlockInfoView {
        OnChainBlockInfoView {
            block_number: self.block_number,
            block_hash: self.block_hash@,
            session_index: self.session_index,
            backed_para_candidates: views(self.backed_para_candidates@),
            included_para_candidates: views(self.included_para_candidates@),
            claim_queue_cores: self.claim_queue_cores@,
        }
    }
}

impl Clone for OnChainBlockInfo {
    fn clone(&self) -> (copy: Self)
        ensures
            copy@ == self@,
    {
        let copy = OnChainBlockInfo {
            block_number: self.block_number,
            block_hash: self.block_hash,
            session_index: self.session_index,
            backed_para_candidates: self.backed_para_candidates.clone(),
            included_para_candidates: self.included_para_candidates.clone(),
            claim_queue_cores: self.claim_queue_cores.clone(),
        };
        assert(views(copy.backed_para_candidates@) =~= views(self.backed_para_candidates@));
        assert(views(copy.included_para_candidates@) =~= views(self.included_para_candidates@));
        assert(copy.claim_queue_cores@ =~= self.claim_queue_cores@);
        copy
    }
}

// ---- Analysis types ----
/// Why a block was dropped.
#[derive(Debug)]
pub enum DropReason {
    /// Lost during a validator session transition.
    SessionBoundary { session_before: u32, session_after: u32, boundary_relay_block: u32 },
    /// The relay parent fell outside the viability window before backing.
    RelayParentExpired { relay_parent_num: u32, viability_window: u32 },
    /// The relay parent was on a pruned chain.
    WrongFork { relay_parent_num: u32, relay_parent_hash: LogHash },
    /// Insufficient data to determine the cause.
    Unknown,
}

/// What a `DropReason` says.
#[verifier::ext_equal]
pub enum DropReasonView {
    SessionBoundary { session_before: u32, session_after: u32, boundary_relay_block: u32 },
    RelayParentExpired { relay_parent_num: u32, viability_window: u32 },
    WrongFork { relay_parent_num: u32, relay_parent_hash: LogHashView },
    Unknown,
}

impl View for DropReason {
    type V = DropReasonView;

    open spec fn view(&self) -> DropReasonView {
        match *self {
            DropReason::SessionBoundary { session_before, session_after, boundary_relay_block } => {
                DropReasonView::SessionBoundary {
                    session_before,
                    session_after,
                    boundary_relay_block,
                }
            },
            DropReason::RelayParentExpired { relay_parent_num, viability_window } => {
                DropReasonView::RelayParentExpired { relay_parent_num, viability_window }
            },
            DropReason::WrongFork { relay_parent_num, relay_parent_hash } => {
                DropReasonView::WrongFork {
                    relay_parent_num,
                    relay_parent_hash: relay_parent_hash@,
                }
            },
            DropReason::Unknown => DropReasonView::Unknown,
        }
    }
}

impl Clone for DropReason {
    fn clone(&self) -> (copy: Self)
        ensures
            copy@ == self@,
    {
        match self {
            DropReason::SessionBoundary { session_before, session_after, boundary_relay_block } => {
                DropReason::SessionBoundary {
                    session_before: *session_before,
                    session_after: *session_after,
                    boundary_relay_block: *boundary_relay_block,
                }
            },
            DropReason::RelayParentExpired { relay_parent_num, viability_window } => {
                DropReason::RelayParentExpired {
                    relay_parent_num: *relay_parent_num,
                    viability_window: *viability_window,
                }
            },
            DropReason::WrongFork { relay_parent_num, relay_parent_hash } => {
                DropReason::WrongFork {
                    relay_parent_num: *relay_parent_num,
                    relay_parent_hash: relay_parent_hash.clone(),
                }
            },
            DropReason::Unknown => DropReason::Unknown,
        }
    }
}

/// A locally built block that was not included on-chain.
#[derive(Debug)]
pub struct DroppedBlock {
    pub para_block_number: u32,
    pub para_block_hash: LogHash,
    pub parent_hash: LogHash,
    pub relay_parent_num: u32,
    pub relay_parent_hash: LogHash,
    pub built_at: Timestamp,
    pub collation_fetch_latency_ms: Option<u64>,
    pub reason: DropReason,
    /// On-chain info for relay blocks near this drop
    pub nearby_relay_blocks: Vec<OnChainBlockInfo>,
    /// "Collation expired" log entries for this block's relay parent
    pub collation_expired: Vec<CollationExpired>,
}

/// What a `DroppedBlock` holds.
#[verifier::ext_equal]
pub struct DroppedBlockView {
    pub para_block_number: u32,
    pub para_block_hash: LogHashView,
    pub parent_hash: LogHashView,
    pub relay_parent_num: u32,
    pub relay_parent_hash: LogHashView,
    pub built_at: int,
    pub collation_fetch_latency_ms: Option<u64>,
    pub reason: DropReasonView,
    pub nearby_relay_blocks: Seq<OnChainBlockInfoView>,
    pub collation_expired: Seq<CollationExpiredView>,
}

impl View for DroppedBlock {
    type V = DroppedBlockView;

    open spec fn view(&self) -> DroppedBlockView {
        DroppedBlockView {
            para_block_number: self.para_block_number,
            para_block_hash: self.para_block_hash@,
            parent_hash: self.parent_hash@,
            relay_parent_num: self.relay_parent_num,
            relay_parent_hash: self.relay_parent_hash@,
            built_at: self.built_at@,
            collation_fetch_latency_ms: self.collation_fetch_latency_ms,
            reason: self.reason@,
            nearby_relay_blocks: views(self.nearby_relay_blocks@),
            collation_expired: views(self.collation_expired@),
        }
    }
}

impl Clone for DroppedBlock {
    fn clone(&self) -> (copy: Self)
        ensures
            copy@ == self@,
    {
        let copy = DroppedBlock {
            para_block_number: self.para_block_number,
            para_block_hash: self.para_block_hash.clone(),
            parent_hash: self.parent_hash.clone(),
            relay_parent_num: self.relay_parent_num,
            relay_parent_hash: self.relay_parent_hash.clone(),
            built_at: self.built_at,
            collation_fetch_latency_ms: self.collation_fetch_latency_ms,
            reason: self.reason.clone(),
            nearby_relay_blocks: self.nearby_relay_blocks.clone(),
            collation_expired: self.collation_expired.clone(),
        };
        assert(views(copy.nearby_relay_blocks@) =~= views(self.nearby_relay_blocks@));
        assert(views(copy.collation_expired@) =~= views(self.collation_expired@));
        copy
    }
}

/// Aggregated analysis results.
pub struct Analysis {
    pub time_window: (Timestamp, Timestamp),
    /// The lowest relay block imported, if any was
    pub min_relay_block: Option<u32>,
    /// The highest relay block imported, if any was
    pub max_relay_block: Option<u32>,
    pub total_built: usize,
    pub total_included: usize,
    pub total_dropped: usize,
    pub session_boundary_drops: Vec<DroppedBlock>,
    pub relay_parent_expired_drops: Vec<DroppedBlock>,
    pub wrong_fork_drops: Vec<DroppedBlock>,
    pub unknown_drops: Vec<DroppedBlock>,
    /// Blocks near the start or end of the log window that appear dropped but might have
    /// been included in relay blocks beyond what the log covers.
    pub edge_of_window_drops: Vec<DroppedBlock>,
    /// (relay block, session before, session after)
    pub session_boundaries: Vec<(u32, u32, u32)>,
    pub n_cores: u32,
}

/// What an `Analysis` holds.
#[verifier::ext_equal]
pub struct AnalysisView {
    pub time_window: (int, int),
    pub min_relay_block: Option<u32>,
    pub max_relay_block: Option<u32>,
    pub total_built: usize,
    pub total_included: usize,
    pub total_dropped: usize,
    pub session_boundary_drops: Seq<DroppedBlockView>,
    pub relay_parent_expired_drops: Seq<DroppedBlockView>,
    pub wrong_fork_drops: Seq<DroppedBlockView>,
    pub unknown_drops: Seq<DroppedBlockView>,
    pub edge_of_window_drops: Seq<DroppedBlockView>,
    pub session_boundaries: Seq<(u32, u32, u32)>,
    pub n_cores: u32,
}

impl View for Analysis {
    type V = AnalysisView;

    open spec fn view(&self) -> AnalysisView {
        AnalysisView {
            time_window: (self.time_window.0@, self.time_window.1@),
            min_relay_block: self.min_relay_block,
            max_relay_block: self.max_relay_block,
            total_built: self.total_built,
            total_included: self.total_included,
            total_dropped: self.total_dropped,
            session_boundary_drops: views(self.session_boundary_drops@),
            relay_parent_expired_drops: views(self.relay_parent_expired_drops@),
            wrong_fork_drops: views(self.wrong_fork_drops@),
            unknown_drops: views(self.unknown_drops@),
            edge_of_window_drops: views(self.edge_of_window_drops@),
            session_boundaries: self.session_boundaries@,
            n_cores: self.n_cores,
        }
    }
}

// ---- Multi-collator types ----
/// A quotient of integers, to be computed where it is shown.
#[derive(Clone, Copy, Debug, PartialEq, Eq, Structural)]
pub struct Ratio {
    pub num: i128,
    pub den: u128,
}

/// Which block at a given height was included on-chain.
#[derive(Clone, Copy, Debug, PartialEq, Eq, Structural)]
pub enum OnChainWinner {
    /// The original 🏆 best block was the one included on-chain.
    OriginalBest,
    /// The 🆕 replacement block was the one included on-chain.
    Replacement,
    /// Neither block was found in the on-chain data (outside query range).
    Unknown,
}

/// Classified root cause of a rebuild.
#[derive(Clone, Copy, Debug, PartialEq, Eq, Structural)]
pub enum RebuildCause {
    /// Slot boundary timing overlap: the incoming collator started building
    /// before the outgoing collator's last block was propagated.
    SlotBoundaryOverlap { outgoing_slot: u64, incoming_slot: u64 },
    /// Same collator rebuilt on a newer relay parent in a later slot.
    NewerRelayParent { old_rp: u32, new_rp: u32 },
    /// Could not determine the cause.
    Unknown,
}

/// The log of one collator.
pub struct CollatorLog {
    pub name: String,
    pub log: ParsedLog,
}

/// What a `CollatorLog` holds.
#[verifier::ext_equal]
pub struct CollatorLogView {
    pub name: Seq<char>,
    pub log: ParsedLogView,
}

impl View for CollatorLog {
    type V = CollatorLogView;

    open spec fn view(&self) -> CollatorLogView {
        CollatorLogView {
            name: self.name@,
            log: self.log@,
        }
    }
}

/// A rebuild event where one collator's block was replaced by another's.
#[derive(Debug)]
pub struct RebuildEvent {
    /// The para block height where the rebuild occurred.
    pub block_number: u32,
    /// The 🏆 block that was originally best on the observing collator.
    pub block_hash_best: LogHash,
    /// Parent hash of the original best block.
    pub parent_hash_best: LogHash,
    /// The 🆕 block that replaced it.
    pub block_hash_rebuilt: LogHash,
    /// Parent hash of the replacement block.
    pub parent_hash_rebuilt: LogHash,
    /// Which collator built the original best block (from Pre-sealed events).
    pub best_collator: Option<String>,
    /// Which collator built the replacement block.
    pub rebuilt_collator: Option<String>,
    /// Timestamp of the original best import.
    pub best_timestamp: Timestamp,
    /// Timestamp of the rebuild import.
    pub rebuilt_timestamp: Timestamp,
    /// The collator that observed this rebuild.
    pub observer: String,
    /// Relay parent of the best block (if known from build attempts).
    pub best_relay_parent: Option<u32>,
    /// Relay parent of the rebuilt block (if known from build attempts).
    pub rebuilt_relay_parent: Option<u32>,
    /// Aura slot of the best block's builder.
    pub best_slot: Option<u64>,
    /// Aura slot of the rebuilt block's builder.
    pub rebuilt_slot: Option<u64>,
    /// Classified root cause.
    pub cause: RebuildCause,
    /// Which block was actually included on-chain at this height.
    pub on_chain_winner: OnChainWinner,
    /// Relay chain block sequence between the best and rebuilt relay parents.
    pub relay_block_sequence: Vec<OnChainBlockInfo>,
    /// "Collation expired" log entries matching the original (best) relay parent.
    pub collation_expired: Vec<CollationExpired>,
}

/// What a `RebuildEvent` holds.
#[verifier::ext_equal]
pub struct RebuildEventView {
    pub block_number: u32,
    pub block_hash_best: LogHashView,
    pub parent_hash_best: LogHashView,
    pub block_hash_rebuilt: LogHashView,
    pub parent_hash_rebuilt: LogHashView,
    pub best_collator: Option<Seq<char>>,
    pub rebuilt_collator: Option<Seq<char>>,
    pub best_timestamp: int,
    pub rebuilt_timestamp: int,
    pub observer: Seq<char>,
    pub best_relay_parent: Option<u32>,
    pub rebuilt_relay_parent: Option<u32>,
    pub best_slot: Option<u64>,
    pub rebuilt_slot: Option<u64>,
    pub cause: RebuildCause,
    pub on_chain_winner: OnChainWinner,
    pub relay_block_sequence: Seq<OnChainBlockInfoView>,
    pub collation_expired: Seq<CollationExpiredView>,
}

impl View for RebuildEvent {
    type V = RebuildEventView;

    open spec fn view(&self) -> RebuildEventView {
        RebuildEventView {
            block_number: self.block_number,
            block_hash_best: self.block_hash_best@,
            parent_hash_best: self.parent_hash_best@,
            block_hash_rebuilt: self.block_hash_rebuilt@,
            parent_hash_rebuilt: self.parent_hash_rebuilt@,
            best_collator: opt_view(self.best_collator),
            rebuilt_collator: opt_view(self.rebuilt_collator),
            best_timestamp: self.best_timestamp@,
            rebuilt_timestamp: self.rebuilt_timestamp@,
            observer: self.observer@,
            best_relay_parent: self.best_relay_parent,
            rebuilt_relay_parent: self.rebuilt_relay_parent,
            best_slot: self.best_slot,
            rebuilt_slot: self.rebuilt_slot,
            cause: self.cause,
            on_chain_winner: self.on_chain_winner,
            relay_block_sequence: views(self.relay_block_sequence@),
            collation_expired: views(self.collation_expired@),
        }
    }
}

impl Clone for RebuildEvent {
    fn clone(&self) -> (copy: Self)
        ensures
            copy@ == self@,
    {
        let copy = RebuildEvent {
            block_number: self.block_number,
            block_hash_best: self.block_hash_best.clone(),
            parent_hash_best: self.parent_hash_best.clone(),
            block_hash_rebuilt: self.block_hash_rebuilt.clone(),
            parent_hash_rebuilt: self.parent_hash_rebuilt.clone(),
            best_collator: copy_text(&self.best_collator),
            rebuilt_collator: copy_text(&self.rebuilt_collator),
            best_timestamp: self.best_timestamp,
            rebuilt_timestamp: self.rebuilt_timestamp,
            observer: self.observer.clone(),
            best_relay_parent: self.best_relay_parent,
            rebuilt_relay_parent: self.rebuilt_relay_parent,
            best_slot: self.best_slot,
            rebuilt_slot: self.rebuilt_slot,
            cause: self.cause,
            on_chain_winner: self.on_chain_winner,
            relay_block_sequence: self.relay_block_sequence.clone(),
            collation_expired: self.collation_expired.clone(),
        };
        assert(views(copy.relay_block_sequence@) =~= views(self.relay_block_sequence@));
        assert(views(copy.collation_expired@) =~= views(self.collation_expired@));
        copy
    }
}

/// Per-collator authorship statistics.
///
/// Tracks how many blocks each collator authored (Pre-sealed) and how many
/// of those ended up as the 🏆 best block vs were replaced by a 🆕 rebuild.
#[derive(Debug)]
pub struct CollatorStats {
    pub name: String,
    /// Total blocks this collator authored (Pre-sealed events).
    pub blocks_built: usize,
    /// How many of this collator's blocks became the final 🏆 best.
    pub blocks_won: usize,
    /// How many of this collator's blocks were replaced by another block.
    pub blocks_lost: usize,
    /// Win rate: blocks_won / blocks_built.
    pub win_rate: Ratio,
}

/// What a `CollatorStats` holds.
#[verifier::ext_equal]
pub struct CollatorStatsView {
    pub name: Seq<char>,
    pub blocks_built: usize,
    pub blocks_won: usize,
    pub blocks_lost: usize,
    pub win_rate: Ratio,
}

impl View for CollatorStats {
    type V = CollatorStatsView;

    open spec fn view(&self) -> CollatorStatsView {
        CollatorStatsView {
            name: self.name@,
            blocks_built: self.blocks_built,
            blocks_won: self.blocks_won,
            blocks_lost: self.blocks_lost,
            win_rate: self.win_rate,
        }
    }
}

impl Clone for CollatorStats {
    fn clone(&self) -> (copy: Self)
        ensures
            copy@ == self@,
    {
        let copy = CollatorStats {
            name: self.name.clone(),
            blocks_built: self.blocks_built,
            blocks_won: self.blocks_won,
            blocks_lost: self.blocks_lost,
            win_rate: self.win_rate,
        };
        copy
    }
}

/// A slot boundary transition between two collators.
#[derive(Debug)]
pub struct SlotBoundaryDetail {
    /// Aura slot of the outgoing collator.
    pub outgoing_slot: u64,
    /// Aura slot of the incoming collator.
    pub incoming_slot: u64,
    /// Name of the outgoing collator.
    pub outgoing_collator: String,
    /// Name of the incoming collator.
    pub incoming_collator: String,
    /// When the outgoing collator sealed its last block.
    pub outgoing_seal_time: Timestamp,
    /// When the incoming collator started building its first block.
    pub incoming_build_time: Timestamp,
    /// Propagation gap: incoming_build_time - outgoing_seal_time.
    /// Negative means the incoming started before the outgoing sealed (overlap).
    pub propagation_gap_ms: i64,
    /// Number of para block heights where both collators built a block.
    pub overlap_count: u32,
    /// Relay parent used by the outgoing collator.
    pub outgoing_rp: u32,
    /// Relay parent used by the incoming collator.
    pub incoming_rp: u32,
}

/// What a `SlotBoundaryDetail` holds.
#[verifier::ext_equal]
pub struct SlotBoundaryDetailView {
    pub outgoing_slot: u64,
    pub incoming_slot: u64,
    pub outgoing_collator: Seq<char>,
    pub incoming_collator: Seq<char>,
    pub outgoing_seal_time: int,
    pub incoming_build_time: int,
    pub propagation_gap_ms: i64,
    pub overlap_count: u32,
    pub outgoing_rp: u32,
    pub incoming_rp: u32,
}

impl View for SlotBoundaryDetail {
    type V = SlotBoundaryDetailView;

    open spec fn view(&self) -> SlotBoundaryDetailView {
        SlotBoundaryDetailView {
            outgoing_slot: self.outgoing_slot,
            incoming_slot: self.incoming_slot,
            outgoing_collator: self.outgoing_collator@,
            incoming_collator: self.incoming_collator@,
            outgoing_seal_time: self.outgoing_seal_time@,
            incoming_build_time: self.incoming_build_time@,
            propagation_gap_ms: self.propagation_gap_ms,
            overlap_count: self.overlap_count,
            outgoing_rp: self.outgoing_rp,
            incoming_rp: self.incoming_rp,
        }
    }
}

impl Clone for SlotBoundaryDetail {
    fn clone(&self) -> (copy: Self)
        ensures
            copy@ == self@,
    {
        let copy = SlotBoundaryDetail {
            outgoing_slot: self.outgoing_slot,
            incoming_slot: self.incoming_slot,
            outgoing_collator: self.outgoing_collator.clone(),
            incoming_collator: self.incoming_collator.clone(),
            outgoing_seal_time: self.outgoing_seal_time,
            incoming_build_time: self.incoming_build_time,
            propagation_gap_ms: self.propagation_gap_ms,
            overlap_count: self.overlap_count,
            outgoing_rp: self.outgoing_rp,
            incoming_rp: self.incoming_rp,
        };
        copy
    }
}

/// Aggregate slot boundary analysis.
pub struct SlotBoundaryAnalysis {
    pub boundaries: Vec<SlotBoundaryDetail>,
    /// Number of boundaries with overlap (overlap_count > 0).
    pub boundaries_with_overlap: usize,
    /// Number of boundaries without overlap.
    pub boundaries_without_overlap: usize,
    /// Average propagation gap across all boundaries (ms).
    pub avg_propagation_gap_ms: Ratio,
    /// Median propagation gap (ms).
    pub median_propagation_gap_ms: i64,
    /// Min propagation gap (most negative = worst overlap).
    pub min_propagation_gap_ms: i64,
    /// Max propagation gap.
    pub max_propagation_gap_ms: i64,
    /// Average overlap count per boundary (for boundaries with overlap).
    pub avg_overlap_count: Ratio,
    /// Max overlap count at any single boundary.
    pub max_overlap_count: u32,
    /// Number of boundaries where the RP jumped by more than 1 (possible relay fork).
    pub relay_parent_gaps: usize,
}

/// What a `SlotBoundaryAnalysis` holds.
#[verifier::ext_equal]
pub struct SlotBoundaryAnalysisView {
    pub boundaries: Seq<SlotBoundaryDetailView>,
    pub boundaries_with_overlap: usize,
    pub boundaries_without_overlap: usize,
    pub avg_propagation_gap_ms: Ratio,
    pub median_propagation_gap_ms: i64,
    pub min_propagation_gap_ms: i64,
    pub max_propagation_gap_ms: i64,
    pub avg_overlap_count: Ratio,
    pub max_overlap_count: u32,
    pub relay_parent_gaps: usize,
}

impl View for SlotBoundaryAnalysis {
    type V = SlotBoundaryAnalysisView;

    open spec fn view(&self) -> SlotBoundaryAnalysisView {
        SlotBoundaryAnalysisView {
            boundaries: views(self.boundaries@),
            boundaries_with_overlap: self.boundaries_with_overlap,
            boundaries_without_overlap: self.boundaries_without_overlap,
            avg_propagation_gap_ms: self.avg_propagation_gap_ms,
            median_propagation_gap_ms: self.median_propagation_gap_ms,
            min_propagation_gap_ms: self.min_propagation_gap_ms,
            max_propagation_gap_ms: self.max_propagation_gap_ms,
            avg_overlap_count: self.avg_overlap_count,
            max_overlap_count: self.max_overlap_count,
            relay_parent_gaps: self.relay_parent_gaps,
        }
    }
}

/// One producer in a duplicate block production event.
#[derive(Debug)]
pub struct DuplicateProducer {
    pub collator: String,
    pub slot: u64,
    pub timestamp: Timestamp,
    pub block_hash: LogHash,
}

/// What a `DuplicateProducer` holds.
#[verifier::ext_equal]
pub struct DuplicateProducerView {
    pub collator: Seq<char>,
    pub slot: u64,
    pub timestamp: int,
    pub block_hash: LogHashView,
}

impl View for DuplicateProducer {
    type V = DuplicateProducerView;

    open spec fn view(&self) -> DuplicateProducerView {
        DuplicateProducerView {
            collator: self.collator@,
            slot: self.slot,
            timestamp: self.timestamp@,
            block_hash: self.block_hash@,
        }
    }
}

impl Clone for DuplicateProducer {
    fn clone(&self) -> (copy: Self)
        ensures
            copy@ == self@,
    {
        let copy = DuplicateProducer {
            collator: self.collator.clone(),
            slot: self.slot,
            timestamp: self.timestamp,
            block_hash: self.block_hash.clone(),
        };
        copy
    }
}

/// A case where 2+ different collators built the same para block number
/// on the same relay parent. This would indicate a protocol-level issue
/// (Aura slot assignment violation or similar).
#[derive(Debug)]
pub struct DuplicateBlockOnSameRP {
    /// The para block height that was produced by multiple collators.
    pub block_number: u32,
    /// The relay parent number both collators built on.
    pub relay_parent_num: u32,
    /// Each collator that produced this block.
    pub producers: Vec<DuplicateProducer>,
}

/// What a `DuplicateBlockOnSameRP` holds.
#[verifier::ext_equal]
pub struct DuplicateBlockOnSameRPView {
    pub block_number: u32,
    pub relay_parent_num: u32,
    pub producers: Seq<DuplicateProducerView>,
}

impl View for DuplicateBlockOnSameRP {
    type V = DuplicateBlockOnSameRPView;

    open spec fn view(&self) -> DuplicateBlockOnSameRPView {
        DuplicateBlockOnSameRPView {
            block_number: self.block_number,
            relay_parent_num: self.relay_parent_num,
            producers: views(self.producers@),
        }
    }
}

impl Clone for DuplicateBlockOnSameRP {
    fn clone(&self) -> (copy: Self)
        ensures
            copy@ == self@,
    {
        let copy = DuplicateBlockOnSameRP {
            block_number: self.block_number,
            relay_parent_num: self.relay_parent_num,
            producers: self.producers.clone(),
        };
        assert(views(copy.producers@) =~= views(self.producers@));
        copy
    }
}

/// Summary of rebuild analysis across all collators.
pub struct MultiCollatorAnalysis {
    pub per_collator: Vec<CollatorStats>,
    pub rebuilds: Vec<RebuildEvent>,
    pub slot_boundary_analysis: Option<SlotBoundaryAnalysis>,
    /// Cases where 2+ different collators built the same block number on the
    /// same relay parent. Empty means clean slot assignment (expected).
    pub duplicate_blocks_same_rp: Vec<DuplicateBlockOnSameRP>,
}

/// What a `MultiCollatorAnalysis` holds.
#[verifier::ext_equal]
pub struct MultiCollatorAnalysisView {
    pub per_collator: Seq<CollatorStatsView>,
    pub rebuilds: Seq<RebuildEventView>,
    pub slot_boundary_analysis: Option<SlotBoundaryAnalysisView>,
    pub duplicate_blocks_same_rp: Seq<DuplicateBlockOnSameRPView>,
}

impl View for MultiCollatorAnalysis {
    type V = MultiCollatorAnalysisView;

    open spec fn view(&self) -> MultiCollatorAnalysisView {
        MultiCollatorAnalysisView {
            per_collator: views(self.per_collator@),
            rebuilds: views(self.rebuilds@),
            slot_boundary_analysis: opt_view(self.slot_boundary_analysis),
            duplicate_blocks_same_rp: views(self.duplicate_blocks_same_rp@),
        }
    }
}

} // verus!
