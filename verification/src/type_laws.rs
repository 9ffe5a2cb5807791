//! What the models of the events and results say of the fields that callers see.

use crate::built_blocks::BuiltBlock;
use crate::hash::LogHash;
use crate::types::{
    AdvertisedCandidate, Analysis, BuildAttempt, CandidateGenerated, CollationExpired,
    CollationFetchLatency, CollationSubmission, CollatorLog, CollatorStats, DropReason,
    DroppedBlock, DuplicateBlockOnSameRP, DuplicateProducer, MultiCollatorAnalysis,
    OnChainBlockInfo, ParaBlockImport, ParaCandidateEvent, ParsedLog, PeerConnectionEvent,
    PreSealedBlock, RebuildEvent, RelayBlockImport, SlotBoundaryAnalysis, SlotBoundaryDetail,
    ViewUpdate,
};
use vstd::prelude::*;

verus! {

/// What is said of a `ParaBlockImport` is said of its fields, each under its own name.
pub proof fn para_block_import_is_its_fields(x: ParaBlockImport)
    ensures
        x@.block_number == x.block_number,
        x@.parent_hash == x.parent_hash@,
        x@.block_hash == x.block_hash@,
        x@.timestamp == x.timestamp@,
        x@.is_best == x.is_best,
        match x.collator {
            Some(v) => x@.collator == Some(v@),
            None => x@.collator is None,
        },
{
}

/// What is said of a `RelayBlockImport` is said of its fields, each under its own name.
pub proof fn relay_block_import_is_its_fields(x: RelayBlockImport)
    ensures
        x@.block_number == x.block_number,
        x@.parent_hash == x.parent_hash@,
        x@.block_hash == x.block_hash@,
        x@.timestamp == x.timestamp@,
{
}

/// What is said of a `BuildAttempt` is said of its fields, each under its own name.
pub proof fn build_attempt_is_its_fields(x: BuildAttempt)
    ensures
        x@.building == x.building,
        x@.unincluded_segment_len == x.unincluded_segment_len,
        x@.relay_parent == x.relay_parent@,
        x@.relay_parent_num == x.relay_parent_num,
        x@.relay_parent_offset == x.relay_parent_offset,
        x@.included_hash == x.included_hash@,
        x@.included_num == x.included_num,
        x@.parent == x.parent@,
        x@.slot == x.slot,
        x@.timestamp == x.timestamp@,
{
}

/// What is said of a `PreSealedBlock` is said of its fields, each under its own name.
pub proof fn pre_sealed_block_is_its_fields(x: PreSealedBlock)
    ensures
        x@.block_number == x.block_number,
        x@.post_hash == x.post_hash@,
        x@.pre_hash == x.pre_hash@,
        x@.timestamp == x.timestamp@,
{
}

/// What is said of a `CollationSubmission` is said of its fields, each under its own name.
pub proof fn collation_submission_is_its_fields(x: CollationSubmission)
    ensures
        x@.core_index == x.core_index,
        x@.hash == x.hash@,
        x@.block_number == x.block_number,
        x@.timestamp == x.timestamp@,
{
}

/// What is said of a `PeerConnectionEvent` is said of its fields, each under its own name.
pub proof fn peer_connection_event_is_its_fields(x: PeerConnectionEvent)
    ensures
        x@.peer_id == x.peer_id@,
        x@.connected == x.connected,
        match x.role {
            Some(v) => x@.role == Some(v@),
            None => x@.role is None,
        },
        x@.timestamp == x.timestamp@,
{
}

/// What is said of a `CollationFetchLatency` is said of its fields, each under its own name.
pub proof fn collation_fetch_latency_is_its_fields(x: CollationFetchLatency)
    ensures
        x@.latency_ms == x.latency_ms,
        x@.para_head == x.para_head@,
        x@.para_id == x.para_id,
        x@.timestamp == x.timestamp@,
{
}

/// What is said of a `CandidateGenerated` is said of its fields, each under its own name.
pub proof fn candidate_generated_is_its_fields(x: CandidateGenerated)
    ensures
        x@.candidate_hash == x.candidate_hash@,
        x@.relay_parent == x.relay_parent@,
        x@.para_id == x.para_id,
        x@.core_index == x.core_index,
        x@.timestamp == x.timestamp@,
{
}

/// What is said of a `ViewUpdate` is said of its fields, each under its own name.
pub proof fn view_update_is_its_fields(x: ViewUpdate)
    ensures
        x@.heads.len() == x.heads@.len(),
        forall|i: int|
            0 <= i < x.heads@.len() ==> #[trigger] x@.heads[i] == x.heads@[i]@,
        x@.finalized_number == x.finalized_number,
        x@.timestamp == x.timestamp@,
{
}

/// What is said of a `CollationExpired` is said of its fields, each under its own name.
pub proof fn collation_expired_is_its_fields(x: CollationExpired)
    ensures
        x@.collation_state == x.collation_state@,
        x@.relay_parent_num == x.relay_parent_num,
        x@.relay_parent_hash == x.relay_parent_hash@,
        x@.age == x.age,
        match x.head {
            Some(v) => x@.head == Some(v@),
            None => x@.head is None,
        },
        match x.candidate_hash {
            Some(v) => x@.candidate_hash == Some(v@),
            None => x@.candidate_hash is None,
        },
        x@.timestamp == x.timestamp@,
        match x.produced_at {
            Some(v) => x@.produced_at == Some(v@),
            None => x@.produced_at is None,
        },
        match x.advertised_at {
            Some(v) => x@.advertised_at == Some(v@),
            None => x@.advertised_at is None,
        },
        match x.fetched_at {
            Some(v) => x@.fetched_at == Some(v@),
            None => x@.fetched_at is None,
        },
        x@.advertised_to_peers.len() == x.advertised_to_peers@.len(),
        forall|i: int|
            0 <= i < x.advertised_to_peers@.len() ==> #[trigger] x@.advertised_to_peers[i] == x.advertised_to_peers@[i]@,
{
}

/// What is said of a `AdvertisedCandidate` is said of its fields, each under its own name.
pub proof fn advertised_candidate_is_its_fields(x: AdvertisedCandidate)
    ensures
        x@.candidate_hash == x.candidate_hash@,
        x@.peers.len() == x.peers@.len(),
        forall|i: int|
            0 <= i < x.peers@.len() ==> #[trigger] x@.peers[i] == x.peers@[i]@,
{
}

/// What is said of a `ParsedLog` is said of its fields, each under its own name.
pub proof fn parsed_log_is_its_fields(x: ParsedLog)
    ensures
        x@.para_imports.len() == x.para_imports@.len(),
        forall|i: int|
            0 <= i < x.para_imports@.len() ==> #[trigger] x@.para_imports[i] == x.para_imports@[i]@,
        x@.relay_imports.len() == x.relay_imports@.len(),
        forall|i: int|
            0 <= i < x.relay_imports@.len() ==> #[trigger] x@.relay_imports[i] == x.relay_imports@[i]@,
        x@.build_attempts.len() == x.build_attempts@.len(),
        forall|i: int|
            0 <= i < x.build_attempts@.len() ==> #[trigger] x@.build_attempts[i] == x.build_attempts@[i]@,
        x@.pre_sealed.len() == x.pre_sealed@.len(),
        forall|i: int|
            0 <= i < x.pre_sealed@.len() ==> #[trigger] x@.pre_sealed[i] == x.pre_sealed@[i]@,
        x@.collation_submissions.len() == x.collation_submissions@.len(),
        forall|i: int|
            0 <= i < x.collation_submissions@.len() ==> #[trigger] x@.collation_submissions[i] == x.collation_submissions@[i]@,
        x@.collation_fetches.len() == x.collation_fetches@.len(),
        forall|i: int|
            0 <= i < x.collation_fetches@.len() ==> #[trigger] x@.collation_fetches[i] == x.collation_fetches@[i]@,
        x@.candidates_generated.len() == x.candidates_generated@.len(),
        forall|i: int|
            0 <= i < x.candidates_generated@.len() ==> #[trigger] x@.candidates_generated[i] == x.candidates_generated@[i]@,
        x@.view_updates.len() == x.view_updates@.len(),
        forall|i: int|
            0 <= i < x.view_updates@.len() ==> #[trigger] x@.view_updates[i] == x.view_updates@[i]@,
        x@.collation_expired.len() == x.collation_expired@.len(),
        forall|i: int|
            0 <= i < x.collation_expired@.len() ==> #[trigger] x@.collation_expired[i] == x.collation_expired@[i]@,
        x@.advertising_peers.len() == x.advertising_peers@.len(),
        forall|i: int|
            0 <= i < x.advertising_peers@.len() ==> #[trigger] x@.advertising_peers[i] == x.advertising_peers@[i]@,
        x@.peer_connections.len() == x.peer_connections@.len(),
        forall|i: int|
            0 <= i < x.peer_connections@.len() ==> #[trigger] x@.peer_connections[i] == x.peer_connections@[i]@,
        x@.hash_registry == x.hash_registry@,
{
}

/// What is said of a `ParaCandidateEvent` is said of its fields, each under its own name.
pub proof fn para_candidate_event_is_its_fields(x: ParaCandidateEvent)
    ensures
        x@.para_id == x.para_id,
        match x.relay_parent {
            Some(v) => x@.relay_parent == Some(v@),
            None => x@.relay_parent is None,
        },
        x@.core_index == x.core_index,
        x@.group_index == x.group_index,
        match x.para_head_data {
            Some(v) => x@.para_head_data == Some(v@),
            None => x@.para_head_data is None,
        },
{
}

/// What is said of a `OnChainBlockInfo` is said of its fields, each under its own name.
pub proof fn on_chain_block_info_is_its_fields(x: OnChainBlockInfo)
    ensures
        x@.block_number == x.block_number,
        x@.block_hash == x.block_hash@,
        x@.session_index == x.session_index,
        x@.backed_para_candidates.len() == x.backed_para_candidates@.len(),
        forall|i: int|
            0 <= i < x.backed_para_candidates@.len() ==> #[trigger] x@.backed_para_candidates[i] == x.backed_para_candidates@[i]@,
        x@.included_para_candidates.len() == x.included_para_candidates@.len(),
        forall|i: int|
            0 <= i < x.included_para_candidates@.len() ==> #[trigger] x@.included_para_candidates[i] == x.included_para_candidates@[i]@,
        x@.claim_queue_cores == x.claim_queue_cores@,
{
}

/// What is said of a `DroppedBlock` is said of its fields, each under its own name.
pub proof fn dropped_block_is_its_fields(x: DroppedBlock)
    ensures
        x@.para_block_number == x.para_block_number,
        x@.para_block_hash == x.para_block_hash@,
        x@.parent_hash == x.parent_hash@,
        x@.relay_parent_num == x.relay_parent_num,
        x@.relay_parent_hash == x.relay_parent_hash@,
        x@.built_at == x.built_at@,
        x@.collation_fetch_latency_ms == x.collation_fetch_latency_ms,
        x@.reason == x.reason@,
        x@.nearby_relay_blocks.len() == x.nearby_relay_blocks@.len(),
        forall|i: int|
            0 <= i < x.nearby_relay_blocks@.len() ==> #[trigger] x@.nearby_relay_blocks[i] == x.nearby_relay_blocks@[i]@,
        x@.collation_expired.len() == x.collation_expired@.len(),
        forall|i: int|
            0 <= i < x.collation_expired@.len() ==> #[trigger] x@.collation_expired[i] == x.collation_expired@[i]@,
{
}

/// What is said of a `Analysis` is said of its fields, each under its own name.
pub proof fn analysis_is_its_fields(x: Analysis)
    ensures
        x@.time_window == (x.time_window.0@, x.time_window.1@),
        x@.min_relay_block == x.min_relay_block,
        x@.max_relay_block == x.max_relay_block,
        x@.total_built == x.total_built,
        x@.total_included == x.total_included,
        x@.total_dropped == x.total_dropped,
        x@.session_boundary_drops.len() == x.session_boundary_drops@.len(),
        forall|i: int|
            0 <= i < x.session_boundary_drops@.len() ==> #[trigger] x@.session_boundary_drops[i] == x.session_boundary_drops@[i]@,
        x@.relay_parent_expired_drops.len() == x.relay_parent_expired_drops@.len(),
        forall|i: int|
            0 <= i < x.relay_parent_expired_drops@.len() ==> #[trigger] x@.relay_parent_expired_drops[i]
                == x.relay_parent_expired_drops@[i]@,
        x@.wrong_fork_drops.len() == x.wrong_fork_drops@.len(),
        forall|i: int|
            0 <= i < x.wrong_fork_drops@.len() ==> #[trigger] x@.wrong_fork_drops[i] == x.wrong_fork_drops@[i]@,
        x@.unknown_drops.len() == x.unknown_drops@.len(),
        forall|i: int|
            0 <= i < x.unknown_drops@.len() ==> #[trigger] x@.unknown_drops[i] == x.unknown_drops@[i]@,
        x@.edge_of_window_drops.len() == x.edge_of_window_drops@.len(),
        forall|i: int|
            0 <= i < x.edge_of_window_drops@.len() ==> #[trigger] x@.edge_of_window_drops[i] == x.edge_of_window_drops@[i]@,
        x@.session_boundaries == x.session_boundaries@,
        x@.n_cores == x.n_cores,
{
}

/// What is said of a `CollatorLog` is said of its fields, each under its own name.
pub proof fn collator_log_is_its_fields(x: CollatorLog)
    ensures
        x@.name == x.name@,
        x@.log == x.log@,
{
}

/// What is said of a `RebuildEvent` is said of its fields, each under its own name.
pub proof fn rebuild_event_is_its_fields(x: RebuildEvent)
    ensures
        x@.block_number == x.block_number,
        x@.block_hash_best == x.block_hash_best@,
        x@.parent_hash_best == x.parent_hash_best@,
        x@.block_hash_rebuilt == x.block_hash_rebuilt@,
        x@.parent_hash_rebuilt == x.parent_hash_rebuilt@,
        match x.best_collator {
            Some(v) => x@.best_collator == Some(v@),
            None => x@.best_collator is None,
        },
        match x.rebuilt_collator {
            Some(v) => x@.rebuilt_collator == Some(v@),
            None => x@.rebuilt_collator is None,
        },
        x@.best_timestamp == x.best_timestamp@,
        x@.rebuilt_timestamp == x.rebuilt_timestamp@,
        x@.observer == x.observer@,
        x@.best_relay_parent == x.best_relay_parent,
        x@.rebuilt_relay_parent == x.rebuilt_relay_parent,
        x@.best_slot == x.best_slot,
        x@.rebuilt_slot == x.rebuilt_slot,
        x@.cause == x.cause,
        x@.on_chain_winner == x.on_chain_winner,
        x@.relay_block_sequence.len() == x.relay_block_sequence@.len(),
        forall|i: int|
            0 <= i < x.relay_block_sequence@.len() ==> #[trigger] x@.relay_block_sequence[i] == x.relay_block_sequence@[i]@,
        x@.collation_expired.len() == x.collation_expired@.len(),
        forall|i: int|
            0 <= i < x.collation_expired@.len() ==> #[trigger] x@.collation_expired[i] == x.collation_expired@[i]@,
{
}

/// What is said of a `CollatorStats` is said of its fields, each under its own name.
pub proof fn collator_stats_is_its_fields(x: CollatorStats)
    ensures
        x@.name == x.name@,
        x@.blocks_built == x.blocks_built,
        x@.blocks_won == x.blocks_won,
        x@.blocks_lost == x.blocks_lost,
        x@.win_rate == x.win_rate,
{
}

/// What is said of a `SlotBoundaryDetail` is said of its fields, each under its own name.
pub proof fn slot_boundary_detail_is_its_fields(x: SlotBoundaryDetail)
    ensures
        x@.outgoing_slot == x.outgoing_slot,
        x@.incoming_slot == x.incoming_slot,
        x@.outgoing_collator == x.outgoing_collator@,
        x@.incoming_collator == x.incoming_collator@,
        x@.outgoing_seal_time == x.outgoing_seal_time@,
        x@.incoming_build_time == x.incoming_build_time@,
        x@.propagation_gap_ms == x.propagation_gap_ms,
        x@.overlap_count == x.overlap_count,
        x@.outgoing_rp == x.outgoing_rp,
        x@.incoming_rp == x.incoming_rp,
{
}

/// What is said of a `SlotBoundaryAnalysis` is said of its fields, each under its own name.
pub proof fn slot_boundary_analysis_is_its_fields(x: SlotBoundaryAnalysis)
    ensures
        x@.boundaries.len() == x.boundaries@.len(),
        forall|i: int|
            0 <= i < x.boundaries@.len() ==> #[trigger] x@.boundaries[i] == x.boundaries@[i]@,
        x@.boundaries_with_overlap == x.boundaries_with_overlap,
        x@.boundaries_without_overlap == x.boundaries_without_overlap,
        x@.avg_propagation_gap_ms == x.avg_propagation_gap_ms,
        x@.median_propagation_gap_ms == x.median_propagation_gap_ms,
        x@.min_propagation_gap_ms == x.min_propagation_gap_ms,
        x@.max_propagation_gap_ms == x.max_propagation_gap_ms,
        x@.avg_overlap_count == x.avg_overlap_count,
        x@.max_overlap_count == x.max_overlap_count,
        x@.relay_parent_gaps == x.relay_parent_gaps,
{
}

/// What is said of a `DuplicateProducer` is said of its fields, each under its own name.
pub proof fn duplicate_producer_is_its_fields(x: DuplicateProducer)
    ensures
        x@.collator == x.collator@,
        x@.slot == x.slot,
        x@.timestamp == x.timestamp@,
        x@.block_hash == x.block_hash@,
{
}

/// What is said of a `DuplicateBlockOnSameRP` is said of its fields, each under its own name.
pub proof fn duplicate_block_on_same_rp_is_its_fields(x: DuplicateBlockOnSameRP)
    ensures
        x@.block_number == x.block_number,
        x@.relay_parent_num == x.relay_parent_num,
        x@.producers.len() == x.producers@.len(),
        forall|i: int|
            0 <= i < x.producers@.len() ==> #[trigger] x@.producers[i] == x.producers@[i]@,
{
}

/// What is said of a `MultiCollatorAnalysis` is said of its fields, each under its own name.
pub proof fn multi_collator_analysis_is_its_fields(x: MultiCollatorAnalysis)
    ensures
        x@.per_collator.len() == x.per_collator@.len(),
        forall|i: int|
            0 <= i < x.per_collator@.len() ==> #[trigger] x@.per_collator[i] == x.per_collator@[i]@,
        x@.rebuilds.len() == x.rebuilds@.len(),
        forall|i: int|
            0 <= i < x.rebuilds@.len() ==> #[trigger] x@.rebuilds[i] == x.rebuilds@[i]@,
        match x.slot_boundary_analysis {
            Some(v) => x@.slot_boundary_analysis == Some(v@),
            None => x@.slot_boundary_analysis is None,
        },
        x@.duplicate_blocks_same_rp.len() == x.duplicate_blocks_same_rp@.len(),
        forall|i: int|
            0 <= i < x.duplicate_blocks_same_rp@.len() ==> #[trigger] x@.duplicate_blocks_same_rp[i] == x.duplicate_blocks_same_rp@[i]@,
{
}

/// What is said of a `BuiltBlock` is said of its fields, each under its own name.
pub proof fn built_block_is_its_fields(x: BuiltBlock)
    ensures
        x@.block_number == x.block_number,
        x@.block_hash == x.block_hash@,
        x@.parent_hash == x.parent_hash@,
        x@.relay_parent_num == x.relay_parent_num,
        x@.relay_parent_hash == x.relay_parent_hash@,
        x@.built_at == x.built_at@,
        x@.collation_fetch_latency_ms == x.collation_fetch_latency_ms,
        x@.relay_parent_offset == x.relay_parent_offset,
{
}

/// What is said of a `LogHash` is said of its fields, each under its own name.
pub proof fn log_hash_is_its_fields(x: LogHash)
    ensures
        x@.raw == x.raw@,
        match x.full {
            Some(v) => x@.full == Some(v@),
            None => x@.full is None,
        },
{
}

/// What is said of a `DropReason` is said of the reason itself, and of its numbers, each under its
/// own name.
pub proof fn drop_reason_is_its_fields(x: DropReason)
    ensures
        match x {
            DropReason::SessionBoundary { session_before, session_after, boundary_relay_block } => {
                &&& x@ is SessionBoundary
                &&& x@->session_before == session_before
                &&& x@->session_after == session_after
                &&& x@->boundary_relay_block == boundary_relay_block
            },
            DropReason::RelayParentExpired { relay_parent_num, viability_window } => {
                &&& x@ is RelayParentExpired
                &&& x@->RelayParentExpired_relay_parent_num == relay_parent_num
                &&& x@->viability_window == viability_window
            },
            DropReason::WrongFork { relay_parent_num, relay_parent_hash } => {
                &&& x@ is WrongFork
                &&& x@->WrongFork_relay_parent_num == relay_parent_num
                &&& x@->relay_parent_hash == relay_parent_hash@
            },
            DropReason::Unknown => x@ is Unknown,
        },
{
}

} // verus!
