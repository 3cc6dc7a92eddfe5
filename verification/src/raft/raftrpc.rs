//! The arguments and results of the three Raft RPCs.
use vstd::prelude::*;

use crate::raft::entry::Entry;

verus! {

/// Arguments of AppendEntries, sent by the leader to replicate log entries;
/// with no entries it is a heartbeat.
#[derive(Debug, PartialEq, Eq)]
pub struct AppendEntriesRpcRequest {
    leader_term: u64,
    leader_id: u16,
    prev_log_index: u64,
    prev_log_term: u64,
    leader_commit: u64,
    entries: Vec<Entry>,
}

/// Results of AppendEntries.
#[derive(Debug, PartialEq, Eq)]
pub struct AppendEntriesRpcResponse {
    term_results: Option<u64>,
    success: Option<bool>,
}

/// Arguments of RequestVote, sent by a candidate to gather votes.
#[derive(Debug, PartialEq, Eq)]
pub struct RequestVoteRpcRequest {
    term_candidate: u64,
    candidate_id: u16,
    last_log_index: u64,
    last_log_term: u16,
}

/// Results of RequestVote.
#[derive(Debug, PartialEq, Eq)]
pub struct RequestVoteRpcResponse {
    term_results: u64,
    vote_granted: bool,
}

/// Arguments of InstallSnapshot, sent by the leader to ship a snapshot in chunks.
#[derive(Debug, PartialEq, Eq)]
pub struct InstallSnapshotRpcRequest {
    term_leader: u64,
    leader_id: u16,
    last_included_index: u64,
    last_included_term: u64,
    offset: u64,
    data: Vec<u8>,
    done: bool,
}

/// Results of InstallSnapshot.
#[derive(Debug, PartialEq, Eq)]
pub struct InstallSnapshotRpcResponse {
    term_result: u64,
}

/// The fields of an AppendEntries request, as plain values.
pub struct AppendEntriesView {
    pub leader_term: u64,
    pub leader_id: u16,
    pub prev_log_index: u64,
    pub prev_log_term: u64,
    pub leader_commit: u64,
    pub entries: Seq<Entry>,
}

impl View for AppendEntriesRpcRequest {
    type V = AppendEntriesView;

    closed spec fn view(&self) -> AppendEntriesView {
        AppendEntriesView {
            leader_term: self.leader_term,
            leader_id: self.leader_id,
            prev_log_index: self.prev_log_index,
            prev_log_term: self.prev_log_term,
            leader_commit: self.leader_commit,
            entries: self.entries@,
        }
    }
}

/// The heartbeat that a leader sends: an AppendEntries request with the
/// given fields and no entries.
pub open spec fn heartbeat_view(
    leader_term: u64,
    leader_id: u16,
    prev_log_index: u64,
    prev_log_term: u64,
    leader_commit: u64,
) -> AppendEntriesView {
    AppendEntriesView {
        leader_term,
        leader_id,
        prev_log_index,
        prev_log_term,
        leader_commit,
        entries: Seq::empty(),
    }
}

impl AppendEntriesRpcRequest {
    /// Builds the heartbeat of a leader: an AppendEntries request that
    /// carries no entries.
    pub fn create_heartbeatrpc(
        leader_term: u64,
        leader_id: u16,
        prev_log_index: u64,
        prev_log_term: u64,
        leader_commit: u64,
    ) -> (rpc: AppendEntriesRpcRequest)
        ensures
            rpc@ == heartbeat_view(
                leader_term,
                leader_id,
                prev_log_index,
                prev_log_term,
                leader_commit,
            ),
            rpc@.leader_term == leader_term,
            rpc@.leader_id == leader_id,
            rpc@.prev_log_index == prev_log_index,
            rpc@.prev_log_term == prev_log_term,
            rpc@.leader_commit == leader_commit,
            rpc@.entries.len() == 0,
    {
        AppendEntriesRpcRequest {
            leader_term,
            leader_id,
            prev_log_index,
            prev_log_term,
            leader_commit,
            entries: Vec::new(),
        }
    }
}

/// A heartbeat carries each of its arguments in the field of the same
/// name, and no entries.
pub proof fn lemma_heartbeat_fields(
    leader_term: u64,
    leader_id: u16,
    prev_log_index: u64,
    prev_log_term: u64,
    leader_commit: u64,
)
    ensures
        ({
            let h = heartbeat_view(leader_term, leader_id, prev_log_index, prev_log_term, leader_commit);
            &&& h.leader_term == leader_term
            &&& h.leader_id == leader_id
            &&& h.prev_log_index == prev_log_index
            &&& h.prev_log_term == prev_log_term
            &&& h.leader_commit == leader_commit
            &&& h.entries.len() == 0
        }),
{
}

} // verus!
