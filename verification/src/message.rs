//! The closed set of peer-to-peer messages that Raft nodes exchange.

use vstd::prelude::*;
use crate::log::LogEntry;

verus! {

/// All possible Raft messages between nodes.
///
/// PreVote messages probe whether a real election would succeed before
/// any term is incremented, preventing a rejoining partitioned node
/// from disrupting a stable cluster with an inflated term.
#[derive(Debug, Clone)]
pub enum RaftMessage {
    /// "Would you vote for me if I ran for election?" Sent before
    /// incrementing the term; `term` is the hypothetical term the
    /// candidate would use (current term + 1), not yet assigned.
    PreVoteRequest { term: u64, candidate_id: u64, last_log_index: u64, last_log_term: u64 },
    /// Answer to a pre-vote request. Never causes any term to change.
    PreVoteResponse { term: u64, vote_granted: bool },
    /// Request a vote during leader election.
    VoteRequest { term: u64, candidate_id: u64, last_log_index: u64, last_log_term: u64 },
    /// Answer to a vote request.
    VoteResponse { term: u64, vote_granted: bool },
    /// Replicate log entries; with no entries it serves as heartbeat.
    AppendEntries {
        term: u64,
        leader_id: u64,
        prev_log_index: u64,
        prev_log_term: u64,
        entries: Vec<LogEntry>,
        leader_commit: u64,
    },
    /// Answer to AppendEntries.
    AppendEntriesResponse { term: u64, success: bool },
}

} // verus!
