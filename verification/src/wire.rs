//! Flat record types matching the message wire schema, one per message
//! kind, plus a node-status record — the shape a host embedding
//! serializes — and the verified conversions between these records and
//! the node's own types.

use vstd::prelude::*;
use crate::log::clone_command;

verus! {

/// A node role as reported to a host, with an extra value for a slot
/// that holds no live node.
#[derive(Debug, Clone, Copy, PartialEq, Eq, Structural)]
pub enum NodeState {
    /// The node is a follower.
    Follower,
    /// The node is running or probing an election.
    Candidate,
    /// The node is the leader.
    Leader,
    /// No live node stands in this slot.
    Dead,
}

/// A snapshot of one node, as a host displays or reports it.
#[derive(Debug, Clone)]
pub struct NodeStatus {
    /// The node's id, or 0 for a dead slot.
    pub id: u64,
    /// The node's role.
    pub state: NodeState,
    /// The node's current term.
    pub term: u64,
    /// How many entries the node's log holds.
    pub log_length: u64,
    /// The node's commit index.
    pub commit_index: u64,
}

/// A log entry in wire form.
#[derive(Debug, Clone)]
pub struct LogEntry {
    /// Election term in which the entry was created.
    pub term: u64,
    /// 1-based position of the entry in the log.
    pub index: u64,
    /// Opaque command bytes.
    pub command: Vec<u8>,
}

/// Wire form of a pre-vote request.
#[derive(Debug, Clone)]
pub struct PreVoteRequest {
    /// The hypothetical term the candidate would use.
    pub term: u64,
    /// The probing candidate.
    pub candidate_id: u64,
    /// Index of the candidate's last log entry.
    pub last_log_index: u64,
    /// Term of the candidate's last log entry.
    pub last_log_term: u64,
}

/// Wire form of a pre-vote response.
#[derive(Debug, Clone)]
pub struct PreVoteResponse {
    /// The responder's current term.
    pub term: u64,
    /// Whether the responder would vote for the candidate.
    pub vote_granted: bool,
}

/// Wire form of a vote request.
#[derive(Debug, Clone)]
pub struct VoteRequest {
    /// The candidate's term.
    pub term: u64,
    /// The candidate asking for the vote.
    pub candidate_id: u64,
    /// Index of the candidate's last log entry.
    pub last_log_index: u64,
    /// Term of the candidate's last log entry.
    pub last_log_term: u64,
}

/// Wire form of a vote response.
#[derive(Debug, Clone)]
pub struct VoteResponse {
    /// The responder's current term.
    pub term: u64,
    /// Whether the vote was granted.
    pub vote_granted: bool,
}

/// Wire form of an AppendEntries request.
#[derive(Debug, Clone)]
pub struct AppendEntries {
    /// The leader's term.
    pub term: u64,
    /// The sending leader.
    pub leader_id: u64,
    /// Index of the entry just before the batch.
    pub prev_log_index: u64,
    /// Term of the entry just before the batch.
    pub prev_log_term: u64,
    /// The entries to replicate; empty for a heartbeat.
    pub entries: Vec<LogEntry>,
    /// The leader's commit index.
    pub leader_commit: u64,
}

/// Wire form of an AppendEntries response.
#[derive(Debug, Clone)]
pub struct AppendEntriesResponse {
    /// The responder's current term.
    pub term: u64,
    /// Whether the entries were accepted.
    pub success: bool,
}

/// A Raft message in wire form: one record per message kind.
#[derive(Debug, Clone)]
pub enum RaftMessage {
    /// A pre-vote request.
    PreVoteReq(PreVoteRequest),
    /// A pre-vote response.
    PreVoteRes(PreVoteResponse),
    /// A vote request.
    VoteReq(VoteRequest),
    /// A vote response.
    VoteRes(VoteResponse),
    /// An AppendEntries request.
    AppendReq(AppendEntries),
    /// An AppendEntries response.
    AppendRes(AppendEntriesResponse),
}

/// A wire entry and a node entry agree field for field.
pub open spec fn entry_matches(a: LogEntry, b: crate::log::LogEntry) -> bool {
    a.term == b.term && a.index == b.index && a.command@ == b.command@
}

/// Two entry sequences agree element for element across the two forms.
pub open spec fn entries_match(a: Seq<LogEntry>, b: Seq<crate::log::LogEntry>) -> bool {
    a.len() == b.len() && forall|i: int| 0 <= i < a.len() ==> entry_matches(#[trigger] a[i], b[i])
}

/// Appending matching entries keeps the sequences matching.
proof fn lemma_entries_match_push(
    a: Seq<LogEntry>,
    b: Seq<crate::log::LogEntry>,
    x: LogEntry,
    y: crate::log::LogEntry,
)
    requires
        entries_match(a, b),
        entry_matches(x, y),
    ensures
        entries_match(a.push(x), b.push(y)),
{
    assert forall|i: int|
        0 <= i < a.push(x).len() implies entry_matches(#[trigger] a.push(x)[i], b.push(y)[i]) by {
        if i < a.len() {
            assert(a.push(x)[i] == a[i]);
            assert(b.push(y)[i] == b[i]);
            assert(entry_matches(a[i], b[i]));
        } else {
            assert(a.push(x)[i] == x);
            assert(b.push(y)[i] == y);
        }
    }
}

/// The wire role that corresponds to a node role: the pre-vote probe
/// is reported as Candidate.
pub open spec fn wire_state_of(s: crate::node::NodeState) -> NodeState {
    match s {
        crate::node::NodeState::Follower => NodeState::Follower,
        crate::node::NodeState::PreCandidate => NodeState::Candidate,
        crate::node::NodeState::Candidate => NodeState::Candidate,
        crate::node::NodeState::Leader => NodeState::Leader,
    }
}

/// Map a node role to its wire representation.
pub fn to_wit_state(state: crate::node::NodeState) -> (r: NodeState)
    ensures
        r == wire_state_of(state),
{
    match state {
        crate::node::NodeState::Follower => NodeState::Follower,
        crate::node::NodeState::PreCandidate => NodeState::Candidate,
        crate::node::NodeState::Candidate => NodeState::Candidate,
        crate::node::NodeState::Leader => NodeState::Leader,
    }
}

/// Convert a node log entry to wire form.
pub fn to_wit_log_entry(entry: &crate::log::LogEntry) -> (r: LogEntry)
    ensures
        entry_matches(r, *entry),
{
    LogEntry { term: entry.term, index: entry.index, command: clone_command(&entry.command) }
}

/// Convert a wire log entry to the node's form.
pub fn from_wit_log_entry(entry: &LogEntry) -> (r: crate::log::LogEntry)
    ensures
        entry_matches(*entry, r),
{
    crate::log::LogEntry {
        term: entry.term,
        index: entry.index,
        command: clone_command(&entry.command),
    }
}

/// The status reported for a slot that holds no live node.
pub fn dead_status() -> (r: NodeStatus)
    ensures
        r.id == 0,
        r.state == NodeState::Dead,
        r.term == 0,
        r.log_length == 0,
        r.commit_index == 0,
{
    NodeStatus { id: 0, state: NodeState::Dead, term: 0, log_length: 0, commit_index: 0 }
}

/// A snapshot of a live node: its id, role, term, log length, and
/// commit index.
pub fn get_node_status(node: &crate::node::RaftNode) -> (r: NodeStatus)
    ensures
        r.id == node.id,
        r.state == wire_state_of(node.state),
        r.term == node.current_term,
        r.log_length == node.log@.len(),
        r.commit_index == node.commit_index,
{
    NodeStatus {
        id: node.id,
        state: to_wit_state(node.state),
        term: node.current_term,
        log_length: node.log.len() as u64,
        commit_index: node.commit_index,
    }
}

/// Convert a node message to wire form, field for field.
pub fn to_wit_message(msg: &crate::message::RaftMessage) -> (r: RaftMessage)
    ensures
        match *msg {
            crate::message::RaftMessage::PreVoteRequest {
                term,
                candidate_id,
                last_log_index,
                last_log_term,
            } => r == RaftMessage::PreVoteReq(
                PreVoteRequest { term, candidate_id, last_log_index, last_log_term },
            ),
            crate::message::RaftMessage::PreVoteResponse { term, vote_granted } => r
                == RaftMessage::PreVoteRes(PreVoteResponse { term, vote_granted }),
            crate::message::RaftMessage::VoteRequest {
                term,
                candidate_id,
                last_log_index,
                last_log_term,
            } => r == RaftMessage::VoteReq(
                VoteRequest { term, candidate_id, last_log_index, last_log_term },
            ),
            crate::message::RaftMessage::VoteResponse { term, vote_granted } => r
                == RaftMessage::VoteRes(VoteResponse { term, vote_granted }),
            crate::message::RaftMessage::AppendEntries {
                term,
                leader_id,
                prev_log_index,
                prev_log_term,
                entries,
                leader_commit,
            } => {
                &&& r matches RaftMessage::AppendReq(a)
                &&& a.term == term
                &&& a.leader_id == leader_id
                &&& a.prev_log_index == prev_log_index
                &&& a.prev_log_term == prev_log_term
                &&& entries_match(a.entries@, entries@)
                &&& a.leader_commit == leader_commit
            },
            crate::message::RaftMessage::AppendEntriesResponse { term, success } => r
                == RaftMessage::AppendRes(AppendEntriesResponse { term, success }),
        },
{
    match msg {
        crate::message::RaftMessage::PreVoteRequest {
            term,
            candidate_id,
            last_log_index,
            last_log_term,
        } => RaftMessage::PreVoteReq(
            PreVoteRequest {
                term: *term,
                candidate_id: *candidate_id,
                last_log_index: *last_log_index,
                last_log_term: *last_log_term,
            },
        ),
        crate::message::RaftMessage::PreVoteResponse { term, vote_granted } => {
            RaftMessage::PreVoteRes(PreVoteResponse { term: *term, vote_granted: *vote_granted })
        },
        crate::message::RaftMessage::VoteRequest {
            term,
            candidate_id,
            last_log_index,
            last_log_term,
        } => RaftMessage::VoteReq(
            VoteRequest {
                term: *term,
                candidate_id: *candidate_id,
                last_log_index: *last_log_index,
                last_log_term: *last_log_term,
            },
        ),
        crate::message::RaftMessage::VoteResponse { term, vote_granted } => {
            RaftMessage::VoteRes(VoteResponse { term: *term, vote_granted: *vote_granted })
        },
        crate::message::RaftMessage::AppendEntries {
            term,
            leader_id,
            prev_log_index,
            prev_log_term,
            entries,
            leader_commit,
        } => {
            let mut wire_entries: Vec<LogEntry> = Vec::new();
            let mut i: usize = 0;
            while i < entries.len()
                invariant
                    i <= entries@.len(),
                    entries_match(wire_entries@, entries@.take(i as int)),
                decreases entries@.len() - i,
            {
                let c = to_wit_log_entry(&entries[i]);
                proof {
                    lemma_entries_match_push(
                        wire_entries@,
                        entries@.take(i as int),
                        c,
                        entries@[i as int],
                    );
                    assert(entries@.take(i as int).push(entries@[i as int]) =~= entries@.take(
                        i + 1,
                    ));
                }
                wire_entries.push(c);
                i = i + 1;
            }
            proof {
                assert(entries@.take(entries@.len() as int) =~= entries@);
            }
            RaftMessage::AppendReq(
                AppendEntries {
                    term: *term,
                    leader_id: *leader_id,
                    prev_log_index: *prev_log_index,
                    prev_log_term: *prev_log_term,
                    entries: wire_entries,
                    leader_commit: *leader_commit,
                },
            )
        },
        crate::message::RaftMessage::AppendEntriesResponse { term, success } => {
            RaftMessage::AppendRes(AppendEntriesResponse { term: *term, success: *success })
        },
    }
}

/// Convert a wire message to the node's form, field for field.
pub fn from_wit_message(msg: RaftMessage) -> (r: crate::message::RaftMessage)
    ensures
        match msg {
            RaftMessage::PreVoteReq(q) => r == (crate::message::RaftMessage::PreVoteRequest {
                term: q.term,
                candidate_id: q.candidate_id,
                last_log_index: q.last_log_index,
                last_log_term: q.last_log_term,
            }),
            RaftMessage::PreVoteRes(q) => r == (crate::message::RaftMessage::PreVoteResponse {
                term: q.term,
                vote_granted: q.vote_granted,
            }),
            RaftMessage::VoteReq(q) => r == (crate::message::RaftMessage::VoteRequest {
                term: q.term,
                candidate_id: q.candidate_id,
                last_log_index: q.last_log_index,
                last_log_term: q.last_log_term,
            }),
            RaftMessage::VoteRes(q) => r == (crate::message::RaftMessage::VoteResponse {
                term: q.term,
                vote_granted: q.vote_granted,
            }),
            RaftMessage::AppendReq(a) => {
                &&& r matches crate::message::RaftMessage::AppendEntries {
                    term,
                    leader_id,
                    prev_log_index,
                    prev_log_term,
                    entries,
                    leader_commit,
                }
                &&& term == a.term
                &&& leader_id == a.leader_id
                &&& prev_log_index == a.prev_log_index
                &&& prev_log_term == a.prev_log_term
                &&& entries_match(a.entries@, entries@)
                &&& leader_commit == a.leader_commit
            },
            RaftMessage::AppendRes(a) => r
                == (crate::message::RaftMessage::AppendEntriesResponse {
                term: a.term,
                success: a.success,
            }),
        },
{
    match msg {
        RaftMessage::PreVoteReq(q) => crate::message::RaftMessage::PreVoteRequest {
            term: q.term,
            candidate_id: q.candidate_id,
            last_log_index: q.last_log_index,
            last_log_term: q.last_log_term,
        },
        RaftMessage::PreVoteRes(q) => crate::message::RaftMessage::PreVoteResponse {
            term: q.term,
            vote_granted: q.vote_granted,
        },
        RaftMessage::VoteReq(q) => crate::message::RaftMessage::VoteRequest {
            term: q.term,
            candidate_id: q.candidate_id,
            last_log_index: q.last_log_index,
            last_log_term: q.last_log_term,
        },
        RaftMessage::VoteRes(q) => crate::message::RaftMessage::VoteResponse {
            term: q.term,
            vote_granted: q.vote_granted,
        },
        RaftMessage::AppendReq(a) => {
            let mut core_entries: Vec<crate::log::LogEntry> = Vec::new();
            let mut i: usize = 0;
            while i < a.entries.len()
                invariant
                    i <= a.entries@.len(),
                    entries_match(a.entries@.take(i as int), core_entries@),
                decreases a.entries@.len() - i,
            {
                let c = from_wit_log_entry(&a.entries[i]);
                proof {
                    lemma_entries_match_push(
                        a.entries@.take(i as int),
                        core_entries@,
                        a.entries@[i as int],
                        c,
                    );
                    assert(a.entries@.take(i as int).push(a.entries@[i as int])
                        =~= a.entries@.take(i + 1));
                }
                core_entries.push(c);
                i = i + 1;
            }
            proof {
                assert(a.entries@.take(a.entries@.len() as int) =~= a.entries@);
            }
            crate::message::RaftMessage::AppendEntries {
                term: a.term,
                leader_id: a.leader_id,
                prev_log_index: a.prev_log_index,
                prev_log_term: a.prev_log_term,
                entries: core_entries,
                leader_commit: a.leader_commit,
            }
        },
        RaftMessage::AppendRes(a) => crate::message::RaftMessage::AppendEntriesResponse {
            term: a.term,
            success: a.success,
        },
    }
}

} // verus!
