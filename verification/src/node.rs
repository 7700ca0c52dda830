//! The Raft node state machine: roles, configuration, and the
//! deterministic handlers for every message kind and local event.

use vstd::prelude::*;
use std::collections::HashMap;
use crate::log::{
    LogEntry, agrees_at, append_consistent, copy_entry, divergence_from, entries_like,
    entries_well_formed, entry_like, last_index_of, last_term_of, log_wf, merge_log, term_at,
};
use crate::message::RaftMessage;

verus! {

/// The possible roles of a Raft node.
#[derive(Debug, Clone, Copy, PartialEq, Eq, Structural)]
pub enum NodeState {
    /// Passive role: listens for heartbeats, votes when asked.
    Follower,
    /// Probing role: collecting pre-votes before a real election,
    /// without having incremented the term.
    PreCandidate,
    /// Transitional role: requesting votes to become leader.
    Candidate,
    /// Active role: manages log replication, sends heartbeats.
    Leader,
}

impl Default for NodeState {
    fn default() -> (r: Self)
        ensures
            r == NodeState::Follower,
    {
        NodeState::Follower
    }
}

/// Timing configuration for a node, in milliseconds. The host owns the
/// timers; the node only records the intervals it was configured with.
#[derive(Debug, Clone)]
pub struct RaftConfig {
    /// Minimum election timeout.
    pub election_timeout_min: u64,
    /// Maximum election timeout.
    pub election_timeout_max: u64,
    /// Heartbeat interval.
    pub heartbeat_interval: u64,
}

impl Default for RaftConfig {
    fn default() -> (r: Self)
        ensures
            r.election_timeout_min == 150,
            r.election_timeout_max == 300,
            r.heartbeat_interval == 50,
    {
        RaftConfig { election_timeout_min: 150, election_timeout_max: 300, heartbeat_interval: 50 }
    }
}

/// Majority threshold for a cluster of `n` nodes.
pub open spec fn spec_quorum(n: int) -> int {
    n / 2 + 1
}

/// The smaller of two indices.
pub open spec fn min_u64(a: u64, b: u64) -> u64 {
    if a < b {
        a
    } else {
        b
    }
}

/// The larger of two indices.
pub open spec fn max_u64(a: u64, b: u64) -> u64 {
    if a > b {
        a
    } else {
        b
    }
}

/// Log A is at least as up to date as log B when A's last term is
/// higher, or the last terms tie and A's last index is at least B's.
pub open spec fn up_to_date(cand_last_term: u64, cand_last_index: u64, log: Seq<LogEntry>) -> bool {
    ||| cand_last_term > last_term_of(log)
    ||| (cand_last_term == last_term_of(log) && cand_last_index >= last_index_of(log))
}

/// A vote is granted when the node has not yet voted for someone else
/// in this term and the candidate's log is at least as up to date.
pub open spec fn vote_granted_spec(
    voted_for: Option<u64>,
    log: Seq<LogEntry>,
    candidate_id: u64,
    last_log_index: u64,
    last_log_term: u64,
) -> bool {
    &&& (voted_for is None || voted_for == Some(candidate_id))
    &&& up_to_date(last_log_term, last_log_index, log)
}

/// A single Raft node in the cluster.
///
/// Persistent fields must survive restarts and be durably stored before
/// any reply that depends on them leaves the node; the rest is volatile.
#[derive(Debug)]
pub struct RaftNode {
    /// Unique identifier for this node.
    pub id: u64,
    /// Current term number; never decreases.
    pub current_term: u64,
    /// Node id that received our vote in the current term, if any.
    pub voted_for: Option<u64>,
    /// The replicated log entries.
    pub log: Vec<LogEntry>,
    /// Current role.
    pub state: NodeState,
    /// Index of the highest log entry known to be committed.
    pub commit_index: u64,
    /// Index of the highest log entry handed to the state machine.
    pub last_applied: u64,
    /// For each peer, index of the next log entry to send (leader only).
    pub next_index: HashMap<u64, u64>,
    /// For each peer, highest log index known replicated (leader only).
    pub match_index: HashMap<u64, u64>,
    /// Ids of all nodes in the cluster, this node's own id among them.
    pub cluster_nodes: Vec<u64>,
    /// Timing configuration.
    pub config: RaftConfig,
    /// Votes received in the current election (candidate only).
    pub votes_received: Vec<u64>,
    /// Pre-votes received in the current probe (pre-candidate only).
    pub prevotes_received: Vec<u64>,
    /// Whether a valid leader has been heard from since the election
    /// timer last fired; pre-votes are refused while this holds.
    pub heard_from_leader: bool,
}

impl RaftNode {
    /// Structural invariant: the log numbers its entries 1, 2, 3, ...,
    /// applied entries never run ahead of committed ones, and the log
    /// leaves room for at least one more index.
    pub open spec fn wf(self) -> bool {
        &&& log_wf(self.log@)
        &&& self.log@.len() < u64::MAX
        &&& self.last_applied <= self.commit_index
    }

    /// The node's quorum threshold as a spec value.
    pub open spec fn spec_quorum_size(self) -> int {
        spec_quorum(self.cluster_nodes@.len() as int)
    }

    /// Everything that no handler ever changes: identity, cluster
    /// membership, and timing configuration.
    pub open spec fn same_static(pre: RaftNode, post: RaftNode) -> bool {
        &&& post.id == pre.id
        &&& post.cluster_nodes == pre.cluster_nodes
        &&& post.config == pre.config
    }

    /// The step-down transition: the node returns to Follower, adopts a
    /// strictly higher term (forgetting its vote) but never a lower
    /// one, and abandons any election in progress. Nothing else moves.
    pub open spec fn followed(pre: RaftNode, post: RaftNode, term: u64) -> bool {
        &&& Self::same_static(pre, post)
        &&& post.state == NodeState::Follower
        &&& post.current_term == if term > pre.current_term {
            term
        } else {
            pre.current_term
        }
        &&& post.voted_for == if term > pre.current_term {
            None::<u64>
        } else {
            pre.voted_for
        }
        &&& post.votes_received@ == Seq::<u64>::empty()
        &&& post.prevotes_received@ == Seq::<u64>::empty()
        &&& post.log == pre.log
        &&& post.commit_index == pre.commit_index
        &&& post.last_applied == pre.last_applied
        &&& post.next_index == pre.next_index
        &&& post.match_index == pre.match_index
        &&& post.heard_from_leader == pre.heard_from_leader
    }

    /// Create a new Raft node in Follower state with term 0, no vote,
    /// and an empty log.
    pub fn new(id: u64, cluster_nodes: Vec<u64>) -> (r: RaftNode)
        ensures
            r.id == id,
            r.current_term == 0,
            r.voted_for is None,
            r.log@ == Seq::<LogEntry>::empty(),
            r.state == NodeState::Follower,
            r.commit_index == 0,
            r.last_applied == 0,
            r.next_index@ == Map::<u64, u64>::empty(),
            r.match_index@ == Map::<u64, u64>::empty(),
            r.cluster_nodes == cluster_nodes,
            r.config.election_timeout_min == 150,
            r.config.election_timeout_max == 300,
            r.config.heartbeat_interval == 50,
            r.votes_received@ == Seq::<u64>::empty(),
            r.prevotes_received@ == Seq::<u64>::empty(),
            !r.heard_from_leader,
            r.wf(),
    {
        RaftNode {
            id,
            current_term: 0,
            voted_for: None,
            log: Vec::new(),
            state: NodeState::Follower,
            commit_index: 0,
            last_applied: 0,
            next_index: HashMap::new(),
            match_index: HashMap::new(),
            cluster_nodes,
            config: RaftConfig::default(),
            votes_received: Vec::new(),
            prevotes_received: Vec::new(),
            heard_from_leader: false,
        }
    }

    /// Create a node with a custom timing configuration.
    pub fn with_config(id: u64, cluster_nodes: Vec<u64>, config: RaftConfig) -> (r: RaftNode)
        ensures
            r.id == id,
            r.current_term == 0,
            r.voted_for is None,
            r.log@ == Seq::<LogEntry>::empty(),
            r.state == NodeState::Follower,
            r.commit_index == 0,
            r.last_applied == 0,
            r.next_index@ == Map::<u64, u64>::empty(),
            r.match_index@ == Map::<u64, u64>::empty(),
            r.cluster_nodes == cluster_nodes,
            r.config == config,
            r.votes_received@ == Seq::<u64>::empty(),
            r.prevotes_received@ == Seq::<u64>::empty(),
            !r.heard_from_leader,
            r.wf(),
    {
        let mut node = Self::new(id, cluster_nodes);
        node.config = config;
        node
    }

    /// Number of nodes needed for a majority of the cluster.
    pub fn quorum_size(&self) -> (r: usize)
        ensures
            r as int == self.spec_quorum_size(),
    {
        (self.cluster_nodes.len() / 2) + 1
    }

    /// Whether the votes received so far reach a majority.
    pub fn has_quorum(&self) -> (r: bool)
        ensures
            r == (self.votes_received@.len() as int >= self.spec_quorum_size()),
    {
        self.votes_received.len() >= self.quorum_size()
    }

    /// Index of the last log entry, or 0 if the log is empty.
    pub fn last_log_index(&self) -> (r: u64)
        ensures
            r == last_index_of(self.log@),
    {
        if self.log.len() == 0 {
            0
        } else {
            self.log[self.log.len() - 1].index
        }
    }

    /// Term of the last log entry, or 0 if the log is empty.
    pub fn last_log_term(&self) -> (r: u64)
        ensures
            r == last_term_of(self.log@),
    {
        if self.log.len() == 0 {
            0
        } else {
            self.log[self.log.len() - 1].term
        }
    }

    /// The log entry at a 1-based index, if present.
    pub fn get_entry(&self, index: u64) -> (r: Option<&LogEntry>)
        requires
            self.wf(),
        ensures
            match r {
                Some(e) => 1 <= index as int <= self.log@.len() && *e == self.log@[index as int
                    - 1],
                None => !(1 <= index as int <= self.log@.len()),
            },
    {
        if index == 0 || index > self.log.len() as u64 {
            None
        } else {
            Some(&self.log[(index - 1) as usize])
        }
    }

    /// Term of the entry at a 1-based index, or 0 if absent.
    pub fn get_term_at(&self, index: u64) -> (r: u64)
        requires
            self.wf(),
        ensures
            r == term_at(self.log@, index),
    {
        match self.get_entry(index) {
            Some(e) => e.term,
            None => 0,
        }
    }

    /// Step down to Follower, adopting `term` if it is higher than the
    /// current term (and only in that case forgetting the vote, so that
    /// at most one vote is ever granted per term).
    pub fn become_follower(&mut self, term: u64)
        ensures
            Self::followed(*old(self), *final(self), term),
            final(self).current_term >= old(self).current_term,
            old(self).wf() ==> final(self).wf(),
    {
        self.state = NodeState::Follower;
        if term > self.current_term {
            self.current_term = term;
            self.voted_for = None;
        }
        self.votes_received.clear();
        self.prevotes_received.clear();
    }

    /// Start an election: become Candidate, move to the next term, vote
    /// for self, and produce the VoteRequest to send to every peer.
    pub fn start_election(&mut self) -> (r: RaftMessage)
        requires
            old(self).current_term < u64::MAX,
        ensures
            Self::same_static(*old(self), *final(self)),
            final(self).state == NodeState::Candidate,
            final(self).current_term == old(self).current_term + 1,
            final(self).voted_for == Some(old(self).id),
            final(self).votes_received@ == seq![old(self).id],
            final(self).prevotes_received@ == Seq::<u64>::empty(),
            !final(self).heard_from_leader,
            final(self).log == old(self).log,
            final(self).commit_index == old(self).commit_index,
            final(self).last_applied == old(self).last_applied,
            final(self).next_index == old(self).next_index,
            final(self).match_index == old(self).match_index,
            r == (RaftMessage::VoteRequest {
                term: (old(self).current_term + 1) as u64,
                candidate_id: old(self).id,
                last_log_index: last_index_of(old(self).log@),
                last_log_term: last_term_of(old(self).log@),
            }),
            final(self).current_term >= old(self).current_term,
            old(self).wf() ==> final(self).wf(),
    {
        self.state = NodeState::Candidate;
        self.current_term = self.current_term + 1;
        self.voted_for = Some(self.id);
        let mut own_vote: Vec<u64> = Vec::new();
        own_vote.push(self.id);
        self.votes_received = own_vote;
        self.prevotes_received = Vec::new();
        self.heard_from_leader = false;
        assert(self.votes_received@ =~= seq![self.id]);
        RaftMessage::VoteRequest {
            term: self.current_term,
            candidate_id: self.id,
            last_log_index: self.last_log_index(),
            last_log_term: self.last_log_term(),
        }
    }

    /// The next-index and match-index tables a fresh leader starts
    /// with: every peer other than the leader itself is bound to `v`.
    pub open spec fn peers_set_to(m: Map<u64, u64>, cluster: Seq<u64>, id: u64, v: u64) -> Map<
        u64,
        u64,
    >
        decreases cluster.len(),
    {
        if cluster.len() == 0 {
            m
        } else {
            let rest = Self::peers_set_to(m, cluster.drop_last(), id, v);
            if cluster.last() == id {
                rest
            } else {
                rest.insert(cluster.last(), v)
            }
        }
    }

    /// Become leader after winning an election: initialize next-index
    /// to just past the end of the log and match-index to 0 for every
    /// peer, and clear the collected votes.
    pub fn become_leader(&mut self)
        requires
            old(self).state == NodeState::Candidate,
            old(self).votes_received@.len() as int >= old(self).spec_quorum_size(),
            last_index_of(old(self).log@) < u64::MAX,
        ensures
            Self::same_static(*old(self), *final(self)),
            final(self).state == NodeState::Leader,
            final(self).votes_received@ == Seq::<u64>::empty(),
            final(self).prevotes_received == old(self).prevotes_received,
            final(self).current_term == old(self).current_term,
            final(self).voted_for == old(self).voted_for,
            final(self).log == old(self).log,
            final(self).commit_index == old(self).commit_index,
            final(self).last_applied == old(self).last_applied,
            final(self).heard_from_leader == old(self).heard_from_leader,
            final(self).next_index@ == Self::peers_set_to(
                old(self).next_index@,
                old(self).cluster_nodes@,
                old(self).id,
                (last_index_of(old(self).log@) + 1) as u64,
            ),
            final(self).match_index@ == Self::peers_set_to(
                old(self).match_index@,
                old(self).cluster_nodes@,
                old(self).id,
                0,
            ),
            old(self).wf() ==> final(self).wf(),
    {
        self.state = NodeState::Leader;
        self.votes_received.clear();
        let last_log_idx = self.last_log_index();
        let ghost pre_next = self.next_index@;
        let ghost pre_match = self.match_index@;
        let mut i: usize = 0;
        while i < self.cluster_nodes.len()
            invariant
                i <= self.cluster_nodes.len(),
                last_log_idx < u64::MAX,
                self.next_index@ == Self::peers_set_to(
                    pre_next,
                    self.cluster_nodes@.take(i as int),
                    self.id,
                    (last_log_idx + 1) as u64,
                ),
                self.match_index@ == Self::peers_set_to(
                    pre_match,
                    self.cluster_nodes@.take(i as int),
                    self.id,
                    0,
                ),
                self.log == old(self).log,
                self.id == old(self).id,
                self.cluster_nodes == old(self).cluster_nodes,
                self.config == old(self).config,
                self.state == NodeState::Leader,
                self.votes_received@ == Seq::<u64>::empty(),
                self.prevotes_received == old(self).prevotes_received,
                self.current_term == old(self).current_term,
                self.voted_for == old(self).voted_for,
                self.commit_index == old(self).commit_index,
                self.last_applied == old(self).last_applied,
                self.heard_from_leader == old(self).heard_from_leader,
            decreases self.cluster_nodes.len() - i,
        {
            let node_id = self.cluster_nodes[i];
            if node_id != self.id {
                self.next_index.insert(node_id, last_log_idx + 1);
                self.match_index.insert(node_id, 0);
            }
            proof {
                let c = self.cluster_nodes@;
                assert(c.take(i + 1).drop_last() =~= c.take(i as int));
                assert(c.take(i + 1).last() == c[i as int]);
            }
            i = i + 1;
        }
        proof {
            assert(self.cluster_nodes@.take(self.cluster_nodes@.len() as int)
                =~= self.cluster_nodes@);
        }
    }

    /// Append a command to the log as a new entry at the next index,
    /// stamped with the current term, and return a copy of the entry.
    pub fn append_entry(&mut self, command: Vec<u8>) -> (r: LogEntry)
        requires
            old(self).wf(),
            old(self).log@.len() + 1 < u64::MAX,
        ensures
            Self::same_static(*old(self), *final(self)),
            final(self).log@ == old(self).log@.push(
                LogEntry {
                    term: old(self).current_term,
                    index: (old(self).log@.len() + 1) as u64,
                    command,
                },
            ),
            entry_like(r, final(self).log@.last()),
            final(self).state == old(self).state,
            final(self).current_term == old(self).current_term,
            final(self).voted_for == old(self).voted_for,
            final(self).commit_index == old(self).commit_index,
            final(self).last_applied == old(self).last_applied,
            final(self).next_index == old(self).next_index,
            final(self).match_index == old(self).match_index,
            final(self).votes_received == old(self).votes_received,
            final(self).prevotes_received == old(self).prevotes_received,
            final(self).heard_from_leader == old(self).heard_from_leader,
            final(self).wf(),
    {
        proof {
            crate::log::lemma_last_index_is_len(self.log@);
        }
        let index = self.last_log_index() + 1;
        let entry = LogEntry::new(self.current_term, index, command);
        let r = copy_entry(&entry);
        self.log.push(entry);
        r
    }

    /// Whether the candidate's log is at least as up to date as ours:
    /// compare last terms first, last indices only on a tie.
    fn is_log_up_to_date(&self, last_log_index: u64, last_log_term: u64) -> (r: bool)
        ensures
            r == up_to_date(last_log_term, last_log_index, self.log@),
    {
        let our_last_term = self.last_log_term();
        let our_last_index = self.last_log_index();
        if last_log_term != our_last_term {
            last_log_term > our_last_term
        } else {
            last_log_index >= our_last_index
        }
    }

    /// Linear search over a vector of node ids.
    fn id_vec_contains(v: &Vec<u64>, x: u64) -> (r: bool)
        ensures
            r == v@.contains(x),
    {
        let mut i: usize = 0;
        while i < v.len()
            invariant
                i <= v.len(),
                forall|j: int| 0 <= j < i ==> v@[j] != x,
            decreases v.len() - i,
        {
            if v[i] == x {
                assert(v@[i as int] == x);
                return true;
            }
            i = i + 1;
        }
        assert(!v@.contains(x));
        false
    }

    /// Handle a vote request from a candidate. Returns the response
    /// and whether the election timer should be reset (it is reset
    /// exactly when the vote is granted).
    ///
    /// A request with a stale term is refused and changes nothing. A
    /// newer term first forces a step-down. The vote is granted only
    /// to a candidate this node has not voted against in this term and
    /// whose log is at least as up to date; within one term an
    /// existing vote never moves to a different candidate.
    pub fn handle_vote_request(
        &mut self,
        term: u64,
        candidate_id: u64,
        last_log_index: u64,
        last_log_term: u64,
    ) -> (r: (RaftMessage, bool))
        ensures
            Self::same_static(*old(self), *final(self)),
            final(self).current_term >= old(self).current_term,
            final(self).log == old(self).log,
            final(self).commit_index == old(self).commit_index,
            final(self).last_applied == old(self).last_applied,
            final(self).next_index == old(self).next_index,
            final(self).match_index == old(self).match_index,
            final(self).heard_from_leader == old(self).heard_from_leader,
            old(self).wf() ==> final(self).wf(),
            term < old(self).current_term ==> *final(self) == *old(self) && r.0
                == (RaftMessage::VoteResponse {
                term: old(self).current_term,
                vote_granted: false,
            }) && r.1 == false,
            term >= old(self).current_term ==> ({
                let voted_before = if term > old(self).current_term {
                    None::<u64>
                } else {
                    old(self).voted_for
                };
                let granted = vote_granted_spec(
                    voted_before,
                    old(self).log@,
                    candidate_id,
                    last_log_index,
                    last_log_term,
                );
                &&& final(self).current_term == term
                &&& final(self).state == if term > old(self).current_term {
                    NodeState::Follower
                } else {
                    old(self).state
                }
                &&& final(self).votes_received@ == if term > old(self).current_term {
                    Seq::<u64>::empty()
                } else {
                    old(self).votes_received@
                }
                &&& final(self).prevotes_received@ == if term > old(self).current_term {
                    Seq::<u64>::empty()
                } else {
                    old(self).prevotes_received@
                }
                &&& final(self).voted_for == if granted {
                    Some(candidate_id)
                } else {
                    voted_before
                }
                &&& r.0 == (RaftMessage::VoteResponse { term, vote_granted: granted })
                &&& r.1 == granted
            }),
            final(self).current_term == old(self).current_term && old(self).voted_for is Some
                ==> final(self).voted_for == old(self).voted_for,
    {
        if term < self.current_term {
            return (
                RaftMessage::VoteResponse { term: self.current_term, vote_granted: false },
                false,
            );
        }
        if term > self.current_term {
            self.become_follower(term);
        }
        let can_vote = match self.voted_for {
            None => true,
            Some(v) => v == candidate_id,
        };
        let log_ok = self.is_log_up_to_date(last_log_index, last_log_term);
        let vote_granted = can_vote && log_ok;
        if vote_granted {
            self.voted_for = Some(candidate_id);
        }
        (RaftMessage::VoteResponse { term: self.current_term, vote_granted }, vote_granted)
    }

    /// Handle a vote response (meaningful only while Candidate).
    /// Returns true exactly when this response completed a quorum and
    /// the node just became Leader.
    ///
    /// A response with a higher term forces a step-down; a response for
    /// another term or in another role is stale and ignored; duplicate
    /// grants from the same peer are counted once.
    pub fn handle_vote_response(&mut self, term: u64, vote_granted: bool, from: u64) -> (r: bool)
        requires
            last_index_of(old(self).log@) < u64::MAX,
        ensures
            Self::same_static(*old(self), *final(self)),
            final(self).current_term >= old(self).current_term,
            final(self).log == old(self).log,
            final(self).commit_index == old(self).commit_index,
            final(self).last_applied == old(self).last_applied,
            final(self).voted_for == old(self).voted_for || (term > old(self).current_term
                && final(self).voted_for is None),
            old(self).wf() ==> final(self).wf(),
            final(self).current_term == old(self).current_term && old(self).voted_for is Some
                ==> final(self).voted_for == old(self).voted_for,
            term > old(self).current_term ==> Self::followed(*old(self), *final(self), term) && r
                == false,
            term <= old(self).current_term && (old(self).state != NodeState::Candidate || term
                != old(self).current_term) ==> *final(self) == *old(self) && r == false,
            term == old(self).current_term && old(self).state == NodeState::Candidate ==> ({
                let counted = vote_granted && !old(self).votes_received@.contains(from);
                let votes2 = old(self).votes_received@.push(from);
                &&& !counted ==> *final(self) == *old(self) && r == false
                &&& counted && votes2.len() < old(self).spec_quorum_size() ==> r == false
                    && final(self).state == NodeState::Candidate
                    && final(self).votes_received@ == votes2
                    && final(self).current_term == old(self).current_term
                    && final(self).voted_for == old(self).voted_for
                    && final(self).next_index == old(self).next_index
                    && final(self).match_index == old(self).match_index
                    && final(self).prevotes_received == old(self).prevotes_received
                    && final(self).heard_from_leader == old(self).heard_from_leader
                &&& counted && votes2.len() >= old(self).spec_quorum_size() ==> r == true
                    && final(self).state == NodeState::Leader
                    && final(self).votes_received@ == Seq::<u64>::empty()
                    && final(self).current_term == old(self).current_term
                    && final(self).voted_for == old(self).voted_for
                    && final(self).heard_from_leader == old(self).heard_from_leader
                    && final(self).next_index@ == Self::peers_set_to(
                    old(self).next_index@,
                    old(self).cluster_nodes@,
                    old(self).id,
                    (last_index_of(old(self).log@) + 1) as u64,
                ) && final(self).match_index@ == Self::peers_set_to(
                    old(self).match_index@,
                    old(self).cluster_nodes@,
                    old(self).id,
                    0,
                )
            }),
            final(self).state == NodeState::Leader && old(self).state != NodeState::Leader
                ==> old(self).votes_received@.len() + 1 >= old(self).spec_quorum_size(),
    {
        if term > self.current_term {
            self.become_follower(term);
            return false;
        }
        if self.state != NodeState::Candidate {
            return false;
        }
        if term != self.current_term {
            return false;
        }
        if vote_granted && !Self::id_vec_contains(&self.votes_received, from) {
            self.votes_received.push(from);
            if self.has_quorum() {
                self.become_leader();
                return true;
            }
        }
        false
    }

    /// The tail of the log holding every entry with index at least
    /// `next`; empty when `next` points past the end.
    pub open spec fn suffix_from(log: Seq<LogEntry>, next: u64) -> Seq<LogEntry> {
        if next as int <= 1 {
            log
        } else if next as int - 1 <= log.len() {
            log.skip(next as int - 1)
        } else {
            log.skip(log.len() as int)
        }
    }

    /// Build the AppendEntries message for one follower (leader only):
    /// all entries from that follower's next-index on, together with
    /// the coordinates of the entry just before them.
    ///
    /// Yields nothing when this node is not the leader or tracks no
    /// next-index for `follower_id`.
    pub fn create_append_entries(&self, follower_id: u64) -> (r: Option<RaftMessage>)
        requires
            self.wf(),
        ensures
            r is Some <==> (self.state == NodeState::Leader && self.next_index@.contains_key(
                follower_id,
            )),
            r matches Some(m) ==> ({
                let next = self.next_index@[follower_id];
                let prev = if next > 1 {
                    (next - 1) as u64
                } else {
                    0u64
                };
                &&& m matches RaftMessage::AppendEntries {
                    term,
                    leader_id,
                    prev_log_index,
                    prev_log_term,
                    entries,
                    leader_commit,
                }
                &&& term == self.current_term
                &&& leader_id == self.id
                &&& prev_log_index == prev
                &&& prev_log_term == term_at(self.log@, prev)
                &&& entries_like(entries@, Self::suffix_from(self.log@, next))
                &&& leader_commit == self.commit_index
            }),
    {
        if self.state != NodeState::Leader {
            return None;
        }
        let next_idx: u64 = match self.next_index.get(&follower_id) {
            Some(n) => *n,
            None => {
                return None;
            },
        };
        let prev_log_index = if next_idx > 1 {
            next_idx - 1
        } else {
            0
        };
        let prev_log_term = self.get_term_at(prev_log_index);
        let start: usize = if next_idx <= 1 {
            0
        } else if next_idx - 1 >= self.log.len() as u64 {
            self.log.len()
        } else {
            (next_idx - 1) as usize
        };
        let mut entries: Vec<LogEntry> = Vec::new();
        let mut i: usize = start;
        while i < self.log.len()
            invariant
                start <= i <= self.log@.len(),
                entries_like(entries@, self.log@.subrange(start as int, i as int)),
            decreases self.log@.len() - i,
        {
            let e = copy_entry(&self.log[i]);
            proof {
                crate::log::lemma_entries_like_push(
                    entries@,
                    self.log@.subrange(start as int, i as int),
                    e,
                    self.log@[i as int],
                );
                assert(self.log@.subrange(start as int, i as int).push(self.log@[i as int])
                    =~= self.log@.subrange(start as int, i + 1));
            }
            entries.push(e);
            i = i + 1;
        }
        proof {
            assert(self.log@.subrange(start as int, self.log@.len() as int) =~= self.log@.skip(
                start as int,
            ));
            if next_idx <= 1 {
                assert(self.log@.skip(0) =~= self.log@);
            }
        }
        Some(
            RaftMessage::AppendEntries {
                term: self.current_term,
                leader_id: self.id,
                prev_log_index,
                prev_log_term,
                entries,
                leader_commit: self.commit_index,
            },
        )
    }

    /// Handle an AppendEntries request as follower or candidate.
    /// Returns the response and whether the election timer should be
    /// reset (it is, whenever the sender's term is current).
    ///
    /// A request with a stale term is refused and changes nothing.
    /// Otherwise the node steps down to Follower and notes leader
    /// contact; the request succeeds only if the consistency check
    /// passes and the entries continue the log without gaps, in which
    /// case the log becomes the merge and the commit index advances to
    /// the leader's commit, capped by the end of the local log. The
    /// commit index never moves backwards.
    pub fn handle_append_entries(
        &mut self,
        term: u64,
        _leader_id: u64,
        prev_log_index: u64,
        prev_log_term: u64,
        entries: Vec<LogEntry>,
        leader_commit: u64,
    ) -> (r: (RaftMessage, bool))
        requires
            old(self).wf(),
        ensures
            Self::same_static(*old(self), *final(self)),
            final(self).wf(),
            final(self).current_term >= old(self).current_term,
            final(self).commit_index >= old(self).commit_index,
            final(self).last_applied == old(self).last_applied,
            final(self).next_index == old(self).next_index,
            final(self).match_index == old(self).match_index,
            final(self).current_term == old(self).current_term && old(self).voted_for is Some
                ==> final(self).voted_for == old(self).voted_for,
            term < old(self).current_term ==> *final(self) == *old(self) && r.0
                == (RaftMessage::AppendEntriesResponse {
                term: old(self).current_term,
                success: false,
            }) && r.1 == false,
            term >= old(self).current_term ==> ({
                &&& final(self).state == NodeState::Follower
                &&& final(self).current_term == term
                &&& final(self).voted_for == if term > old(self).current_term {
                    None::<u64>
                } else {
                    old(self).voted_for
                }
                &&& final(self).votes_received@ == Seq::<u64>::empty()
                &&& final(self).prevotes_received@ == Seq::<u64>::empty()
                &&& final(self).heard_from_leader
                &&& r.1 == true
            }),
            term >= old(self).current_term && !(append_consistent(
                old(self).log@,
                prev_log_index,
                prev_log_term,
            ) && entries_well_formed(prev_log_index, entries@)) ==> ({
                &&& final(self).log == old(self).log
                &&& final(self).commit_index == old(self).commit_index
                &&& r.0 == (RaftMessage::AppendEntriesResponse { term, success: false })
            }),
            term >= old(self).current_term && append_consistent(
                old(self).log@,
                prev_log_index,
                prev_log_term,
            ) && entries_well_formed(prev_log_index, entries@) ==> ({
                let merged = merge_log(old(self).log@, prev_log_index as int, entries@);
                &&& final(self).log@ == merged
                &&& final(self).commit_index == max_u64(
                    old(self).commit_index,
                    min_u64(leader_commit, last_index_of(merged)),
                )
                &&& r.0 == (RaftMessage::AppendEntriesResponse { term, success: true })
            }),
    {
        if term < self.current_term {
            return (
                RaftMessage::AppendEntriesResponse { term: self.current_term, success: false },
                false,
            );
        }
        self.become_follower(term);
        self.heard_from_leader = true;

        // Log Matching check: the entry before the incoming batch must
        // be present with the term the leader announced.
        let consistent = if prev_log_index == 0 {
            true
        } else {
            prev_log_index <= self.last_log_index() && self.get_term_at(prev_log_index)
                == prev_log_term
        };
        if !consistent {
            return (
                RaftMessage::AppendEntriesResponse { term: self.current_term, success: false },
                true,
            );
        }
        proof {
            crate::log::lemma_last_index_is_len(self.log@);
        }
        let ghost orig_entries = entries@;

        // Shape check: the batch must continue contiguously after
        // prev_log_index, with indices staying below u64::MAX.
        let mut expected: u64 = prev_log_index;
        let mut k: usize = 0;
        while k < entries.len()
            invariant
                Self::same_static(*old(self), *self),
                self.wf(),
                self.state == NodeState::Follower,
                term >= old(self).current_term,
                self.current_term == term,
                self.voted_for == if term > old(self).current_term {
                    None::<u64>
                } else {
                    old(self).voted_for
                },
                self.votes_received@ == Seq::<u64>::empty(),
                self.prevotes_received@ == Seq::<u64>::empty(),
                self.heard_from_leader,
                self.log == old(self).log,
                self.commit_index == old(self).commit_index,
                self.last_applied == old(self).last_applied,
                self.next_index == old(self).next_index,
                self.match_index == old(self).match_index,
                k <= entries@.len(),
                entries@ == orig_entries,
                expected as int == prev_log_index + k,
                expected < u64::MAX,
                forall|i: int|
                    0 <= i < k ==> (#[trigger] entries@[i].index) as int == prev_log_index + 1
                        + i,
            decreases entries@.len() - k,
        {
            if expected >= u64::MAX - 1 || entries[k].index != expected + 1 {
                proof {
                    if entries_well_formed(prev_log_index, entries@) {
                        assert((entries@[k as int].index) as int == prev_log_index + 1 + k);
                    }
                }
                return (
                    RaftMessage::AppendEntriesResponse { term: self.current_term, success: false },
                    true,
                );
            }
            expected = expected + 1;
            k = k + 1;
        }
        assert(entries_well_formed(prev_log_index, entries@));

        // Merge: keep the agreeing prefix, drop everything from the
        // first conflict on, and append the remaining entries.
        proof {
            if prev_log_index != 0 {
                assert(prev_log_index as int <= self.log@.len());
            }
            assert(self.log@.len() == self.log.len());
        }
        let base: usize = prev_log_index as usize;
        let mut k2: usize = 0;
        while k2 < entries.len() && k2 < self.log.len() - base && self.log[base + k2].term
            == entries[k2].term
            invariant
                Self::same_static(*old(self), *self),
                self.wf(),
                self.state == NodeState::Follower,
                term >= old(self).current_term,
                self.current_term == term,
                self.voted_for == if term > old(self).current_term {
                    None::<u64>
                } else {
                    old(self).voted_for
                },
                self.votes_received@ == Seq::<u64>::empty(),
                self.prevotes_received@ == Seq::<u64>::empty(),
                self.heard_from_leader,
                self.log == old(self).log,
                self.commit_index == old(self).commit_index,
                self.last_applied == old(self).last_applied,
                self.next_index == old(self).next_index,
                self.match_index == old(self).match_index,
                base as int == prev_log_index as int,
                base <= self.log@.len(),
                k2 <= entries@.len(),
                entries@ == orig_entries,
                base + k2 <= self.log@.len(),
                forall|j: int|
                    0 <= j < k2 ==> #[trigger] agrees_at(self.log@, base as int, entries@, j),
            decreases entries@.len() - k2,
        {
            proof {
                assert(agrees_at(self.log@, base as int, entries@, k2 as int));
            }
            k2 = k2 + 1;
        }
        proof {
            crate::log::lemma_divergence_value(self.log@, base as int, entries@, k2 as int);
        }
        let ghost pre_log = self.log@;
        if k2 < entries.len() {
            self.log.truncate(base + k2);
            let mut head = entries;
            let mut tail = head.split_off(k2);
            proof {
                assert(tail@ =~= orig_entries.skip(k2 as int));
                assert(self.log@ =~= pre_log.take(base + k2));
                assert(self.log@ =~= pre_log.take(base + k2) + orig_entries.subrange(
                    k2 as int,
                    k2 as int,
                ));
            }
            while tail.len() > 0
                invariant
                    Self::same_static(*old(self), *self),
                    self.state == NodeState::Follower,
                    term >= old(self).current_term,
                    self.current_term == term,
                    self.voted_for == if term > old(self).current_term {
                        None::<u64>
                    } else {
                        old(self).voted_for
                    },
                    self.votes_received@ == Seq::<u64>::empty(),
                    self.prevotes_received@ == Seq::<u64>::empty(),
                    self.heard_from_leader,
                    self.commit_index == old(self).commit_index,
                    self.last_applied == old(self).last_applied,
                    self.next_index == old(self).next_index,
                    self.match_index == old(self).match_index,
                    k2 as int <= orig_entries.len(),
                    base + k2 <= pre_log.len(),
                    ({
                        let done = orig_entries.len() - k2 - tail@.len();
                        &&& 0 <= done
                        &&& tail@ == orig_entries.skip(k2 + done)
                        &&& self.log@ == pre_log.take(base + k2) + orig_entries.subrange(
                            k2 as int,
                            k2 + done,
                        )
                    }),
                decreases tail@.len(),
            {
                let ghost done = orig_entries.len() - k2 - tail@.len();
                let ghost tail_old = tail@;
                let e = tail.remove(0);
                proof {
                    assert(e == orig_entries.skip(k2 + done)[0]);
                    assert(e == orig_entries[k2 + done]);
                    assert(tail@ =~= orig_entries.skip(k2 + done + 1));
                }
                self.log.push(e);
                proof {
                    assert(self.log@ =~= pre_log.take(base + k2) + orig_entries.subrange(
                        k2 as int,
                        k2 + done + 1,
                    ));
                }
            }
            proof {
                assert(self.log@ == pre_log.take(base + k2) + orig_entries.subrange(
                    k2 as int,
                    orig_entries.len() as int,
                ));
                assert(orig_entries.subrange(k2 as int, orig_entries.len() as int)
                    =~= orig_entries.skip(k2 as int));
                assert(self.log@ == merge_log(pre_log, base as int, orig_entries));
            }
        } else {
            proof {
                assert(self.log@ == merge_log(pre_log, base as int, orig_entries));
            }
        }
        proof {
            crate::log::lemma_merge_wf(pre_log, base as int, orig_entries);
        }

        // Advance the commit index to the leader's commit, capped by
        // the end of the local log, never moving backwards.
        if leader_commit > self.commit_index {
            let last = self.last_log_index();
            let new_commit = if leader_commit < last {
                leader_commit
            } else {
                last
            };
            if new_commit > self.commit_index {
                self.commit_index = new_commit;
            }
        }
        (RaftMessage::AppendEntriesResponse { term: self.current_term, success: true }, true)
    }

    /// How many peers other than the node itself are recorded in the
    /// match-index table as holding the entry at index `n`.
    pub open spec fn replicated_count(
        cluster: Seq<u64>,
        mi: Map<u64, u64>,
        self_id: u64,
        n: u64,
    ) -> int
        decreases cluster.len(),
    {
        if cluster.len() == 0 {
            0int
        } else {
            let rest = Self::replicated_count(cluster.drop_last(), mi, self_id, n);
            let peer = cluster.last();
            if peer != self_id && mi.contains_key(peer) && mi[peer] >= n {
                rest + 1
            } else {
                rest
            }
        }
    }

    /// Index `n` qualifies as a new commit index for a leader: past the
    /// current commit, within the log, created in the current term, and
    /// replicated on a majority counting the leader itself. The last
    /// condition is what forbids committing an entry of an earlier term
    /// on replica count alone.
    pub open spec fn commit_candidate_from(
        commit: u64,
        log: Seq<LogEntry>,
        current_term: u64,
        cluster: Seq<u64>,
        id: u64,
        mi: Map<u64, u64>,
        n: u64,
    ) -> bool {
        &&& commit < n
        &&& n <= last_index_of(log)
        &&& term_at(log, n) == current_term
        &&& 1 + Self::replicated_count(cluster, mi, id, n) >= spec_quorum(cluster.len() as int)
    }

    /// Move the commit index to the largest qualifying index, if any.
    /// Returns whether it moved.
    fn try_advance_commit_index(&mut self) -> (r: bool)
        requires
            old(self).wf(),
            old(self).cluster_nodes@.len() < usize::MAX,
        ensures
            Self::same_static(*old(self), *final(self)),
            final(self).wf(),
            final(self).current_term == old(self).current_term,
            final(self).voted_for == old(self).voted_for,
            final(self).state == old(self).state,
            final(self).log == old(self).log,
            final(self).last_applied == old(self).last_applied,
            final(self).next_index == old(self).next_index,
            final(self).match_index == old(self).match_index,
            final(self).votes_received == old(self).votes_received,
            final(self).prevotes_received == old(self).prevotes_received,
            final(self).heard_from_leader == old(self).heard_from_leader,
            final(self).commit_index >= old(self).commit_index,
            final(self).commit_index != old(self).commit_index ==> Self::commit_candidate_from(
                old(self).commit_index,
                old(self).log@,
                old(self).current_term,
                old(self).cluster_nodes@,
                old(self).id,
                old(self).match_index@,
                final(self).commit_index,
            ),
            forall|n: u64|
                Self::commit_candidate_from(
                    old(self).commit_index,
                    old(self).log@,
                    old(self).current_term,
                    old(self).cluster_nodes@,
                    old(self).id,
                    old(self).match_index@,
                    n,
                ) ==> n <= final(self).commit_index,
            r == (final(self).commit_index > old(self).commit_index),
    {
        let old_commit = self.commit_index;
        proof {
            crate::log::lemma_last_index_is_len(self.log@);
        }
        let last = self.last_log_index();
        let mut n: u64 = self.commit_index;
        if n >= last {
            return false;
        }
        while n < last
            invariant
                old(self).wf(),
                Self::same_static(*old(self), *self),
                self.wf(),
                self.current_term == old(self).current_term,
                self.voted_for == old(self).voted_for,
                self.state == old(self).state,
                self.log == old(self).log,
                self.last_applied == old(self).last_applied,
                self.next_index == old(self).next_index,
                self.match_index == old(self).match_index,
                self.votes_received == old(self).votes_received,
                self.prevotes_received == old(self).prevotes_received,
                self.heard_from_leader == old(self).heard_from_leader,
                self.cluster_nodes@.len() < usize::MAX,
                last == last_index_of(old(self).log@),
                old(self).commit_index <= n <= last,
                old(self).commit_index <= self.commit_index,
                self.commit_index == old(self).commit_index || Self::commit_candidate_from(
                    old(self).commit_index,
                    old(self).log@,
                    old(self).current_term,
                    old(self).cluster_nodes@,
                    old(self).id,
                    old(self).match_index@,
                    self.commit_index,
                ),
                forall|m: u64|
                    Self::commit_candidate_from(
                        old(self).commit_index,
                        old(self).log@,
                        old(self).current_term,
                        old(self).cluster_nodes@,
                        old(self).id,
                        old(self).match_index@,
                        m,
                    ) && m <= n ==> m <= self.commit_index,
            decreases last - n,
        {
            n = n + 1;
            if self.get_term_at(n) == self.current_term {
                let mut count: usize = 1;
                let mut i: usize = 0;
                while i < self.cluster_nodes.len()
                    invariant
                        i <= self.cluster_nodes@.len(),
                        self.cluster_nodes@.len() < usize::MAX,
                        count <= 1 + i,
                        count as int == 1 + Self::replicated_count(
                            self.cluster_nodes@.take(i as int),
                            self.match_index@,
                            self.id,
                            n,
                        ),
                    decreases self.cluster_nodes@.len() - i,
                {
                    let peer = self.cluster_nodes[i];
                    if peer != self.id {
                        let replicated = match self.match_index.get(&peer) {
                            Some(mi) => *mi >= n,
                            None => false,
                        };
                        if replicated {
                            count = count + 1;
                        }
                    }
                    proof {
                        let c = self.cluster_nodes@;
                        assert(c.take(i + 1).drop_last() =~= c.take(i as int));
                        assert(c.take(i + 1).last() == c[i as int]);
                    }
                    i = i + 1;
                }
                proof {
                    assert(self.cluster_nodes@.take(self.cluster_nodes@.len() as int)
                        =~= self.cluster_nodes@);
                }
                if count >= self.quorum_size() {
                    self.commit_index = n;
                }
            }
        }
        self.commit_index > old_commit
    }

    /// Handle an AppendEntries response (meaningful only while
    /// Leader). Returns whether the commit index advanced.
    ///
    /// A response with a higher term forces a step-down; one received
    /// in another role or for an earlier term is stale and ignored. On
    /// success the peer's match index becomes the hint and its next
    /// index the hint plus one, after which the commit index advances
    /// to the largest index replicated on a majority and created in
    /// the current term. On failure the peer's next index backs off by
    /// one, with a floor of one.
    pub fn handle_append_entries_response(
        &mut self,
        term: u64,
        success: bool,
        from: u64,
        match_index_hint: u64,
    ) -> (r: bool)
        requires
            old(self).wf(),
            match_index_hint < u64::MAX,
            old(self).cluster_nodes@.len() < usize::MAX,
        ensures
            Self::same_static(*old(self), *final(self)),
            final(self).wf(),
            final(self).current_term >= old(self).current_term,
            final(self).commit_index >= old(self).commit_index,
            final(self).last_applied == old(self).last_applied,
            final(self).log == old(self).log,
            final(self).current_term == old(self).current_term && old(self).voted_for is Some
                ==> final(self).voted_for == old(self).voted_for,
            term > old(self).current_term ==> Self::followed(*old(self), *final(self), term) && r
                == false,
            term <= old(self).current_term && old(self).state != NodeState::Leader ==> *final(self)
                == *old(self) && r == false,
            term < old(self).current_term && old(self).state == NodeState::Leader ==> *final(self)
                == *old(self) && r == false,
            term == old(self).current_term && old(self).state == NodeState::Leader && !success
                ==> ({
                &&& final(self).next_index@ == if old(self).next_index@.contains_key(from) && old(
                    self,
                ).next_index@[from] > 1 {
                    old(self).next_index@.insert(from, (old(self).next_index@[from] - 1) as u64)
                } else {
                    old(self).next_index@
                }
                &&& final(self).match_index == old(self).match_index
                &&& final(self).commit_index == old(self).commit_index
                &&& final(self).state == NodeState::Leader
                &&& final(self).current_term == old(self).current_term
                &&& final(self).voted_for == old(self).voted_for
                &&& final(self).votes_received == old(self).votes_received
                &&& final(self).prevotes_received == old(self).prevotes_received
                &&& final(self).heard_from_leader == old(self).heard_from_leader
                &&& r == false
            }),
            term == old(self).current_term && old(self).state == NodeState::Leader && success
                ==> ({
                let ni = if old(self).next_index@.contains_key(from) {
                    old(self).next_index@.insert(from, (match_index_hint + 1) as u64)
                } else {
                    old(self).next_index@
                };
                let mi = if old(self).match_index@.contains_key(from) {
                    old(self).match_index@.insert(from, match_index_hint)
                } else {
                    old(self).match_index@
                };
                &&& final(self).next_index@ == ni
                &&& final(self).match_index@ == mi
                &&& final(self).state == NodeState::Leader
                &&& final(self).current_term == old(self).current_term
                &&& final(self).voted_for == old(self).voted_for
                &&& final(self).votes_received == old(self).votes_received
                &&& final(self).prevotes_received == old(self).prevotes_received
                &&& final(self).heard_from_leader == old(self).heard_from_leader
                &&& final(self).commit_index != old(self).commit_index
                    ==> Self::commit_candidate_from(
                    old(self).commit_index,
                    old(self).log@,
                    old(self).current_term,
                    old(self).cluster_nodes@,
                    old(self).id,
                    mi,
                    final(self).commit_index,
                )
                &&& forall|n: u64|
                    Self::commit_candidate_from(
                        old(self).commit_index,
                        old(self).log@,
                        old(self).current_term,
                        old(self).cluster_nodes@,
                        old(self).id,
                        mi,
                        n,
                    ) ==> n <= final(self).commit_index
                &&& r == (final(self).commit_index > old(self).commit_index)
            }),
    {
        if term > self.current_term {
            self.become_follower(term);
            return false;
        }
        if self.state != NodeState::Leader {
            return false;
        }
        if term < self.current_term {
            return false;
        }
        if success {
            if self.next_index.contains_key(&from) {
                self.next_index.insert(from, match_index_hint + 1);
            }
            if self.match_index.contains_key(&from) {
                self.match_index.insert(from, match_index_hint);
            }
            self.try_advance_commit_index()
        } else {
            let next_val: Option<u64> = match self.next_index.get(&from) {
                Some(v) => Some(*v),
                None => None,
            };
            match next_val {
                Some(v) => {
                    if v > 1 {
                        self.next_index.insert(from, v - 1);
                    }
                },
                None => {},
            }
            false
        }
    }

    /// Drain the entries that have become committed but are not yet
    /// applied, advancing last-applied to the commit index. A second
    /// call right away drains nothing.
    pub fn get_entries_to_apply(&mut self) -> (r: Vec<LogEntry>)
        requires
            old(self).wf(),
            old(self).commit_index as int <= old(self).log@.len(),
        ensures
            Self::same_static(*old(self), *final(self)),
            final(self).wf(),
            final(self).current_term == old(self).current_term,
            final(self).voted_for == old(self).voted_for,
            final(self).state == old(self).state,
            final(self).log == old(self).log,
            final(self).commit_index == old(self).commit_index,
            final(self).next_index == old(self).next_index,
            final(self).match_index == old(self).match_index,
            final(self).votes_received == old(self).votes_received,
            final(self).prevotes_received == old(self).prevotes_received,
            final(self).heard_from_leader == old(self).heard_from_leader,
            final(self).last_applied == old(self).commit_index,
            entries_like(
                r@,
                old(self).log@.subrange(
                    old(self).last_applied as int,
                    old(self).commit_index as int,
                ),
            ),
    {
        let mut entries: Vec<LogEntry> = Vec::new();
        while self.last_applied < self.commit_index
            invariant
                Self::same_static(*old(self), *self),
                self.wf(),
                self.current_term == old(self).current_term,
                self.voted_for == old(self).voted_for,
                self.state == old(self).state,
                self.log == old(self).log,
                self.commit_index == old(self).commit_index,
                self.next_index == old(self).next_index,
                self.match_index == old(self).match_index,
                self.votes_received == old(self).votes_received,
                self.prevotes_received == old(self).prevotes_received,
                self.heard_from_leader == old(self).heard_from_leader,
                self.commit_index as int <= self.log@.len(),
                old(self).last_applied <= self.last_applied <= self.commit_index,
                entries_like(
                    entries@,
                    old(self).log@.subrange(
                        old(self).last_applied as int,
                        self.last_applied as int,
                    ),
                ),
            decreases self.commit_index - self.last_applied,
        {
            self.last_applied = self.last_applied + 1;
            let e_opt = self.get_entry(self.last_applied);
            proof {
                assert(e_opt is Some);
            }
            if let Some(e) = e_opt {
                let c = copy_entry(e);
                proof {
                    crate::log::lemma_entries_like_push(
                        entries@,
                        old(self).log@.subrange(
                            old(self).last_applied as int,
                            self.last_applied - 1,
                        ),
                        c,
                        self.log@[self.last_applied - 1],
                    );
                    assert(old(self).log@.subrange(
                        old(self).last_applied as int,
                        self.last_applied - 1,
                    ).push(self.log@[self.last_applied - 1]) =~= old(self).log@.subrange(
                        old(self).last_applied as int,
                        self.last_applied as int,
                    ));
                }
                entries.push(c);
            }
        }
        entries
    }

    /// Start a pre-vote probe: without touching the current term or
    /// the recorded vote, become PreCandidate and produce the
    /// PreVoteRequest carrying the hypothetical next term.
    pub fn start_prevote(&mut self) -> (r: RaftMessage)
        requires
            old(self).current_term < u64::MAX,
            old(self).state == NodeState::Follower || old(self).state == NodeState::PreCandidate,
        ensures
            Self::same_static(*old(self), *final(self)),
            final(self).state == NodeState::PreCandidate,
            final(self).current_term == old(self).current_term,
            final(self).voted_for == old(self).voted_for,
            final(self).log == old(self).log,
            final(self).commit_index == old(self).commit_index,
            final(self).last_applied == old(self).last_applied,
            final(self).next_index == old(self).next_index,
            final(self).match_index == old(self).match_index,
            final(self).votes_received == old(self).votes_received,
            final(self).prevotes_received@ == seq![old(self).id],
            !final(self).heard_from_leader,
            r == (RaftMessage::PreVoteRequest {
                term: (old(self).current_term + 1) as u64,
                candidate_id: old(self).id,
                last_log_index: last_index_of(old(self).log@),
                last_log_term: last_term_of(old(self).log@),
            }),
            old(self).wf() ==> final(self).wf(),
    {
        self.state = NodeState::PreCandidate;
        let mut own_grant: Vec<u64> = Vec::new();
        own_grant.push(self.id);
        self.prevotes_received = own_grant;
        self.heard_from_leader = false;
        assert(self.prevotes_received@ =~= seq![self.id]);
        RaftMessage::PreVoteRequest {
            term: self.current_term + 1,
            candidate_id: self.id,
            last_log_index: self.last_log_index(),
            last_log_term: self.last_log_term(),
        }
    }

    /// Answer a pre-vote request without changing any state at all: a
    /// pre-vote is granted only when the hypothetical term is not
    /// behind ours, the candidate's log is at least as up to date, and
    /// no valid leader has been heard from since the election timer
    /// last fired. A current leader never grants one. The timer is
    /// never reset by pre-vote traffic.
    pub fn handle_prevote_request(
        &self,
        term: u64,
        _candidate_id: u64,
        last_log_index: u64,
        last_log_term: u64,
    ) -> (r: (RaftMessage, bool))
        ensures
            r.0 == (RaftMessage::PreVoteResponse {
                term: self.current_term,
                vote_granted: term >= self.current_term && up_to_date(
                    last_log_term,
                    last_log_index,
                    self.log@,
                ) && !self.heard_from_leader && self.state != NodeState::Leader,
            }),
            r.1 == false,
    {
        let grant = term >= self.current_term && self.is_log_up_to_date(
            last_log_index,
            last_log_term,
        ) && !self.heard_from_leader && self.state != NodeState::Leader;
        (RaftMessage::PreVoteResponse { term: self.current_term, vote_granted: grant }, false)
    }

    /// Count a pre-vote response (meaningful only while PreCandidate).
    /// Returns true exactly when the grants, counting our own, reach a
    /// quorum, so that the host should start a real election. The
    /// current term is never adopted from pre-vote traffic; a response
    /// with a higher term is advisory only.
    pub fn handle_prevote_response(&mut self, _term: u64, vote_granted: bool, from: u64) -> (r:
        bool)
        ensures
            Self::same_static(*old(self), *final(self)),
            final(self).current_term == old(self).current_term,
            final(self).voted_for == old(self).voted_for,
            final(self).state == old(self).state,
            final(self).log == old(self).log,
            final(self).commit_index == old(self).commit_index,
            final(self).last_applied == old(self).last_applied,
            final(self).next_index == old(self).next_index,
            final(self).match_index == old(self).match_index,
            final(self).votes_received == old(self).votes_received,
            final(self).heard_from_leader == old(self).heard_from_leader,
            old(self).wf() ==> final(self).wf(),
            old(self).state != NodeState::PreCandidate ==> *final(self) == *old(self) && r
                == false,
            old(self).state == NodeState::PreCandidate ==> ({
                let counted = vote_granted && !old(self).prevotes_received@.contains(from);
                &&& counted ==> final(self).prevotes_received@ == old(
                    self,
                ).prevotes_received@.push(from) && r == (old(self).prevotes_received@.len() + 1
                    >= old(self).spec_quorum_size())
                &&& !counted ==> *final(self) == *old(self) && r == false
            }),
    {
        if self.state != NodeState::PreCandidate {
            return false;
        }
        if vote_granted && !Self::id_vec_contains(&self.prevotes_received, from) {
            self.prevotes_received.push(from);
            return self.prevotes_received.len() >= self.quorum_size();
        }
        false
    }

    /// Build a heartbeat: an AppendEntries message with no entries,
    /// anchored at the end of the leader's log. Yields nothing when
    /// this node is not the leader.
    pub fn create_heartbeat(&self) -> (r: Option<RaftMessage>)
        ensures
            r is Some <==> self.state == NodeState::Leader,
            r matches Some(m) ==> ({
                &&& m matches RaftMessage::AppendEntries {
                    term,
                    leader_id,
                    prev_log_index,
                    prev_log_term,
                    entries,
                    leader_commit,
                }
                &&& term == self.current_term
                &&& leader_id == self.id
                &&& prev_log_index == last_index_of(self.log@)
                &&& prev_log_term == last_term_of(self.log@)
                &&& entries@ == Seq::<LogEntry>::empty()
                &&& leader_commit == self.commit_index
            }),
    {
        if self.state != NodeState::Leader {
            return None;
        }
        Some(
            RaftMessage::AppendEntries {
                term: self.current_term,
                leader_id: self.id,
                prev_log_index: self.last_log_index(),
                prev_log_term: self.last_log_term(),
                entries: Vec::new(),
                leader_commit: self.commit_index,
            },
        )
    }
}

/// In one term a node grants at most one vote: once the vote is bound
/// to one candidate, the grant condition refuses every other
/// candidate for as long as the term stands.
pub proof fn lemma_one_vote_per_term(
    log: Seq<LogEntry>,
    c1: u64,
    c2: u64,
    lli1: u64,
    llt1: u64,
    lli2: u64,
    llt2: u64,
    voted: Option<u64>,
)
    requires
        c1 != c2,
        vote_granted_spec(voted, log, c1, lli1, llt1),
    ensures
        !vote_granted_spec(Some(c1), log, c2, lli2, llt2),
{
}

/// A leader only ever extends its own log: an appended entry goes at
/// the end, and everything already in the log stays where it was.
pub proof fn lemma_leader_append_only(log: Seq<LogEntry>, e: LogEntry)
    ensures
        log.push(e).take(log.len() as int) == log,
        log.push(e).len() == log.len() + 1,
        log.push(e).last() == e,
{
    assert(log.push(e).take(log.len() as int) =~= log);
}

/// Part of the commit-index chain: an accepted AppendEntries keeps the
/// commit index within the log, as long as the leader's batch starts
/// at or past the already-committed prefix. (A batch reaching below
/// the commit point with conflicting terms could shrink the log below
/// it; among nodes that only commit replicated entries such a batch
/// never arrives.)
pub proof fn lemma_append_keeps_commit_bounded(
    log: Seq<LogEntry>,
    prev: u64,
    entries: Seq<LogEntry>,
    commit: u64,
    leader_commit: u64,
)
    requires
        log_wf(log),
        prev as int <= log.len(),
        entries_well_formed(prev, entries),
        commit as int <= log.len(),
        commit <= prev,
    ensures
        ({
            let merged = merge_log(log, prev as int, entries);
            max_u64(commit, min_u64(leader_commit, last_index_of(merged))) <= last_index_of(
                merged,
            )
        }),
{
    crate::log::lemma_merge_commit_bound(log, prev as int, entries, commit);
}

/// Delivering the same AppendEntries twice leaves the log and the
/// commit index unchanged after the second delivery: the merge is
/// idempotent, the consistency check still passes, and the commit
/// formula yields the same value again.
pub proof fn lemma_append_entries_idempotent(
    log: Seq<LogEntry>,
    prev: u64,
    prev_term: u64,
    entries: Seq<LogEntry>,
    commit: u64,
    leader_commit: u64,
)
    requires
        log_wf(log),
        append_consistent(log, prev, prev_term),
        prev as int <= log.len(),
        entries_well_formed(prev, entries),
    ensures
        ({
            let l1 = merge_log(log, prev as int, entries);
            let c1 = max_u64(commit, min_u64(leader_commit, last_index_of(l1)));
            &&& append_consistent(l1, prev, prev_term)
            &&& merge_log(l1, prev as int, entries) == l1
            &&& max_u64(c1, min_u64(leader_commit, last_index_of(l1))) == c1
        }),
{
    let l1 = merge_log(log, prev as int, entries);
    crate::log::lemma_merge_idempotent(log, prev as int, entries);
    crate::log::lemma_merge_wf(log, prev as int, entries);
    crate::log::lemma_merge_preserves_prefix(log, prev as int, entries);
    crate::log::lemma_divergence_bounds(log, prev as int, entries, 0);
    if prev != 0 {
        let d = divergence_from(log, prev as int, entries, 0);
        if d < entries.len() {
            assert(l1[prev as int - 1] == log[prev as int - 1]);
            assert(l1.len() >= prev as int);
        }
        assert(term_at(l1, prev) == term_at(log, prev));
    }
}

} // verus!
