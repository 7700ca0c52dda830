//! Tests of the node state machine through its public API: elections,
//! vote handling, and the log consistency check.

use raft_core::{LogEntry, NodeState, RaftMessage, RaftNode};

#[test]
fn node_new_node_starts_as_follower() {
    let node = RaftNode::new(1, vec![1, 2, 3]);
    assert_eq!(node.state, NodeState::Follower);
    assert_eq!(node.current_term, 0);
    assert_eq!(node.voted_for, None);
}

#[test]
fn quorum_calculation() {
    // 3 nodes: quorum = 2
    let node3 = RaftNode::new(1, vec![1, 2, 3]);
    assert_eq!(node3.quorum_size(), 2);

    // 5 nodes: quorum = 3
    let node5 = RaftNode::new(1, vec![1, 2, 3, 4, 5]);
    assert_eq!(node5.quorum_size(), 3);
}

#[test]
fn election_timeout_triggers_candidacy() {
    let mut node = RaftNode::new(1, vec![1, 2, 3]);
    assert_eq!(node.state, NodeState::Follower);

    // simulate election timeout
    let vote_request = node.start_election();

    assert_eq!(node.state, NodeState::Candidate);
    assert_eq!(node.current_term, 1);
    assert_eq!(node.voted_for, Some(1)); // voted for self
    assert_eq!(node.votes_received, vec![1]); // has own vote

    // verify vote request format
    match vote_request {
        RaftMessage::VoteRequest { term, candidate_id, .. } => {
            assert_eq!(term, 1);
            assert_eq!(candidate_id, 1);
        }
        _ => panic!("expected VoteRequest"),
    }
}

#[test]
fn node_majority_vote_wins_election() {
    let mut node = RaftNode::new(1, vec![1, 2, 3]);
    node.start_election();

    // receive vote from node 2
    let became_leader = node.handle_vote_response(1, true, 2);

    // with 2/3 votes (self + node 2), we have quorum
    assert!(became_leader);
    assert_eq!(node.state, NodeState::Leader);
}

#[test]
fn higher_term_forces_step_down() {
    let mut node = RaftNode::new(1, vec![1, 2, 3]);
    node.start_election();
    node.handle_vote_response(1, true, 2); // become leader
    assert_eq!(node.state, NodeState::Leader);
    assert_eq!(node.current_term, 1);

    // receive message with higher term
    node.handle_vote_response(5, false, 2);

    assert_eq!(node.state, NodeState::Follower);
    assert_eq!(node.current_term, 5);
}

#[test]
fn log_consistency_check_rejects_stale_entries() {
    let mut node = RaftNode::new(1, vec![1, 2, 3]);

    // manually add some log entries
    node.log.push(LogEntry::new(1, 1, vec![1]));
    node.log.push(LogEntry::new(1, 2, vec![2]));
    node.current_term = 1;

    // append entries with wrong prev_log_term should fail
    let (response, _) = node.handle_append_entries(
        2,  // term
        2,  // leader_id
        2,  // prev_log_index
        99, // prev_log_term (wrong!)
        vec![LogEntry::new(2, 3, vec![3])],
        0,  // leader_commit
    );

    match response {
        RaftMessage::AppendEntriesResponse { success, .. } => {
            assert!(!success, "should reject due to log inconsistency");
        }
        _ => panic!("expected AppendEntriesResponse"),
    }
}

#[test]
fn follower_grants_vote_to_valid_candidate() {
    let mut node = RaftNode::new(1, vec![1, 2, 3]);

    let (response, should_reset_timer) = node.handle_vote_request(
        1, // term
        2, // candidate_id
        0, // last_log_index
        0, // last_log_term
    );

    match response {
        RaftMessage::VoteResponse { vote_granted, .. } => {
            assert!(vote_granted);
            assert!(should_reset_timer);
            assert_eq!(node.voted_for, Some(2));
        }
        _ => panic!("expected VoteResponse"),
    }
}

#[test]
fn follower_rejects_vote_for_lower_term() {
    let mut node = RaftNode::new(1, vec![1, 2, 3]);
    node.current_term = 5;

    let (response, _) = node.handle_vote_request(
        3, // term (lower than current)
        2, // candidate_id
        0, // last_log_index
        0, // last_log_term
    );

    match response {
        RaftMessage::VoteResponse { vote_granted, term } => {
            assert!(!vote_granted);
            assert_eq!(term, 5); // should return our higher term
        }
        _ => panic!("expected VoteResponse"),
    }
}
