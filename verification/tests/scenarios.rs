//! End-to-end scenarios on a three-node cluster: elections, log
//! replication and commit, leader failure, conflict truncation, the
//! pre-vote defense against disruptive servers, and the rule that a
//! leader never commits an earlier term's entry by count alone; plus
//! wire-form conversion checks.

use raft_core::wire;
use raft_core::{LogEntry, NodeState, RaftMessage, RaftNode};

fn deliver_append(node: &mut RaftNode, msg: RaftMessage) -> (RaftMessage, bool) {
    match msg {
        RaftMessage::AppendEntries {
            term,
            leader_id,
            prev_log_index,
            prev_log_term,
            entries,
            leader_commit,
        } => node.handle_append_entries(
            term,
            leader_id,
            prev_log_index,
            prev_log_term,
            entries,
            leader_commit,
        ),
        _ => panic!("expected AppendEntries"),
    }
}

fn elect_leader_1(n1: &mut RaftNode, n2: &mut RaftNode, n3: &mut RaftNode) {
    let req = n1.start_election();
    let (term, candidate_id, last_log_index, last_log_term) = match req {
        RaftMessage::VoteRequest { term, candidate_id, last_log_index, last_log_term } => {
            (term, candidate_id, last_log_index, last_log_term)
        }
        _ => panic!("expected VoteRequest"),
    };
    let (resp2, _) = n2.handle_vote_request(term, candidate_id, last_log_index, last_log_term);
    let (resp3, _) = n3.handle_vote_request(term, candidate_id, last_log_index, last_log_term);
    match (resp2, resp3) {
        (
            RaftMessage::VoteResponse { term: t2, vote_granted: g2 },
            RaftMessage::VoteResponse { term: t3, vote_granted: g3 },
        ) => {
            assert!(g2 && g3);
            n1.handle_vote_response(t2, g2, 2);
            n1.handle_vote_response(t3, g3, 3);
        }
        _ => panic!("expected VoteResponse"),
    }
}

#[test]
fn s1_election_from_fresh_state() {
    let mut n1 = RaftNode::new(1, vec![1, 2, 3]);
    let mut n2 = RaftNode::new(2, vec![1, 2, 3]);
    let mut n3 = RaftNode::new(3, vec![1, 2, 3]);

    let req = n1.start_election();
    assert_eq!(n1.state, NodeState::Candidate);
    assert_eq!(n1.current_term, 1);
    assert_eq!(n1.voted_for, Some(1));
    match req {
        RaftMessage::VoteRequest { term, candidate_id, last_log_index, last_log_term } => {
            assert_eq!(term, 1);
            assert_eq!(candidate_id, 1);
            assert_eq!(last_log_index, 0);
            assert_eq!(last_log_term, 0);
        }
        _ => panic!("expected VoteRequest"),
    }

    let (resp2, _) = n2.handle_vote_request(1, 1, 0, 0);
    let (resp3, _) = n3.handle_vote_request(1, 1, 0, 0);
    let g2 = matches!(resp2, RaftMessage::VoteResponse { vote_granted: true, .. });
    let g3 = matches!(resp3, RaftMessage::VoteResponse { vote_granted: true, .. });
    assert!(g2 && g3);

    let became = n1.handle_vote_response(1, true, 2);
    assert!(became);
    n1.handle_vote_response(1, true, 3);

    assert_eq!(n1.state, NodeState::Leader);
    assert_eq!(n1.current_term, 1);
    assert_eq!(n2.current_term, 1);
    assert_eq!(n3.current_term, 1);
}

#[test]
fn s2_log_replication_and_commit() {
    let mut n1 = RaftNode::new(1, vec![1, 2, 3]);
    let mut n2 = RaftNode::new(2, vec![1, 2, 3]);
    let mut n3 = RaftNode::new(3, vec![1, 2, 3]);
    elect_leader_1(&mut n1, &mut n2, &mut n3);

    let entry = n1.append_entry(b"x".to_vec());
    assert_eq!(entry.term, 1);
    assert_eq!(entry.index, 1);
    assert_eq!(n1.log.len(), 1);

    // replicate to node 2; the first successful response commits
    let ae2 = n1.create_append_entries(2).unwrap();
    let (resp, _) = deliver_append(&mut n2, ae2);
    match resp {
        RaftMessage::AppendEntriesResponse { term, success } => {
            assert!(success);
            let updated = n1.handle_append_entries_response(term, success, 2, 1);
            assert!(updated);
        }
        _ => panic!("expected AppendEntriesResponse"),
    }
    assert_eq!(n1.commit_index, 1);
    assert_eq!(n2.log.len(), 1);
    assert_eq!(n2.log[0].command, b"x".to_vec());

    // node 3 receives the entry together with the new commit index
    let ae3 = n1.create_append_entries(3).unwrap();
    let (resp, _) = deliver_append(&mut n3, ae3);
    match resp {
        RaftMessage::AppendEntriesResponse { term, success } => {
            assert!(success);
            n1.handle_append_entries_response(term, success, 3, 1);
        }
        _ => panic!("expected AppendEntriesResponse"),
    }
    assert_eq!(n3.log.len(), 1);
    assert_eq!(n3.commit_index, 1);

    // node 2 learns the commit index from the next heartbeat
    let hb = n1.create_heartbeat().unwrap();
    deliver_append(&mut n2, hb);
    assert_eq!(n2.commit_index, 1);
}

#[test]
fn s3_leader_failure_and_reelection() {
    let mut n1 = RaftNode::new(1, vec![1, 2, 3]);
    let mut n2 = RaftNode::new(2, vec![1, 2, 3]);
    let mut n3 = RaftNode::new(3, vec![1, 2, 3]);
    elect_leader_1(&mut n1, &mut n2, &mut n3);
    n1.append_entry(b"x".to_vec());
    let ae2 = n1.create_append_entries(2).unwrap();
    deliver_append(&mut n2, ae2);
    n1.handle_append_entries_response(1, true, 2, 1);
    let ae3 = n1.create_append_entries(3).unwrap();
    deliver_append(&mut n3, ae3);

    // leader 1 stops; node 2's election timer fires
    let req = n2.start_election();
    assert_eq!(n2.current_term, 2);
    assert_eq!(n2.voted_for, Some(2));
    match req {
        RaftMessage::VoteRequest { term, candidate_id, last_log_index, last_log_term } => {
            assert_eq!((term, candidate_id, last_log_index, last_log_term), (2, 2, 1, 1));
            let (resp, _) = n3.handle_vote_request(term, candidate_id, last_log_index, last_log_term);
            match resp {
                RaftMessage::VoteResponse { term: t, vote_granted } => {
                    assert!(vote_granted);
                    let became = n2.handle_vote_response(t, vote_granted, 3);
                    assert!(became);
                }
                _ => panic!("expected VoteResponse"),
            }
        }
        _ => panic!("expected VoteRequest"),
    }
    assert_eq!(n2.state, NodeState::Leader);
    assert_eq!(n2.current_term, 2);

    // the new leader proposes and commits at index 2
    let entry = n2.append_entry(b"y".to_vec());
    assert_eq!((entry.term, entry.index), (2, 2));
    let ae3 = n2.create_append_entries(3).unwrap();
    let (resp, _) = deliver_append(&mut n3, ae3);
    match resp {
        RaftMessage::AppendEntriesResponse { term, success } => {
            assert!(success);
            let updated = n2.handle_append_entries_response(term, success, 3, 2);
            assert!(updated);
        }
        _ => panic!("expected AppendEntriesResponse"),
    }
    assert_eq!(n2.commit_index, 2);
}

#[test]
fn s4_log_conflict_truncation() {
    let mut follower = RaftNode::new(2, vec![1, 2, 3]);
    follower.log.push(LogEntry::new(1, 1, b"a".to_vec()));
    follower.log.push(LogEntry::new(2, 2, b"b".to_vec()));
    follower.current_term = 2;

    let entries = vec![LogEntry::new(3, 2, b"c".to_vec())];
    let (resp, _) = follower.handle_append_entries(3, 1, 1, 1, entries, 0);

    match resp {
        RaftMessage::AppendEntriesResponse { success, .. } => assert!(success),
        _ => panic!("expected AppendEntriesResponse"),
    }
    assert_eq!(follower.log.len(), 2);
    assert_eq!(follower.log[0].term, 1);
    assert_eq!(follower.log[0].index, 1);
    assert_eq!(follower.log[1].term, 3);
    assert_eq!(follower.log[1].index, 2);
}

#[test]
fn s5_prevote_blocks_disruptive_server() {
    let mut n1 = RaftNode::new(1, vec![1, 2, 3]);
    let mut n2 = RaftNode::new(2, vec![1, 2, 3]);
    let mut n3 = RaftNode::new(3, vec![1, 2, 3]);
    elect_leader_1(&mut n1, &mut n2, &mut n3);

    // node 2 hears the leader; node 3 is partitioned and misses it
    let hb = n1.create_heartbeat().unwrap();
    deliver_append(&mut n2, hb);
    assert!(n2.heard_from_leader);
    assert!(!n3.heard_from_leader);

    // partition heals: node 3 probes with an inflated hypothetical term
    let (resp1, _) = n1.handle_prevote_request(50, 3, 1, 1);
    let (resp2, _) = n2.handle_prevote_request(50, 3, 1, 1);
    match resp1 {
        RaftMessage::PreVoteResponse { vote_granted, .. } => {
            assert!(!vote_granted, "a leader never grants a pre-vote");
        }
        _ => panic!("expected PreVoteResponse"),
    }
    match resp2 {
        RaftMessage::PreVoteResponse { vote_granted, .. } => {
            assert!(!vote_granted, "a follower with a live leader refuses pre-votes");
        }
        _ => panic!("expected PreVoteResponse"),
    }

    // no term changed anywhere, and node 3 never adopts from pre-votes
    assert_eq!(n1.current_term, 1);
    assert_eq!(n2.current_term, 1);
    assert_eq!(n3.current_term, 1);
    n3.start_prevote();
    n3.handle_prevote_response(1, false, 1);
    n3.handle_prevote_response(1, false, 2);
    assert_eq!(n3.current_term, 1);
    assert_eq!(n3.state, NodeState::PreCandidate);

    // the next heartbeat brings node 3 back into the fold
    let hb = n1.create_heartbeat().unwrap();
    deliver_append(&mut n3, hb);
    assert_eq!(n3.state, NodeState::Follower);
    assert_eq!(n3.current_term, 1);
    assert!(n3.heard_from_leader);
}

#[test]
fn s6_no_commit_of_previous_term_entries_by_count_alone() {
    let mut leader = RaftNode::new(1, vec![1, 2, 3]);
    leader.log.push(LogEntry::new(1, 1, b"a".to_vec()));
    leader.log.push(LogEntry::new(1, 2, b"b".to_vec()));
    leader.current_term = 2;
    leader.start_election(); // term 3
    leader.handle_vote_response(3, true, 2);
    assert_eq!(leader.state, NodeState::Leader);
    assert_eq!(leader.current_term, 3);
    leader.append_entry(b"c".to_vec()); // entry {term 3, index 3}

    // entries 1 and 2 stand on a majority, entry 3 does not yet:
    // commit_index must stay 0, entry 2 is from term 1
    let updated = leader.handle_append_entries_response(3, true, 2, 2);
    assert!(!updated);
    assert_eq!(leader.commit_index, 0);

    // once entry 3 reaches a majority, commit jumps to 3
    let updated = leader.handle_append_entries_response(3, true, 3, 3);
    assert!(updated);
    assert_eq!(leader.commit_index, 3);
}

#[test]
fn prevote_quorum_leads_to_election() {
    let mut n1 = RaftNode::new(1, vec![1, 2, 3]);
    let mut n2 = RaftNode::new(2, vec![1, 2, 3]);

    let req = n1.start_prevote();
    assert_eq!(n1.state, NodeState::PreCandidate);
    assert_eq!(n1.current_term, 0);
    let hyp_term = match req {
        RaftMessage::PreVoteRequest { term, candidate_id, last_log_index, last_log_term } => {
            assert_eq!((candidate_id, last_log_index, last_log_term), (1, 0, 0));
            term
        }
        _ => panic!("expected PreVoteRequest"),
    };
    assert_eq!(hyp_term, 1);

    // node 2 has no leader, so it would vote
    let (resp, _) = n2.handle_prevote_request(hyp_term, 1, 0, 0);
    match resp {
        RaftMessage::PreVoteResponse { term, vote_granted } => {
            assert!(vote_granted);
            assert_eq!(n2.current_term, 0); // pre-votes change no term
            let quorum = n1.handle_prevote_response(term, vote_granted, 2);
            assert!(quorum);
        }
        _ => panic!("expected PreVoteResponse"),
    }

    // only now does the real election start
    n1.start_election();
    assert_eq!(n1.state, NodeState::Candidate);
    assert_eq!(n1.current_term, 1);
}

#[test]
fn duplicate_prevote_grants_count_once() {
    let mut n1 = RaftNode::new(1, vec![1, 2, 3, 4, 5]);
    n1.start_prevote();
    assert!(!n1.handle_prevote_response(0, true, 2));
    assert!(!n1.handle_prevote_response(0, true, 2));
    assert_eq!(n1.prevotes_received.len(), 2); // self + node 2
}

#[test]
fn append_entries_idempotent_delivery() {
    let mut follower = RaftNode::new(2, vec![1, 2, 3]);
    let entries = vec![
        LogEntry::new(1, 1, b"a".to_vec()),
        LogEntry::new(1, 2, b"b".to_vec()),
    ];

    let (r1, _) = follower.handle_append_entries(1, 1, 0, 0, entries.clone(), 1);
    assert!(matches!(r1, RaftMessage::AppendEntriesResponse { success: true, .. }));
    let log_after_first: Vec<(u64, u64)> =
        follower.log.iter().map(|e| (e.term, e.index)).collect();
    let commit_after_first = follower.commit_index;

    let (r2, _) = follower.handle_append_entries(1, 1, 0, 0, entries, 1);
    assert!(matches!(r2, RaftMessage::AppendEntriesResponse { success: true, .. }));
    let log_after_second: Vec<(u64, u64)> =
        follower.log.iter().map(|e| (e.term, e.index)).collect();

    assert_eq!(log_after_first, log_after_second);
    assert_eq!(commit_after_first, follower.commit_index);
    assert_eq!(follower.commit_index, 1);
}

#[test]
fn replicated_followers_agree_on_shared_prefix() {
    let mut n2 = RaftNode::new(2, vec![1, 2, 3]);
    let mut n3 = RaftNode::new(3, vec![1, 2, 3]);

    // the same leader batch reaches both followers
    let batch = vec![
        LogEntry::new(1, 1, b"a".to_vec()),
        LogEntry::new(1, 2, b"b".to_vec()),
    ];
    n2.handle_append_entries(1, 1, 0, 0, batch.clone(), 0);
    n3.handle_append_entries(1, 1, 0, 0, batch, 0);

    // node 2 additionally receives an entry node 3 does not have
    n2.handle_append_entries(2, 1, 2, 1, vec![LogEntry::new(2, 3, b"c".to_vec())], 0);

    // both logs hold index 2 with the same term, so they agree on
    // every index up to 2
    assert_eq!(n2.get_term_at(2), n3.get_term_at(2));
    for i in 1..=2u64 {
        let e2 = n2.get_entry(i).unwrap();
        let e3 = n3.get_entry(i).unwrap();
        assert_eq!(e2.term, e3.term);
        assert_eq!(e2.index, e3.index);
        assert_eq!(e2.command, e3.command);
    }
}

#[test]
fn stale_heartbeat_never_lowers_commit_index() {
    let mut follower = RaftNode::new(2, vec![1, 2, 3]);
    follower.log.push(LogEntry::new(1, 1, b"a".to_vec()));
    follower.handle_append_entries(1, 1, 1, 1, vec![], 1);
    assert_eq!(follower.commit_index, 1);

    follower.handle_append_entries(1, 1, 1, 1, vec![], 0);
    assert_eq!(follower.commit_index, 1);
}

#[test]
fn malformed_entry_batch_is_rejected() {
    let mut follower = RaftNode::new(2, vec![1, 2, 3]);

    // the batch skips an index, so it cannot continue the log
    let entries = vec![
        LogEntry::new(1, 1, b"a".to_vec()),
        LogEntry::new(1, 3, b"c".to_vec()),
    ];
    let (resp, _) = follower.handle_append_entries(1, 1, 0, 0, entries, 0);
    assert!(matches!(resp, RaftMessage::AppendEntriesResponse { success: false, .. }));
    assert!(follower.log.is_empty());
}

// -- wire-form conversions --

#[test]
fn wire_status_reports_node_fields() {
    let mut node = RaftNode::new(7, vec![7, 8, 9]);
    node.log.push(LogEntry::new(1, 1, b"a".to_vec()));
    node.current_term = 4;
    node.commit_index = 1;

    let status = wire::get_node_status(&node);
    assert_eq!(status.id, 7);
    assert_eq!(status.state, wire::NodeState::Follower);
    assert_eq!(status.term, 4);
    assert_eq!(status.log_length, 1);
    assert_eq!(status.commit_index, 1);

    let dead = wire::dead_status();
    assert_eq!(dead.id, 0);
    assert_eq!(dead.state, wire::NodeState::Dead);
    assert_eq!(dead.term, 0);
    assert_eq!(dead.log_length, 0);
    assert_eq!(dead.commit_index, 0);
}

#[test]
fn wire_state_folds_prevote_probe_into_candidate() {
    assert_eq!(wire::to_wit_state(NodeState::Follower), wire::NodeState::Follower);
    assert_eq!(wire::to_wit_state(NodeState::PreCandidate), wire::NodeState::Candidate);
    assert_eq!(wire::to_wit_state(NodeState::Candidate), wire::NodeState::Candidate);
    assert_eq!(wire::to_wit_state(NodeState::Leader), wire::NodeState::Leader);
}

#[test]
fn wire_log_entry_round_trip() {
    let entry = LogEntry::new(3, 9, b"payload".to_vec());
    let w = wire::to_wit_log_entry(&entry);
    assert_eq!((w.term, w.index), (3, 9));
    assert_eq!(w.command, b"payload".to_vec());
    let back = wire::from_wit_log_entry(&w);
    assert_eq!((back.term, back.index), (3, 9));
    assert_eq!(back.command, b"payload".to_vec());
}

#[test]
fn wire_message_round_trip() {
    let originals = vec![
        RaftMessage::PreVoteRequest {
            term: 5,
            candidate_id: 1,
            last_log_index: 2,
            last_log_term: 3,
        },
        RaftMessage::PreVoteResponse { term: 5, vote_granted: true },
        RaftMessage::VoteRequest { term: 6, candidate_id: 2, last_log_index: 4, last_log_term: 5 },
        RaftMessage::VoteResponse { term: 6, vote_granted: false },
        RaftMessage::AppendEntries {
            term: 7,
            leader_id: 3,
            prev_log_index: 1,
            prev_log_term: 2,
            entries: vec![LogEntry::new(7, 2, b"cmd".to_vec())],
            leader_commit: 1,
        },
        RaftMessage::AppendEntriesResponse { term: 7, success: true },
    ];

    for original in originals {
        let over_the_wire = wire::to_wit_message(&original);
        let back = wire::from_wit_message(over_the_wire);
        match (original, back) {
            (
                RaftMessage::PreVoteRequest { term: a1, candidate_id: a2, last_log_index: a3, last_log_term: a4 },
                RaftMessage::PreVoteRequest { term: b1, candidate_id: b2, last_log_index: b3, last_log_term: b4 },
            ) => assert_eq!((a1, a2, a3, a4), (b1, b2, b3, b4)),
            (
                RaftMessage::PreVoteResponse { term: a1, vote_granted: a2 },
                RaftMessage::PreVoteResponse { term: b1, vote_granted: b2 },
            ) => assert_eq!((a1, a2), (b1, b2)),
            (
                RaftMessage::VoteRequest { term: a1, candidate_id: a2, last_log_index: a3, last_log_term: a4 },
                RaftMessage::VoteRequest { term: b1, candidate_id: b2, last_log_index: b3, last_log_term: b4 },
            ) => assert_eq!((a1, a2, a3, a4), (b1, b2, b3, b4)),
            (
                RaftMessage::VoteResponse { term: a1, vote_granted: a2 },
                RaftMessage::VoteResponse { term: b1, vote_granted: b2 },
            ) => assert_eq!((a1, a2), (b1, b2)),
            (
                RaftMessage::AppendEntries {
                    term: a1, leader_id: a2, prev_log_index: a3, prev_log_term: a4,
                    entries: ae, leader_commit: a5,
                },
                RaftMessage::AppendEntries {
                    term: b1, leader_id: b2, prev_log_index: b3, prev_log_term: b4,
                    entries: be, leader_commit: b5,
                },
            ) => {
                assert_eq!((a1, a2, a3, a4, a5), (b1, b2, b3, b4, b5));
                assert_eq!(ae.len(), be.len());
                for (x, y) in ae.iter().zip(be.iter()) {
                    assert_eq!((x.term, x.index), (y.term, y.index));
                    assert_eq!(x.command, y.command);
                }
            }
            (
                RaftMessage::AppendEntriesResponse { term: a1, success: a2 },
                RaftMessage::AppendEntriesResponse { term: b1, success: b2 },
            ) => assert_eq!((a1, a2), (b1, b2)),
            _ => panic!("round trip changed the message kind"),
        }
    }
}
