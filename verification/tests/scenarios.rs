use pbft::config::PbftConfig;
use pbft::error::PbftError;
use pbft::message::MsgKind;
use pbft::message::PbftMessage;
use pbft::message::PeerMessage;
use pbft::message::ViewChangeMsg;
use pbft::node::PbftAction;
use pbft::node::PbftMode;
use pbft::node::PbftNode;

fn plain_vc(view: u64, checkpoint: u64, sender: u64) -> ViewChangeMsg {
    ViewChangeMsg {
        view,
        checkpoint,
        has_prepared: false,
        prepared_seq: 0,
        prepared_digest: 0,
        sender,
    }
}

fn network(n: u64, interval: u64) -> Vec<PbftNode> {
    let cfg = PbftConfig::new(n, interval).unwrap();
    (0..n).map(|id| PbftNode::new(cfg, id).unwrap()).collect()
}

/// Delivers every queued action to every node but the sender (and any node
/// listed as down), feeding the actions that result back into the queue
/// until the network is quiet.
fn run_network(nodes: &mut Vec<PbftNode>, mut queue: Vec<(usize, PbftAction)>, down: &[usize]) {
    while !queue.is_empty() {
        let (from, action) = queue.remove(0);
        for i in 0..nodes.len() {
            if i == from || down.contains(&i) {
                continue;
            }
            let pm = match &action {
                PbftAction::Broadcast(m) => PeerMessage::Consensus(*m),
                PbftAction::BroadcastViewChange(v) => PeerMessage::ViewChange(*v),
                PbftAction::BroadcastNewView(nv) => PeerMessage::NewView(nv.clone()),
                PbftAction::CommitBlock(_, _) => continue,
            };
            if let Ok(acts) = nodes[i].on_peer_message(pm) {
                for a in acts {
                    queue.push((i, a));
                }
            }
        }
    }
}

#[test]
fn commit_round_with_checkpoint() {
    // The primary proposes digest 0xD at (view 0, seq 1); the other three
    // nodes prepare and commit it; every node reports seq 1 committed with
    // that digest, and with checkpoint interval 1 a stable checkpoint forms
    // at seq 1 after a checkpoint quorum.
    let mut nodes = network(4, 1);
    let digest = 0xD;
    let acts = nodes[0].on_block_ready(digest);
    assert_eq!(acts.len(), 2);
    let queue: Vec<(usize, PbftAction)> = acts.into_iter().map(|a| (0usize, a)).collect();
    run_network(&mut nodes, queue, &[]);
    for node in nodes.iter() {
        assert_eq!(node.committed_digest_at(1), Some(digest));
        assert_eq!(node.seq, 2);
        assert_eq!(node.stable_checkpoint, 1);
        assert_eq!(node.view, 0);
    }
}

#[test]
fn committed_digest_never_overwritten() {
    // Safety at the node: after seq 1 commits with one digest, injected
    // conflicting traffic for the same sequence cannot change the record.
    let mut nodes = network(4, 10);
    let acts = nodes[0].on_block_ready(0xA);
    let queue: Vec<(usize, PbftAction)> = acts.into_iter().map(|a| (0usize, a)).collect();
    run_network(&mut nodes, queue, &[]);
    assert_eq!(nodes[1].committed_digest_at(1), Some(0xA));
    // A forged commit quorum for a different digest at the old sequence.
    for s in [0u64, 2, 3] {
        let _ = nodes[1].on_peer_message(PeerMessage::Consensus(PbftMessage::new(
            MsgKind::Commit,
            0,
            1,
            0xB,
            s,
        )));
    }
    assert_eq!(nodes[1].committed_digest_at(1), Some(0xA));
}

#[test]
fn wrong_sender_does_not_trigger_view_change() {
    // Correct structure, wrong sender: dropped as NotFromPrimary, no
    // view-change broadcast, state untouched.
    let mut nodes = network(4, 1);
    let msg = PbftMessage::new(MsgKind::PrePrepare, 0, 1, 0xD, 2);
    let r = nodes[1].on_peer_message(PeerMessage::Consensus(msg));
    assert!(matches!(r, Err(PbftError::NotFromPrimary)));
    assert_eq!(nodes[1].mode, PbftMode::Normal);
    assert_eq!(nodes[1].view, 0);
    assert_eq!(nodes[1].log.len(), 0);
}

#[test]
fn equivocating_primary_triggers_view_change() {
    // A genuinely faulty primary — two different proposals for one slot —
    // does trigger a view change.
    let mut nodes = network(4, 1);
    let first = PbftMessage::new(MsgKind::PrePrepare, 0, 1, 0xD, 0);
    let second = PbftMessage::new(MsgKind::PrePrepare, 0, 1, 0xE, 0);
    assert!(nodes[1].on_peer_message(PeerMessage::Consensus(first)).is_ok());
    let r = nodes[1].on_peer_message(PeerMessage::Consensus(second)).unwrap();
    assert_eq!(nodes[1].mode, PbftMode::ViewChanging(1));
    assert!(r.iter().any(|a| matches!(
        a,
        PbftAction::BroadcastViewChange(v) if v.view == 1
    )));
}

#[test]
fn timeout_view_change_resumes_at_next_view() {
    // The primary of view 0 times out without proposing; nodes 1-3
    // broadcast ViewChange(1); the primary of view 1 announces
    // NewView(1, quorum, []) and every non-faulty node resumes normal mode
    // at view 1 with its sequence unchanged.
    let mut nodes = network(4, 1);
    let mut queue: Vec<(usize, PbftAction)> = Vec::new();
    for i in [1usize, 2, 3] {
        let acts = nodes[i].on_phase_timeout(0, 1);
        assert_eq!(acts.len(), 1);
        match &acts[0] {
            PbftAction::BroadcastViewChange(v) => {
                assert_eq!(v.view, 1);
                assert_eq!(v.checkpoint, 0);
                assert!(!v.has_prepared);
            }
            _ => panic!("expected a view-change broadcast"),
        }
        for a in acts {
            queue.push((i, a));
        }
    }
    run_network(&mut nodes, queue, &[0]);
    for i in [1usize, 2, 3] {
        assert_eq!(nodes[i].view, 1);
        assert_eq!(nodes[i].mode, PbftMode::Normal);
        assert_eq!(nodes[i].seq, 1);
    }
}

#[test]
fn liveness_with_one_silent_node() {
    // N = 4, f = 1, the view-0 primary silent: the remaining three complete
    // a view change and commit the next sequence.
    let mut nodes = network(4, 10);
    let mut queue: Vec<(usize, PbftAction)> = Vec::new();
    for i in [1usize, 2, 3] {
        for a in nodes[i].on_phase_timeout(0, 1) {
            queue.push((i, a));
        }
    }
    run_network(&mut nodes, queue, &[0]);
    assert_eq!(nodes[1].view, 1);
    // Node 1 is now the primary and proposes.
    let acts = nodes[1].on_block_ready(0xC1);
    let queue: Vec<(usize, PbftAction)> = acts.into_iter().map(|a| (1usize, a)).collect();
    run_network(&mut nodes, queue, &[0]);
    for i in [1usize, 2, 3] {
        assert_eq!(nodes[i].committed_digest_at(1), Some(0xC1), "node {} did not commit", i);
    }
}

#[test]
fn new_view_from_wrong_sender_is_not_from_primary() {
    let mut nodes = network(4, 1);
    // Drive nodes 2 and 3 into a view change towards view 1.
    let mut queue: Vec<(usize, PbftAction)> = Vec::new();
    for i in [2usize, 3] {
        for a in nodes[i].on_phase_timeout(0, 1) {
            queue.push((i, a));
        }
    }
    // A NewView for view 1 signed by node 3 — not view 1's primary.
    let forged = pbft::message::NewViewMsg {
        view: 1,
        sender: 3,
        view_changes: vec![plain_vc(1, 0, 2), plain_vc(1, 0, 3), plain_vc(1, 0, 0)],
        pre_prepares: Vec::new(),
    };
    let r = nodes[2].on_peer_message(PeerMessage::NewView(forged));
    assert!(matches!(r, Err(PbftError::NotFromPrimary)));
    assert_eq!(nodes[2].view, 0);
}

#[test]
fn new_view_without_quorum_is_rejected() {
    let mut nodes = network(4, 1);
    // From the right sender (view 1's primary) but with only two
    // view-change requests: not a quorum certificate.
    let nv = pbft::message::NewViewMsg {
        view: 1,
        sender: 1,
        view_changes: vec![plain_vc(1, 0, 2), plain_vc(1, 0, 3)],
        pre_prepares: Vec::new(),
    };
    // Routed through the dispatcher, the faulty-primary signal becomes a
    // view change of this node's own.
    let r = nodes[2].on_peer_message(PeerMessage::NewView(nv)).unwrap();
    assert_eq!(nodes[2].mode, PbftMode::ViewChanging(1));
    assert!(!r.is_empty());
    assert_eq!(nodes[2].view, 0);
}

#[test]
fn new_view_counting_a_sender_twice_is_rejected() {
    let mut nodes = network(4, 1);
    let nv = pbft::message::NewViewMsg {
        view: 1,
        sender: 1,
        view_changes: vec![plain_vc(1, 0, 2), plain_vc(1, 5, 2), plain_vc(1, 0, 3)],
        pre_prepares: Vec::new(),
    };
    let mut node = nodes.remove(2);
    let before_view = node.view;
    let r = node.handle_new_view(nv);
    assert!(matches!(r, Err(PbftError::FaultyPrimary(_))));
    assert_eq!(node.view, before_view);
}

#[test]
fn stale_timers_are_ignored() {
    let mut nodes = network(4, 1);
    // A phase timer armed for another (view, seq) than the current one.
    assert!(nodes[2].on_phase_timeout(0, 7).is_empty());
    assert!(nodes[2].on_phase_timeout(3, 1).is_empty());
    assert_eq!(nodes[2].mode, PbftMode::Normal);
    // A view-change timer for a view change that is not underway.
    assert!(nodes[2].on_view_change_timeout(1).is_empty());
    assert_eq!(nodes[2].mode, PbftMode::Normal);
}

#[test]
fn view_change_timeout_escalates_monotonically() {
    let mut nodes = network(4, 1);
    for _a in nodes[2].on_phase_timeout(0, 1) {}
    assert_eq!(nodes[2].mode, PbftMode::ViewChanging(1));
    let acts = nodes[2].on_view_change_timeout(1);
    assert_eq!(nodes[2].mode, PbftMode::ViewChanging(2));
    match &acts[0] {
        PbftAction::BroadcastViewChange(v) => {
            assert_eq!(v.view, 2);
        }
        _ => panic!("expected a view-change broadcast"),
    }
    // A stale escalation timer for the superseded target does nothing.
    assert!(nodes[2].on_view_change_timeout(1).is_empty());
    assert_eq!(nodes[2].mode, PbftMode::ViewChanging(2));
}

#[test]
fn bandwagon_joins_corroborated_view_change() {
    // One view-change request alone (f = 1) does not move a node; a second
    // distinct peer asking for the same view does.
    let mut nodes = network(4, 1);
    let r = nodes[0].on_peer_message(PeerMessage::ViewChange(plain_vc(1, 0, 2))).unwrap();
    assert!(r.is_empty());
    assert_eq!(nodes[0].mode, PbftMode::Normal);
    let r2 = nodes[0].on_peer_message(PeerMessage::ViewChange(plain_vc(1, 0, 3))).unwrap();
    assert_eq!(nodes[0].mode, PbftMode::ViewChanging(1));
    assert!(!r2.is_empty());
}

#[test]
fn checkpoint_prunes_log_and_later_view_changes_report_it() {
    let mut nodes = network(4, 1);
    let acts = nodes[0].on_block_ready(0xD);
    let queue: Vec<(usize, PbftAction)> = acts.into_iter().map(|a| (0usize, a)).collect();
    run_network(&mut nodes, queue, &[]);
    let node = &mut nodes[2];
    assert_eq!(node.stable_checkpoint, 1);
    // Log queries at or below the checkpoint come back empty.
    assert_eq!(node.log.count_matching(MsgKind::Prepare, 0, 1, 0xD), 0);
    assert_eq!(node.log.count_matching(MsgKind::Commit, 0, 1, 0xD), 0);
    // A later view-change request reports the checkpoint.
    let acts = node.on_phase_timeout(0, 2);
    match &acts[0] {
        PbftAction::BroadcastViewChange(v) => {
            assert_eq!(v.checkpoint, 1);
        }
        _ => panic!("expected a view-change broadcast"),
    }
}

#[test]
fn checkpoint_quorum_against_own_digest_is_internal_error() {
    // The node committed seq 1 with one digest; a checkpoint quorum claims
    // another: divergence, surfaced as InternalError.
    let mut nodes = network(4, 10);
    let acts = nodes[0].on_block_ready(0xA);
    let queue: Vec<(usize, PbftAction)> = acts.into_iter().map(|a| (0usize, a)).collect();
    run_network(&mut nodes, queue, &[]);
    assert_eq!(nodes[1].committed_digest_at(1), Some(0xA));
    let mut last = Ok(Vec::new());
    for s in [0u64, 2, 3] {
        last = nodes[1].on_peer_message(PeerMessage::Consensus(PbftMessage::new(
            MsgKind::Checkpoint,
            0,
            1,
            0xBAD,
            s,
        )));
    }
    assert!(matches!(last, Err(PbftError::InternalError(_))));
    assert_eq!(nodes[1].stable_checkpoint, 0);
}

#[test]
fn stale_view_change_is_invalid() {
    let mut nodes = network(4, 1);
    // A view-change request for the node's current view is stale.
    let r = nodes[1].on_peer_message(PeerMessage::ViewChange(plain_vc(0, 0, 2)));
    assert!(matches!(r, Err(PbftError::InvalidMessage(_))));
}

#[test]
fn two_sequences_commit_in_order() {
    let mut nodes = network(4, 10);
    let acts = nodes[0].on_block_ready(0xA1);
    let queue: Vec<(usize, PbftAction)> = acts.into_iter().map(|a| (0usize, a)).collect();
    run_network(&mut nodes, queue, &[]);
    let acts = nodes[0].on_block_ready(0xA2);
    let queue: Vec<(usize, PbftAction)> = acts.into_iter().map(|a| (0usize, a)).collect();
    run_network(&mut nodes, queue, &[]);
    for node in nodes.iter() {
        assert_eq!(node.committed_digest_at(1), Some(0xA1));
        assert_eq!(node.committed_digest_at(2), Some(0xA2));
        assert_eq!(node.seq, 3);
    }
}

#[test]
fn stale_view_messages_are_dropped_on_new_view() {
    let mut nodes = network(4, 1);
    // A vote under view 0 sits in node 2's log.
    let old_vote = PbftMessage::new(MsgKind::Prepare, 0, 1, 0xD, 3);
    let _ = nodes[2].on_peer_message(PeerMessage::Consensus(old_vote));
    assert_eq!(nodes[2].log.count_matching(MsgKind::Prepare, 0, 1, 0xD), 1);
    // The network moves to view 1; the stale vote is gone.
    let mut queue: Vec<(usize, PbftAction)> = Vec::new();
    for i in [1usize, 2, 3] {
        for a in nodes[i].on_phase_timeout(0, 1) {
            queue.push((i, a));
        }
    }
    run_network(&mut nodes, queue, &[0]);
    assert_eq!(nodes[2].view, 1);
    assert_eq!(nodes[2].log.count_matching(MsgKind::Prepare, 0, 1, 0xD), 0);
}

#[test]
fn votes_arriving_before_the_pre_prepare_still_count() {
    // Reordering tie-break: a node holds a full prepare quorum before ever
    // seeing the pre-prepare; once the pre-prepare arrives and validates,
    // the transition completes at once.
    let mut nodes = network(4, 10);
    for s in [1u64, 2, 3] {
        let vote = PbftMessage::new(MsgKind::Prepare, 0, 1, 0xD, s);
        assert!(nodes[3].on_peer_message(PeerMessage::Consensus(vote)).is_ok());
    }
    let pp = PbftMessage::new(MsgKind::PrePrepare, 0, 1, 0xD, 0);
    let acts = nodes[3].on_peer_message(PeerMessage::Consensus(pp)).unwrap();
    // The node answers with its own prepare and, the quorum being already
    // in its log, immediately votes commit as well.
    assert!(acts.iter().any(|a| matches!(
        a,
        PbftAction::Broadcast(m) if m.kind == MsgKind::Prepare && m.digest == 0xD
    )));
    assert!(acts.iter().any(|a| matches!(
        a,
        PbftAction::Broadcast(m) if m.kind == MsgKind::Commit && m.digest == 0xD
    )));
}

#[test]
fn flat_view_change_envelope_is_rejected() {
    // View changes travel as ViewChangeMsg; a flat message of that kind is
    // malformed and explicitly rejected.
    let mut nodes = network(4, 1);
    let flat = PbftMessage::new(MsgKind::ViewChange, 1, 0, 0, 2);
    let r = nodes[0].on_peer_message(PeerMessage::Consensus(flat));
    assert!(matches!(r, Err(PbftError::InvalidMessage(_))));
}

#[test]
fn prepared_claim_travels_with_the_view_change() {
    // A node that is Prepared when the view changes reports its prepared
    // sequence and digest in its view-change request.
    let mut nodes = network(4, 10);
    let pp = PbftMessage::new(MsgKind::PrePrepare, 0, 1, 0xD, 0);
    nodes[2].on_peer_message(PeerMessage::Consensus(pp)).unwrap();
    for s in [0u64, 1, 3] {
        let vote = PbftMessage::new(MsgKind::Prepare, 0, 1, 0xD, s);
        nodes[2].on_peer_message(PeerMessage::Consensus(vote)).unwrap();
    }
    // Prepared now; the timeout's view-change request carries the claim.
    let acts = nodes[2].on_phase_timeout(0, 1);
    match &acts[0] {
        PbftAction::BroadcastViewChange(v) => {
            assert!(v.has_prepared);
            assert_eq!(v.prepared_seq, 1);
            assert_eq!(v.prepared_digest, 0xD);
        }
        _ => panic!("expected a view-change broadcast"),
    }
}

#[test]
fn new_primary_re_proposes_a_prepared_sequence() {
    // Cross-view safety: node 2 prepared digest 0xD at seq 1; after the
    // view change, the new primary's announcement must carry a re-issued
    // pre-prepare for exactly that sequence and digest, and the network
    // then commits 0xD — never another digest — at seq 1.
    let mut nodes = network(4, 10);
    let pp = PbftMessage::new(MsgKind::PrePrepare, 0, 1, 0xD, 0);
    nodes[2].on_peer_message(PeerMessage::Consensus(pp)).unwrap();
    for s in [0u64, 1, 3] {
        let vote = PbftMessage::new(MsgKind::Prepare, 0, 1, 0xD, s);
        nodes[2].on_peer_message(PeerMessage::Consensus(vote)).unwrap();
    }
    let mut queue: Vec<(usize, PbftAction)> = Vec::new();
    for i in [1usize, 2, 3] {
        for a in nodes[i].on_phase_timeout(0, 1) {
            queue.push((i, a));
        }
    }
    run_network(&mut nodes, queue, &[0]);
    for i in [1usize, 2, 3] {
        assert_eq!(nodes[i].view, 1, "node {} did not reach view 1", i);
        assert_eq!(
            nodes[i].committed_digest_at(1),
            Some(0xD),
            "node {} lost the prepared decision",
            i
        );
    }
}

#[test]
fn new_view_with_unvouched_pre_prepare_is_rejected() {
    // An embedded pre-prepare that no member of the attached quorum
    // prepared is a fabrication by the primary-elect.
    let mut nodes = network(4, 1);
    let nv = pbft::message::NewViewMsg {
        view: 1,
        sender: 1,
        view_changes: vec![plain_vc(1, 0, 1), plain_vc(1, 0, 2), plain_vc(1, 0, 3)],
        pre_prepares: vec![PbftMessage::new(MsgKind::PrePrepare, 1, 1, 0xBAD, 1)],
    };
    let mut node = nodes.remove(2);
    let r = node.handle_new_view(nv);
    assert!(matches!(r, Err(PbftError::FaultyPrimary(_))));
    assert_eq!(node.view, 0);
}

#[test]
fn rendered_error_texts() {
    assert_eq!(
        PbftError::NotFromPrimary.display_message(),
        "NotFromPrimary: Message should be from primary, but was sent by secondary"
    );
    assert_eq!(
        PbftError::FaultyPrimary("timeout at seq 1".to_string()).display_message(),
        "FaultyPrimary: Node has detected a faulty primary and started a view change: \
         timeout at seq 1"
    );
    assert_eq!(
        PbftError::SerializationError("bad frame".to_string(), "short read".to_string())
            .display_message(),
        "SerializationError: bad frame due to: short read"
    );
}
