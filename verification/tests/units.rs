use pbft::config::PbftConfig;
use pbft::error::PbftError;
use pbft::log::PbftLog;
use pbft::message::MsgKind;
use pbft::message::PbftMessage;
use pbft::node::PbftNode;

fn cfg4() -> PbftConfig {
    PbftConfig::new(4, 1).unwrap()
}

#[test]
fn error_descriptions() {
    assert_eq!(
        PbftError::SerializationError("a".to_string(), "b".to_string()).description(),
        "SerializationError"
    );
    assert_eq!(
        PbftError::ServiceError("a".to_string(), "b".to_string()).description(),
        "ServiceError"
    );
    assert_eq!(PbftError::SigningError("a".to_string()).description(), "SigningError");
    assert_eq!(PbftError::FaultyPrimary("a".to_string()).description(), "FaultyPrimary");
    assert_eq!(PbftError::InvalidMessage("a".to_string()).description(), "InvalidMessage");
    assert_eq!(PbftError::InternalError("a".to_string()).description(), "InternalError");
    assert_eq!(PbftError::NotFromPrimary.description(), "NotFromPrimary");
}

#[test]
fn config_derives_fault_bound() {
    let c = cfg4();
    assert_eq!(c.n, 4);
    assert_eq!(c.f, 1);
    assert_eq!(c.quorum_size(), 3);
    assert_eq!(c.bandwagon_size(), 2);
    let c7 = PbftConfig::new(7, 10).unwrap();
    assert_eq!(c7.f, 2);
    assert_eq!(c7.quorum_size(), 5);
}

#[test]
fn config_rejects_tiny_networks() {
    assert!(PbftConfig::new(3, 1).is_none());
    assert!(PbftConfig::new(0, 1).is_none());
    assert!(PbftConfig::new(4, 0).is_none());
}

#[test]
fn primary_rotates_round_robin() {
    let c = cfg4();
    assert_eq!(c.primary_of_view(0), 0);
    assert_eq!(c.primary_of_view(1), 1);
    assert_eq!(c.primary_of_view(5), 1);
    assert_eq!(c.primary_of_view(8), 0);
}

fn vote(kind: MsgKind, view: u64, seq: u64, digest: u64, sender: u64) -> PbftMessage {
    PbftMessage::new(kind, view, seq, digest, sender)
}

#[test]
fn log_counts_distinct_senders_once() {
    let c = cfg4();
    let mut log = PbftLog::new();
    let m = vote(MsgKind::Prepare, 0, 1, 7, 2);
    assert_eq!(log.insert(c.n, m), Ok(true));
    // The identical message again: deduplicated, never counted twice.
    assert_eq!(log.insert(c.n, m), Ok(false));
    assert_eq!(log.count_matching(MsgKind::Prepare, 0, 1, 7), 1);
    assert!(!log.has_quorum(&c, MsgKind::Prepare, 0, 1, 7));
    assert_eq!(log.insert(c.n, vote(MsgKind::Prepare, 0, 1, 7, 1)), Ok(true));
    assert_eq!(log.insert(c.n, vote(MsgKind::Prepare, 0, 1, 7, 3)), Ok(true));
    assert_eq!(log.count_matching(MsgKind::Prepare, 0, 1, 7), 3);
    assert!(log.has_quorum(&c, MsgKind::Prepare, 0, 1, 7));
    assert_eq!(log.quorum_digest(&c, MsgKind::Prepare, 0, 1), Some(7));
}

#[test]
fn log_rejects_equivocation() {
    let c = cfg4();
    let mut log = PbftLog::new();
    assert_eq!(log.insert(c.n, vote(MsgKind::Prepare, 0, 1, 7, 2)), Ok(true));
    // Same sender, same slot, different digest: equivocation.
    let r = log.insert(c.n, vote(MsgKind::Prepare, 0, 1, 8, 2));
    assert!(matches!(r, Err(PbftError::InvalidMessage(_))));
    assert_eq!(log.count_matching(MsgKind::Prepare, 0, 1, 8), 0);
    assert_eq!(log.count_matching(MsgKind::Prepare, 0, 1, 7), 1);
}

#[test]
fn log_quorum_needs_two_f_plus_one() {
    let c = cfg4();
    let mut log = PbftLog::new();
    log.insert(c.n, vote(MsgKind::Commit, 0, 1, 9, 0)).unwrap();
    log.insert(c.n, vote(MsgKind::Commit, 0, 1, 9, 1)).unwrap();
    assert_eq!(log.quorum_digest(&c, MsgKind::Commit, 0, 1), None);
    log.insert(c.n, vote(MsgKind::Commit, 0, 1, 9, 2)).unwrap();
    assert_eq!(log.quorum_digest(&c, MsgKind::Commit, 0, 1), Some(9));
}

#[test]
fn log_prune_discards_at_and_below() {
    let c = cfg4();
    let mut log = PbftLog::new();
    log.insert(c.n, vote(MsgKind::Prepare, 0, 1, 7, 0)).unwrap();
    log.insert(c.n, vote(MsgKind::Prepare, 0, 2, 7, 0)).unwrap();
    log.insert(c.n, vote(MsgKind::Prepare, 0, 3, 7, 0)).unwrap();
    // A view-change request survives pruning: its sequence field is a
    // checkpoint claim, not a slot.
    log.insert(c.n, vote(MsgKind::ViewChange, 4, 1, 0, 2)).unwrap();
    log.prune(c.n, 2);
    assert_eq!(log.count_matching(MsgKind::Prepare, 0, 1, 7), 0);
    assert_eq!(log.count_matching(MsgKind::Prepare, 0, 2, 7), 0);
    assert_eq!(log.count_matching(MsgKind::Prepare, 0, 3, 7), 1);
    assert_eq!(log.count_matching(MsgKind::ViewChange, 4, 0, 0), 1);
}

#[test]
fn node_rejects_unknown_identity() {
    let c = cfg4();
    assert!(PbftNode::new(c, 4).is_none());
    assert!(PbftNode::new(c, 3).is_some());
}

#[test]
fn fresh_node_state() {
    let n = PbftNode::new(cfg4(), 0).unwrap();
    assert_eq!(n.view, 0);
    assert_eq!(n.seq, 1);
    assert_eq!(n.stable_checkpoint, 0);
    assert_eq!(n.committed_digest_at(1), None);
}

#[test]
fn prepare_outside_current_view_is_invalid() {
    let mut n = PbftNode::new(cfg4(), 1).unwrap();
    let r = n.handle_prepare(vote(MsgKind::Prepare, 3, 1, 7, 2));
    assert!(matches!(r, Err(PbftError::InvalidMessage(_))));
    let r2 = n.handle_prepare(vote(MsgKind::Commit, 0, 1, 7, 2));
    assert!(matches!(r2, Err(PbftError::InvalidMessage(_))));
}

#[test]
fn vote_for_future_sequence_is_buffered() {
    // Votes are never discarded merely for arriving out of order within
    // the view: a prepare for a later sequence is stored.
    let mut n = PbftNode::new(cfg4(), 1).unwrap();
    assert!(n.handle_prepare(vote(MsgKind::Prepare, 0, 5, 7, 2)).is_ok());
    assert_eq!(n.log.count_matching(MsgKind::Prepare, 0, 5, 7), 1);
}
