//! Consensus messages.
//!
//! Every message a node exchanges is either a flat [`PbftMessage`] — one of
//! the five kinds that the message log stores — or a compound
//! [`NewViewMsg`], which carries the view-change quorum that justifies a new
//! view.  The kinds form a closed set: every handler matches exhaustively.

use vstd::prelude::*;

verus! {

/// The kinds of flat consensus message.
#[derive(Clone, Copy, PartialEq, Eq, Structural, Debug)]
pub enum MsgKind {
    /// The primary's proposal of a digest for one sequence.
    PrePrepare,
    /// A node's first-round vote for a proposed digest.
    Prepare,
    /// A node's second-round vote, sent once a prepare quorum is held.
    Commit,
    /// A node's request to replace the primary of its current view.  On the
    /// wire a view change travels as a [`ViewChangeMsg`], which also carries
    /// the sender's prepared claim; the flat form exists so the kind set is
    /// closed and handlers can reject it explicitly.
    ViewChange,
    /// A node's claim of its state digest at a checkpoint sequence.
    Checkpoint,
}

/// A flat consensus message.
///
/// The digest stands for the fixed-size content hash of a block: nodes agree
/// on digests, never on raw blocks.  For a `ViewChange`, `view` is the view
/// being moved to, `seq` is the sender's last stable checkpoint and the
/// digest carries no information.  For a `Checkpoint`, `view` carries no
/// information and is normalized to zero in the log.
#[derive(Clone, Copy, PartialEq, Eq, Structural, Debug)]
pub struct PbftMessage {
    pub kind: MsgKind,
    pub view: u64,
    pub seq: u64,
    pub digest: u64,
    pub sender: u64,
}

/// A view-change request: the view being moved to, the sender's last stable
/// checkpoint, and — so that a new primary can re-propose what may already
/// be decided — the sender's prepared-but-uncommitted sequence and digest,
/// if it holds one.
#[derive(Clone, Copy, PartialEq, Eq, Structural, Debug)]
pub struct ViewChangeMsg {
    pub view: u64,
    pub checkpoint: u64,
    pub has_prepared: bool,
    pub prepared_seq: u64,
    pub prepared_digest: u64,
    pub sender: u64,
}

/// A new-view announcement from the primary-elect of `view`: the quorum of
/// view-change requests that justifies the view, and the pre-prepares to be
/// replayed — one for each sequence some member of that quorum reports
/// having prepared, so that a decision possibly committed under an earlier
/// view is re-proposed, never replaced.
#[derive(Clone, Debug)]
pub struct NewViewMsg {
    pub view: u64,
    pub sender: u64,
    pub view_changes: Vec<ViewChangeMsg>,
    pub pre_prepares: Vec<PbftMessage>,
}

/// A verified inbound message, as handed in by the caller after signature
/// verification.
#[derive(Clone, Debug)]
pub enum PeerMessage {
    Consensus(PbftMessage),
    ViewChange(ViewChangeMsg),
    NewView(NewViewMsg),
}

impl PbftMessage {
    /// Builds a flat message.
    pub fn new(kind: MsgKind, view: u64, seq: u64, digest: u64, sender: u64) -> (r: PbftMessage)
        ensures
            r == (PbftMessage { kind, view, seq, digest, sender }),
    {
        PbftMessage { kind, view, seq, digest, sender }
    }
}

} // verus!
