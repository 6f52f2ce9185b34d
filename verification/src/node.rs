//! The consensus node: state, phase engine, view changes and checkpoints.
//!
//! A node is a pure state machine.  Every handler takes the node and one
//! event — a verified peer message, a candidate block, or a timer expiry —
//! and returns the actions the caller must perform: messages to broadcast
//! and blocks to finalize.  Handlers never block and never perform I/O;
//! re-invoking them on each new message or timer tick drives the protocol.
//!
//! A faulty primary is a routed value, not an abort: handlers that detect
//! one return `PbftError::FaultyPrimary` with the state untouched, and
//! [`PbftNode::on_peer_message`] routes it into a view change.

use vstd::prelude::*;

use crate::config::PbftConfig;
use crate::error::PbftError;
use crate::log::PbftLog;
use crate::log::count_votes;
use crate::log::same_slot;
use crate::log::inserted;
use crate::log::lemma_prefix_contains;
use crate::log::slot_free;
use crate::message::MsgKind;
use crate::message::NewViewMsg;
use crate::message::PbftMessage;
use crate::message::PeerMessage;
use crate::message::ViewChangeMsg;

verus! {

/// Progress of the three-phase protocol at the node's working sequence.
#[derive(Clone, Copy, PartialEq, Eq, Structural, Debug)]
pub enum PbftPhase {
    /// No proposal accepted for the working sequence yet.
    Idle,
    /// A pre-prepare with this digest was accepted; waiting for a prepare
    /// quorum.
    PrePrepared(u64),
    /// A prepare quorum certificate was reached for this digest; waiting for
    /// a commit quorum.
    Prepared(u64),
}

/// Whether the node operates normally or is replacing its primary.
#[derive(Clone, Copy, PartialEq, Eq, Structural, Debug)]
pub enum PbftMode {
    /// Accepting proposals from the primary of the current view.
    Normal,
    /// A view change to this (strictly higher) view is underway.
    ViewChanging(u64),
}

/// A finalized decision: `seq` committed with `digest`.
#[derive(Clone, Copy, PartialEq, Eq, Structural, Debug)]
pub struct CommittedEntry {
    pub seq: u64,
    pub digest: u64,
}

/// An instruction to the caller, produced by a handler.
#[derive(Clone, Debug)]
pub enum PbftAction {
    /// Send this message to all peers.  The node has already stored its own
    /// copy in its log where one is due.
    Broadcast(PbftMessage),
    /// Send this view-change request to all peers.
    BroadcastViewChange(ViewChangeMsg),
    /// Send this new-view announcement to all peers.
    BroadcastNewView(NewViewMsg),
    /// Instruct the ledger to finalize the block with this digest at this
    /// sequence: `CommitBlock(seq, digest)`.
    CommitBlock(u64, u64),
}

/// The digest with which `seq` was committed, if any, looked up from the
/// newest record backwards.
pub open spec fn committed_digest(c: Seq<CommittedEntry>, seq: u64) -> Option<u64>
    decreases c.len(),
{
    if c.len() == 0 {
        None
    } else if c.last().seq == seq {
        Some(c.last().digest)
    } else {
        committed_digest(c.drop_last(), seq)
    }
}

/// Commit records are listed in strictly increasing sequence order.
pub open spec fn committed_sorted(c: Seq<CommittedEntry>) -> bool {
    forall|i: int, j: int| 0 <= i < j < c.len() ==> c[i].seq < c[j].seq
}

/// No stored claim occupies the per-(view, sender) slot that `c` claims.
pub open spec fn claim_slot_free(s: Seq<ViewChangeMsg>, c: ViewChangeMsg) -> bool {
    forall|i: int| 0 <= i < s.len() ==> !((#[trigger] s[i]).view == c.view && s[i].sender == c.sender)
}

/// Stored claims come one per (view, sender), from member identities.
pub open spec fn claims_wf(s: Seq<ViewChangeMsg>, n: int) -> bool {
    &&& forall|i: int, j: int|
        0 <= i < j < s.len() ==> !(s[i].view == s[j].view && s[i].sender == s[j].sender)
    &&& forall|i: int| 0 <= i < s.len() ==> s[i].sender < n
}

/// Number of stored view-change requests for `view`; by the per-(view,
/// sender) slot discipline each counted request comes from a distinct
/// sender.
pub open spec fn count_claims(s: Seq<ViewChangeMsg>, view: u64) -> nat
    decreases s.len(),
{
    if s.len() == 0 {
        0
    } else {
        count_claims(s.drop_last(), view) + if s.last().view == view {
            1nat
        } else {
            0nat
        }
    }
}

/// One loop step of claim counting.
pub proof fn lemma_count_claims_take_step(s: Seq<ViewChangeMsg>, i: int, view: u64)
    requires
        0 <= i < s.len(),
    ensures
        count_claims(s.take(i + 1), view) == count_claims(s.take(i), view) + if s[i].view
            == view {
            1nat
        } else {
            0nat
        },
{
    assert(s.take(i + 1).drop_last() =~= s.take(i));
    assert(s.take(i + 1).last() == s[i]);
}

/// Appending one claim adds one request exactly when its view matches.
pub proof fn lemma_count_claims_push(s: Seq<ViewChangeMsg>, c: ViewChangeMsg, view: u64)
    ensures
        count_claims(s.push(c), view) == count_claims(s, view) + if c.view == view {
            1nat
        } else {
            0nat
        },
{
    assert(s.push(c).drop_last() =~= s);
    assert(s.push(c).last() == c);
}

/// Containment survives extension of the claims table.
pub proof fn lemma_claims_prefix_contains(
    s1: Seq<ViewChangeMsg>,
    s2: Seq<ViewChangeMsg>,
    c: ViewChangeMsg,
)
    requires
        s1.is_prefix_of(s2),
        s1.contains(c),
    ensures
        s2.contains(c),
{
    let i = choose|i: int| 0 <= i < s1.len() && s1[i] == c;
    assert(s2[i] == s1[i]);
}

/// Some claim among `vcs` vouches for the pre-prepare `pp`.
pub open spec fn justified_by(vcs: Seq<ViewChangeMsg>, pp: PbftMessage) -> bool {
    exists|j: int| 0 <= j < vcs.len() && PbftNode::claim_justifies(#[trigger] vcs[j], pp)
}

/// `x` occurs among the first `i` claims of `s`.
pub open spec fn claim_occurs_before(s: Seq<ViewChangeMsg>, i: int, x: ViewChangeMsg) -> bool {
    exists|j: int| 0 <= j < i && x == #[trigger] s[j]
}

/// A committed digest is witnessed by a record.
pub proof fn lemma_committed_digest_index(c: Seq<CommittedEntry>, seq: u64, d: u64)
    requires
        committed_digest(c, seq) == Some(d),
    ensures
        exists|k: int| 0 <= k < c.len() && c[k].seq == seq && #[trigger] c[k].digest == d,
    decreases c.len(),
{
    if c.last().seq == seq {
        assert(c[c.len() - 1].seq == seq && c[c.len() - 1].digest == d);
    } else {
        lemma_committed_digest_index(c.drop_last(), seq, d);
        let k = choose|k: int|
            0 <= k < c.drop_last().len() && c.drop_last()[k].seq == seq && #[trigger] c.drop_last()[k].digest
                == d;
        assert(c.drop_last()[k] == c[k]);
    }
}

/// Safety of the commit record: once a sequence is committed with a digest,
/// no later protocol step — which only ever appends to the record — can
/// change that digest.  Every mutating handler of [`PbftNode`] ensures that
/// the old record is a prefix of the new one and that the record stays
/// sorted, so this lemma carries a committed digest across any chain of
/// handler calls, across view changes included.
pub proof fn lemma_committed_stable(
    c1: Seq<CommittedEntry>,
    c2: Seq<CommittedEntry>,
    seq: u64,
    d: u64,
)
    requires
        c1.is_prefix_of(c2),
        committed_sorted(c2),
        committed_digest(c1, seq) == Some(d),
    ensures
        committed_digest(c2, seq) == Some(d),
    decreases c2.len(),
{
    if c2.len() == c1.len() {
        assert(c1 =~= c2);
    } else {
        lemma_committed_digest_index(c1, seq, d);
        let k = choose|k: int|
            0 <= k < c1.len() && c1[k].seq == seq && #[trigger] c1[k].digest == d;
        assert(c2[k] == c1[k]);
        assert(c2[k].seq < c2[c2.len() - 1].seq);
        assert(c2.last().seq != seq);
        assert forall|i: int| 0 <= i < c1.len() implies c2.drop_last()[i] == c1[i] by {
            assert(c2[i] == c1[i]);
        }
        assert(c1.is_prefix_of(c2.drop_last()));
        lemma_committed_stable(c1, c2.drop_last(), seq, d);
    }
}

/// A consensus node.
pub struct PbftNode {
    /// Network membership and fault bound; fixed for the node's lifetime.
    pub cfg: PbftConfig,
    /// This node's identity, below `cfg.n`.
    pub id: u64,
    /// Current view; non-decreasing for the node's lifetime.
    pub view: u64,
    /// Working sequence: the lowest sequence not yet committed here.
    pub seq: u64,
    /// Progress of the three-phase protocol at `seq` under `view`.
    pub phase: PbftPhase,
    /// Normal operation or an underway view change.
    pub mode: PbftMode,
    /// The message log backing quorum evaluation.
    pub log: PbftLog,
    /// The last stable checkpoint: entries at or below it are pruned.
    pub stable_checkpoint: u64,
    /// The append-only record of finalized decisions.
    pub committed: Vec<CommittedEntry>,
    /// The stored view-change requests, one per (view, sender).
    pub claims: Vec<ViewChangeMsg>,
}

impl PbftNode {
    /// The node's internal invariant.
    pub open spec fn wf(self) -> bool {
        &&& self.cfg.wf()
        &&& self.id < self.cfg.n
        &&& self.log.wf(self.cfg.n as int)
        &&& claims_wf(self.claims@, self.cfg.n as int)
        &&& self.seq >= 1
        &&& self.seq > self.stable_checkpoint
        &&& (self.mode matches PbftMode::ViewChanging(v) ==> v > self.view)
        &&& committed_sorted(self.committed@)
        &&& forall|i: int| 0 <= i < self.committed@.len() ==> self.committed@[i].seq < self.seq
    }

    /// Administrative fields never change after construction.
    pub open spec fn same_node(pre: PbftNode, post: PbftNode) -> bool {
        &&& post.cfg == pre.cfg
        &&& post.id == pre.id
    }

    /// What every handler guarantees: the view and the stable checkpoint
    /// never decrease, and the commit record and the claims table only
    /// grow.
    pub open spec fn monotone(pre: PbftNode, post: PbftNode) -> bool {
        &&& post.view >= pre.view
        &&& post.stable_checkpoint >= pre.stable_checkpoint
        &&& pre.committed@.is_prefix_of(post.committed@)
        &&& pre.claims@.is_prefix_of(post.claims@)
    }

    /// A fresh node at view 0, working on sequence 1; rejects an identity
    /// outside the membership.
    pub fn new(cfg: PbftConfig, id: u64) -> (r: Option<PbftNode>)
        requires
            cfg.wf(),
        ensures
            r is Some <==> id < cfg.n,
            r is Some ==> {
                let node = r->Some_0;
                &&& node.wf()
                &&& node.cfg == cfg
                &&& node.id == id
                &&& node.view == 0
                &&& node.seq == 1
                &&& node.phase is Idle
                &&& node.mode is Normal
                &&& node.stable_checkpoint == 0
                &&& node.committed@.len() == 0
                &&& node.claims@.len() == 0
                &&& node.log.entries@.len() == 0
            },
    {
        if id < cfg.n {
            Some(
                PbftNode {
                    cfg,
                    id,
                    view: 0,
                    seq: 1,
                    phase: PbftPhase::Idle,
                    mode: PbftMode::Normal,
                    log: PbftLog::new(),
                    stable_checkpoint: 0,
                    committed: Vec::new(),
                    claims: Vec::new(),
                },
            )
        } else {
            None
        }
    }

    /// The digest with which this node committed `seq`, if it did.
    pub fn committed_digest_at(&self, seq: u64) -> (r: Option<u64>)
        ensures
            r == committed_digest(self.committed@, seq),
    {
        let ghost c = self.committed@;
        let mut i: usize = self.committed.len();
        proof {
            assert(c.take(c.len() as int) =~= c);
        }
        while i > 0
            invariant
                i <= c.len(),
                self.committed@ == c,
                committed_digest(c, seq) == committed_digest(c.take(i as int), seq),
            decreases i,
        {
            i -= 1;
            let e = self.committed[i];
            proof {
                assert(c.take(i + 1).last() == c[i as int]);
                assert(c.take(i + 1).drop_last() =~= c.take(i as int));
            }
            if e.seq == seq {
                return Some(e.digest);
            }
        }
        proof {
            assert(c.take(0) =~= Seq::<CommittedEntry>::empty());
        }
        None
    }

    /// Number of stored view-change requests for `view`.
    pub fn count_claims_for(&self, view: u64) -> (r: usize)
        ensures
            r == count_claims(self.claims@, view),
    {
        let ghost s = self.claims@;
        let mut count: usize = 0;
        let mut i: usize = 0;
        while i < self.claims.len()
            invariant
                self.claims@ == s,
                i <= s.len(),
                count == count_claims(s.take(i as int), view),
                count <= i,
            decreases s.len() - i,
        {
            proof {
                lemma_count_claims_take_step(s, i as int, view);
            }
            if self.claims[i].view == view {
                count += 1;
            }
            i += 1;
        }
        proof {
            assert(s.take(s.len() as int) =~= s);
        }
        count
    }

    /// The stored view-change requests for `view`, in table order; their
    /// senders are pairwise distinct member identities.
    pub fn collect_claims(&self, view: u64) -> (r: Vec<ViewChangeMsg>)
        requires
            self.wf(),
        ensures
            r@.len() == count_claims(self.claims@, view),
            forall|a: int|
                0 <= a < r@.len() ==> (#[trigger] r@[a]).view == view && r@[a].sender
                    < self.cfg.n,
            forall|a: int, b: int| 0 <= a < b < r@.len() ==> r@[a].sender != r@[b].sender,
    {
        let ghost s = self.claims@;
        let mut out: Vec<ViewChangeMsg> = Vec::new();
        let mut i: usize = 0;
        while i < self.claims.len()
            invariant
                self.claims@ == s,
                claims_wf(s, self.cfg.n as int),
                i <= s.len(),
                out@.len() == count_claims(s.take(i as int), view),
                forall|a: int|
                    0 <= a < out@.len() ==> (#[trigger] out@[a]).view == view && out@[a].sender
                        < self.cfg.n,
                forall|a: int, b: int| 0 <= a < b < out@.len() ==> out@[a].sender != out@[b].sender,
                forall|a: int|
                    0 <= a < out@.len() ==> #[trigger] claim_occurs_before(s, i as int, out@[a]),
            decreases s.len() - i,
        {
            let c = self.claims[i];
            proof {
                lemma_count_claims_take_step(s, i as int, view);
            }
            if c.view == view {
                out.push(c);
                assert forall|a: int| 0 <= a < out@.len() implies #[trigger] claim_occurs_before(
                    s,
                    i + 1,
                    out@[a],
                ) by {
                    if a < out@.len() - 1 {
                        assert(claim_occurs_before(s, i as int, out@.drop_last()[a]));
                        let j = choose|j: int| 0 <= j < i && out@.drop_last()[a] == s[j];
                        assert(out@[a] == s[j]);
                    } else {
                        assert(out@[a] == s[i as int]);
                    }
                }
                assert forall|a: int, b: int| 0 <= a < b < out@.len() implies out@[a].sender
                    != out@[b].sender by {
                    if b == out@.len() - 1 {
                        assert(claim_occurs_before(s, i as int, out@.drop_last()[a]));
                        let j = choose|j: int| 0 <= j < i && out@.drop_last()[a] == s[j];
                        assert(out@[a] == s[j]);
                        assert(out@[b] == s[i as int]);
                        assert(!(s[j].view == s[i as int].view && s[j].sender == s[
                            i as int
                        ].sender));
                    } else {
                        assert(out@.drop_last()[a] == out@[a]);
                        assert(out@.drop_last()[b] == out@[b]);
                    }
                }
            } else {
                assert forall|a: int| 0 <= a < out@.len() implies #[trigger] claim_occurs_before(
                    s,
                    i + 1,
                    out@[a],
                ) by {
                    assert(claim_occurs_before(s, i as int, out@[a]));
                    let j = choose|j: int| 0 <= j < i && out@[a] == s[j];
                    assert(out@[a] == s[j]);
                }
            }
            i += 1;
        }
        proof {
            assert(s.take(s.len() as int) =~= s);
        }
        out
    }

    /// Nothing observable changed.
    pub open spec fn unchanged(pre: PbftNode, post: PbftNode) -> bool {
        &&& Self::same_node(pre, post)
        &&& post.view == pre.view
        &&& post.seq == pre.seq
        &&& post.phase == pre.phase
        &&& post.mode == pre.mode
        &&& post.stable_checkpoint == pre.stable_checkpoint
        &&& post.log.entries@ == pre.log.entries@
        &&& post.committed@ == pre.committed@
        &&& post.claims@ == pre.claims@
    }

    /// The prepare vote this node issues for `digest` at its working slot.
    pub open spec fn own_prepare(self, digest: u64) -> PbftMessage {
        PbftMessage {
            kind: MsgKind::Prepare,
            view: self.view,
            seq: self.seq,
            digest,
            sender: self.id,
        }
    }

    /// The commit vote this node issues for `digest` at its working slot.
    pub open spec fn own_commit(self, digest: u64) -> PbftMessage {
        PbftMessage {
            kind: MsgKind::Commit,
            view: self.view,
            seq: self.seq,
            digest,
            sender: self.id,
        }
    }

    /// The checkpoint claim this node issues after committing `seq` with
    /// `digest`; checkpoint messages carry no view and are normalized to 0.
    pub open spec fn own_checkpoint(self, seq: u64, digest: u64) -> PbftMessage {
        PbftMessage { kind: MsgKind::Checkpoint, view: 0, seq, digest, sender: self.id }
    }

    /// The view-change request this node issues for `new_view`: its last
    /// stable checkpoint and, when it stands `Prepared`, the sequence and
    /// digest it prepared.
    pub open spec fn own_view_change(self, new_view: u64) -> ViewChangeMsg {
        ViewChangeMsg {
            view: new_view,
            checkpoint: self.stable_checkpoint,
            has_prepared: self.phase is Prepared,
            prepared_seq: if self.phase is Prepared {
                self.seq
            } else {
                0
            },
            prepared_digest: match self.phase {
                PbftPhase::Prepared(d) => d,
                _ => 0,
            },
            sender: self.id,
        }
    }

    /// A pre-prepare is structurally sound here: right kind, known sender,
    /// current view, and the node is not mid view change.
    pub open spec fn pre_prepare_structure_ok(self, msg: PbftMessage) -> bool {
        &&& msg.kind is PrePrepare
        &&& msg.sender < self.cfg.n
        &&& self.mode is Normal
        &&& msg.view == self.view
    }

    /// A pre-prepare this node accepts: structurally sound, from the
    /// designated primary of the current view, at the working sequence.
    pub open spec fn pre_prepare_acceptable(self, msg: PbftMessage) -> bool {
        &&& self.pre_prepare_structure_ok(msg)
        &&& msg.sender == self.cfg.spec_primary(self.view)
        &&& msg.seq == self.seq
    }

    /// A prepare or commit vote this node stores: right kind, known sender,
    /// current view, and a sequence above the stable checkpoint.  Votes for
    /// sequences the node has not reached are stored too: a vote is never
    /// discarded merely for arriving out of order within the view.
    pub open spec fn vote_structure_ok(self, msg: PbftMessage, kind: MsgKind) -> bool {
        &&& msg.kind == kind
        &&& msg.sender < self.cfg.n
        &&& msg.view == self.view
        &&& msg.seq > self.stable_checkpoint
    }

    /// The log once a vote is stored: the vote is appended when its slot is
    /// free, and nothing changes when the identical vote is already held.
    pub open spec fn vote_stored(pre: PbftNode, msg: PbftMessage) -> Seq<PbftMessage> {
        if slot_free(pre.log.entries@, msg) {
            pre.log.entries@.push(msg)
        } else {
            pre.log.entries@
        }
    }

    /// The digest the node's phase carries; zero when idle.
    pub open spec fn accepted_digest(self) -> u64 {
        match self.phase {
            PbftPhase::Idle => 0,
            PbftPhase::PrePrepared(d) => d,
            PbftPhase::Prepared(d) => d,
        }
    }

    /// An acceptable pre-prepare that nonetheless contradicts this node's
    /// record: the primary re-proposed an accepted slot with another
    /// digest, or its stored proposal for the slot differs — equivocation.
    pub open spec fn pre_prepare_conflict(pre: PbftNode, msg: PbftMessage) -> bool {
        match pre.phase {
            PbftPhase::Idle => !slot_free(pre.log.entries@, msg) && !pre.log.entries@.contains(
                msg,
            ),
            PbftPhase::PrePrepared(d) => d != msg.digest,
            PbftPhase::Prepared(d) => d != msg.digest,
        }
    }

    /// The effects of finalizing the working sequence with digest `d`:
    /// the decision is appended to the commit record, the working sequence
    /// advances, the caller is told to finalize the block, and — when the
    /// checkpoint interval is reached — a checkpoint claim is broadcast.
    pub open spec fn committed_step(
        pre: PbftNode,
        post: PbftNode,
        d: u64,
        acts: Seq<PbftAction>,
    ) -> bool {
        &&& post.committed@ == pre.committed@.push(CommittedEntry { seq: pre.seq, digest: d })
        &&& post.seq == pre.seq + 1
        &&& post.phase is Idle
        &&& exists|k: int|
            0 <= k < acts.len() && #[trigger] acts[k] == PbftAction::CommitBlock(pre.seq, d)
        &&& (pre.seq % pre.cfg.checkpoint_interval == 0 ==> exists|k: int|
            0 <= k < acts.len() && #[trigger] acts[k] == PbftAction::Broadcast(
                pre.own_checkpoint(pre.seq, d),
            ))
    }

    /// Handles a pre-prepare: the primary's proposal of `msg.digest` for the
    /// working sequence.
    ///
    /// A structurally unsound message is dropped as `InvalidMessage`.  A
    /// sound message from the wrong sender is dropped as `NotFromPrimary` —
    /// deliberately distinct from a faulty primary, so that a misrouted
    /// message never triggers a view change.  A proposal from the primary
    /// that conflicts with one already accepted or stored is
    /// `FaultyPrimary`: equivocation.  On acceptance the node enters
    /// `PrePrepared` and answers with its own prepare vote.
    ///
    /// A deliberate narrowing: the node runs one sequence at a time, so a
    /// pre-prepare for any sequence other than the working one is dropped
    /// as `InvalidMessage` and the primary re-issues it when the window
    /// reaches it.  Prepare and commit votes, by contrast, are buffered for
    /// any sequence above the stable checkpoint.
    pub fn handle_pre_prepare(&mut self, msg: PbftMessage) -> (r: Result<
        Vec<PbftAction>,
        PbftError,
    >)
        requires
            old(self).wf(),
        ensures
            final(self).wf(),
            Self::same_node(*old(self), *final(self)),
            Self::monotone(*old(self), *final(self)),
            final(self).view == old(self).view,
            final(self).seq == old(self).seq,
            final(self).mode == old(self).mode,
            final(self).stable_checkpoint == old(self).stable_checkpoint,
            final(self).committed@ == old(self).committed@,
            final(self).claims@ == old(self).claims@,
            old(self).log.entries@.is_prefix_of(final(self).log.entries@),
            r is Err ==> Self::unchanged(*old(self), *final(self)),
            !old(self).pre_prepare_structure_ok(msg) ==> r is Err && r->Err_0 is InvalidMessage,
            old(self).pre_prepare_structure_ok(msg) && msg.sender != old(self).cfg.spec_primary(
                old(self).view,
            ) ==> r == Err::<Vec<PbftAction>, PbftError>(PbftError::NotFromPrimary),
            old(self).pre_prepare_structure_ok(msg) && msg.sender == old(self).cfg.spec_primary(
                old(self).view,
            ) && msg.seq != old(self).seq ==> r is Err && r->Err_0 is InvalidMessage,
            old(self).pre_prepare_acceptable(msg) ==> match old(self).phase {
                PbftPhase::Idle => {
                    if slot_free(old(self).log.entries@, msg) || old(self).log.entries@.contains(
                        msg,
                    ) {
                        &&& r is Ok
                        &&& final(self).phase == PbftPhase::PrePrepared(msg.digest)
                        &&& final(self).log.entries@.contains(msg)
                        &&& (slot_free(
                            inserted(old(self).log.entries@, msg),
                            old(self).own_prepare(msg.digest),
                        ) ==> final(self).log.entries@.contains(old(self).own_prepare(msg.digest)))
                        &&& r->Ok_0@.len() == 1
                        &&& r->Ok_0@[0] == PbftAction::Broadcast(old(self).own_prepare(msg.digest))
                    } else {
                        r is Err && r->Err_0 is FaultyPrimary
                    }
                },
                PbftPhase::PrePrepared(d) => if d == msg.digest {
                    r is Ok && r->Ok_0@.len() == 0 && Self::unchanged(*old(self), *final(self))
                } else {
                    r is Err && r->Err_0 is FaultyPrimary
                },
                PbftPhase::Prepared(d) => if d == msg.digest {
                    r is Ok && r->Ok_0@.len() == 0 && Self::unchanged(*old(self), *final(self))
                } else {
                    r is Err && r->Err_0 is FaultyPrimary
                },
            },
    {
        if msg.kind != MsgKind::PrePrepare || msg.sender >= self.cfg.n || self.mode
            != PbftMode::Normal || msg.view != self.view {
            return Err(PbftError::InvalidMessage("pre-prepare failed structural checks".to_string()));
        }
        if msg.sender != self.cfg.primary_of_view(self.view) {
            return Err(PbftError::NotFromPrimary);
        }
        if msg.seq != self.seq {
            return Err(
                PbftError::InvalidMessage("pre-prepare outside the working sequence".to_string()),
            );
        }
        match self.phase {
            PbftPhase::PrePrepared(d) => {
                if d == msg.digest {
                    return Ok(Vec::new());
                } else {
                    return Err(
                        PbftError::FaultyPrimary(
                            "primary proposed a second digest for an accepted slot".to_string(),
                        ),
                    );
                }
            },
            PbftPhase::Prepared(d) => {
                if d == msg.digest {
                    return Ok(Vec::new());
                } else {
                    return Err(
                        PbftError::FaultyPrimary(
                            "primary proposed a second digest for an accepted slot".to_string(),
                        ),
                    );
                }
            },
            PbftPhase::Idle => {},
        }
        let ghost lg0 = self.log.entries@;
        match self.log.insert(self.cfg.n, msg) {
            Ok(_) => {},
            Err(_) => {
                return Err(
                    PbftError::FaultyPrimary(
                        "primary equivocated on a stored pre-prepare".to_string(),
                    ),
                );
            },
        }
        proof {
            if !lg0.contains(msg) {
                if forall|i: int| 0 <= i < lg0.len() ==> !same_slot(lg0[i], msg) {
                    assert(self.log.entries@ == lg0.push(msg));
                    assert(self.log.entries@[lg0.len() as int] == msg);
                } else {
                    assert(exists|i: int|
                        0 <= i < lg0.len() && same_slot(#[trigger] lg0[i], msg));
                    assert(false);
                }
            }
            assert(self.log.entries@.contains(msg));
            assert(self.log.entries@ == inserted(lg0, msg));
        }
        self.phase = PbftPhase::PrePrepared(msg.digest);
        let pmsg = PbftMessage::new(MsgKind::Prepare, self.view, self.seq, msg.digest, self.id);
        let ghost lg1 = self.log.entries@;
        let _own = self.log.insert(self.cfg.n, pmsg);
        proof {
            if lg1.contains(msg) {
                let k = choose|k: int| 0 <= k < lg1.len() && lg1[k] == msg;
                assert(self.log.entries@[k] == msg);
            }
            if slot_free(lg1, pmsg) {
                assert(self.log.entries@ == lg1.push(pmsg));
                assert(self.log.entries@[lg1.len() as int] == pmsg);
                assert(self.log.entries@.contains(pmsg));
            }
        }
        let mut actions: Vec<PbftAction> = Vec::new();
        actions.push(PbftAction::Broadcast(pmsg));
        Ok(actions)
    }

    /// Stores a peer's prepare vote.  The vote is deduplicated against the
    /// sender's slot; a second, different vote from the same sender for the
    /// slot is equivocation and is dropped as `InvalidMessage`.
    pub fn handle_prepare(&mut self, msg: PbftMessage) -> (r: Result<(), PbftError>)
        requires
            old(self).wf(),
        ensures
            final(self).wf(),
            Self::same_node(*old(self), *final(self)),
            Self::monotone(*old(self), *final(self)),
            final(self).view == old(self).view,
            final(self).seq == old(self).seq,
            final(self).phase == old(self).phase,
            final(self).mode == old(self).mode,
            final(self).stable_checkpoint == old(self).stable_checkpoint,
            final(self).committed@ == old(self).committed@,
            final(self).claims@ == old(self).claims@,
            old(self).log.entries@.is_prefix_of(final(self).log.entries@),
            r is Err ==> Self::unchanged(*old(self), *final(self)),
            !old(self).vote_structure_ok(msg, MsgKind::Prepare) ==> r is Err
                && r->Err_0 is InvalidMessage,
            old(self).vote_structure_ok(msg, MsgKind::Prepare) ==> {
                if slot_free(old(self).log.entries@, msg) {
                    r is Ok && final(self).log.entries@ == old(self).log.entries@.push(msg)
                } else if old(self).log.entries@.contains(msg) {
                    r is Ok && final(self).log.entries@ == old(self).log.entries@
                } else {
                    r is Err && r->Err_0 is InvalidMessage
                }
            },
    {
        if msg.kind != MsgKind::Prepare || msg.sender >= self.cfg.n || msg.view != self.view
            || msg.seq <= self.stable_checkpoint {
            return Err(PbftError::InvalidMessage("prepare failed structural checks".to_string()));
        }
        match self.log.insert(self.cfg.n, msg) {
            Ok(_) => Ok(()),
            Err(e) => Err(e),
        }
    }

    /// Stores a peer's commit vote, under the same slot discipline as a
    /// prepare vote.
    pub fn handle_commit(&mut self, msg: PbftMessage) -> (r: Result<(), PbftError>)
        requires
            old(self).wf(),
        ensures
            final(self).wf(),
            Self::same_node(*old(self), *final(self)),
            Self::monotone(*old(self), *final(self)),
            final(self).view == old(self).view,
            final(self).seq == old(self).seq,
            final(self).phase == old(self).phase,
            final(self).mode == old(self).mode,
            final(self).stable_checkpoint == old(self).stable_checkpoint,
            final(self).committed@ == old(self).committed@,
            final(self).claims@ == old(self).claims@,
            old(self).log.entries@.is_prefix_of(final(self).log.entries@),
            r is Err ==> Self::unchanged(*old(self), *final(self)),
            !old(self).vote_structure_ok(msg, MsgKind::Commit) ==> r is Err
                && r->Err_0 is InvalidMessage,
            old(self).vote_structure_ok(msg, MsgKind::Commit) ==> {
                if slot_free(old(self).log.entries@, msg) {
                    r is Ok && final(self).log.entries@ == old(self).log.entries@.push(msg)
                } else if old(self).log.entries@.contains(msg) {
                    r is Ok && final(self).log.entries@ == old(self).log.entries@
                } else {
                    r is Err && r->Err_0 is InvalidMessage
                }
            },
    {
        if msg.kind != MsgKind::Commit || msg.sender >= self.cfg.n || msg.view != self.view
            || msg.seq <= self.stable_checkpoint {
            return Err(PbftError::InvalidMessage("commit failed structural checks".to_string()));
        }
        match self.log.insert(self.cfg.n, msg) {
            Ok(_) => Ok(()),
            Err(e) => Err(e),
        }
    }

    /// Drives the three-phase engine as far as the stored quorums allow:
    /// `PrePrepared` becomes `Prepared` on a prepare quorum certificate for
    /// the accepted digest (the node then votes commit), and `Prepared`
    /// finalizes on a commit quorum certificate (the node records the
    /// decision, tells the caller to commit the block, advances its working
    /// sequence, and proposes a checkpoint when the interval is reached).
    /// Quorum evaluation is idempotent: with no new quorum this is a no-op.
    pub fn try_advance(&mut self) -> (r: Vec<PbftAction>)
        requires
            old(self).wf(),
            old(self).seq < u64::MAX,
        ensures
            final(self).wf(),
            Self::same_node(*old(self), *final(self)),
            Self::monotone(*old(self), *final(self)),
            final(self).view == old(self).view,
            final(self).mode == old(self).mode,
            final(self).stable_checkpoint == old(self).stable_checkpoint,
            final(self).claims@ == old(self).claims@,
            old(self).log.entries@.is_prefix_of(final(self).log.entries@),
            match old(self).phase {
                PbftPhase::Idle => Self::unchanged(*old(self), *final(self)) && r@.len() == 0,
                PbftPhase::PrePrepared(d) => {
                    if count_votes(
                        old(self).log.entries@,
                        MsgKind::Prepare,
                        old(self).view,
                        old(self).seq,
                        d,
                    ) < old(self).cfg.quorum() {
                        Self::unchanged(*old(self), *final(self)) && r@.len() == 0
                    } else {
                        &&& r@.len() >= 1
                        &&& r@[0] == PbftAction::Broadcast(old(self).own_commit(d))
                        &&& (slot_free(old(self).log.entries@, old(self).own_commit(d))
                            ==> final(self).log.entries@.contains(old(self).own_commit(d)))
                        &&& ((final(self).phase == PbftPhase::Prepared(d) && final(self).seq
                            == old(self).seq && final(self).committed@ == old(self).committed@
                            && r@.len() == 1 && count_votes(
                            final(self).log.entries@,
                            MsgKind::Commit,
                            old(self).view,
                            old(self).seq,
                            d,
                        ) < old(self).cfg.quorum()) || Self::committed_step(
                            *old(self),
                            *final(self),
                            d,
                            r@,
                        ))
                    }
                },
                PbftPhase::Prepared(d) => {
                    if count_votes(
                        old(self).log.entries@,
                        MsgKind::Commit,
                        old(self).view,
                        old(self).seq,
                        d,
                    ) < old(self).cfg.quorum() {
                        Self::unchanged(*old(self), *final(self)) && r@.len() == 0
                    } else {
                        Self::committed_step(*old(self), *final(self), d, r@)
                    }
                },
            },
    {
        let mut actions: Vec<PbftAction> = Vec::new();
        let v = self.view;
        let s = self.seq;
        if let PbftPhase::PrePrepared(d) = self.phase {
            if self.log.has_quorum(&self.cfg, MsgKind::Prepare, v, s, d) {
                let cmsg = PbftMessage::new(MsgKind::Commit, v, s, d, self.id);
                let ghost lg0 = self.log.entries@;
                let _own = self.log.insert(self.cfg.n, cmsg);
                proof {
                    if slot_free(lg0, cmsg) {
                        assert(self.log.entries@ == lg0.push(cmsg));
                        assert(self.log.entries@[lg0.len() as int] == cmsg);
                        assert(self.log.entries@.contains(cmsg));
                    }
                }
                self.phase = PbftPhase::Prepared(d);
                actions.push(PbftAction::Broadcast(cmsg));
            }
        }
        if let PbftPhase::Prepared(d) = self.phase {
            if self.log.has_quorum(&self.cfg, MsgKind::Commit, v, s, d) {
                self.committed.push(CommittedEntry { seq: s, digest: d });
                let ghost cbi = actions@.len() as int;
                actions.push(PbftAction::CommitBlock(s, d));
                self.seq = s + 1;
                self.phase = PbftPhase::Idle;
                if s % self.cfg.checkpoint_interval == 0 {
                    let ck = PbftMessage::new(MsgKind::Checkpoint, 0, s, d, self.id);
                    let ghost lgc = self.log.entries@;
                    let _ck = self.log.insert(self.cfg.n, ck);
                    proof {
                        assert(lgc.is_prefix_of(self.log.entries@)) by {
                            if !lgc.contains(ck) && slot_free(lgc, ck) {
                                assert(lgc =~= lgc.push(ck).take(lgc.len() as int));
                            } else {
                                assert(lgc =~= lgc.take(lgc.len() as int));
                            }
                        }
                    }
                    let ghost cki = actions@.len() as int;
                    actions.push(PbftAction::Broadcast(ck));
                    proof {
                        assert(actions@[cki] == PbftAction::Broadcast(
                            old(self).own_checkpoint(s, d),
                        ));
                    }
                }
                proof {
                    assert(actions@[cbi] == PbftAction::CommitBlock(s, d));
                }
            }
        }
        actions
    }

    /// The claims table once a view-change request is stored: the request is
    /// appended when its per-(view, sender) slot is free, and nothing
    /// changes when the identical request is already held.
    pub open spec fn claim_stored(pre: PbftNode, vcm: ViewChangeMsg) -> Seq<ViewChangeMsg> {
        if claim_slot_free(pre.claims@, vcm) {
            pre.claims@.push(vcm)
        } else {
            pre.claims@
        }
    }

    /// A view-change request this node considers: known sender, strictly
    /// higher view than the node's own.
    pub open spec fn view_change_ok(self, vcm: ViewChangeMsg) -> bool {
        &&& vcm.sender < self.cfg.n
        &&& vcm.view > self.view
    }

    /// Number of distinct senders asking for `vcm.view` once `vcm` is stored.
    pub open spec fn vc_count_after(pre: PbftNode, vcm: ViewChangeMsg) -> int {
        count_claims(pre.claims@, vcm.view) + if claim_slot_free(pre.claims@, vcm) {
            1int
        } else {
            0int
        }
    }

    /// The node is behind a view change towards `v`: it is either in normal
    /// operation or changing towards some strictly lower view.
    pub open spec fn behind_view(self, v: u64) -> bool {
        match self.mode {
            PbftMode::Normal => true,
            PbftMode::ViewChanging(w) => w < v,
        }
    }

    /// `c` vouches for the pre-prepare `pp`: the claimant reports having
    /// prepared exactly that sequence with that digest.
    pub open spec fn claim_justifies(c: ViewChangeMsg, pp: PbftMessage) -> bool {
        &&& c.has_prepared
        &&& c.prepared_seq == pp.seq
        &&& c.prepared_digest == pp.digest
    }

    /// A new-view announcement carries a quorum certificate — at least
    /// `2f + 1` view-change requests for exactly its view, from known,
    /// pairwise distinct senders — and every embedded pre-prepare is issued
    /// by the announcing primary for its view and is vouched for by some
    /// member of that quorum.
    pub open spec fn valid_new_view(cfg: PbftConfig, nv: NewViewMsg) -> bool {
        &&& nv.view_changes@.len() >= cfg.quorum()
        &&& forall|i: int|
            0 <= i < nv.view_changes@.len() ==> (#[trigger] nv.view_changes@[i]).view == nv.view
                && nv.view_changes@[i].sender < cfg.n
        &&& forall|i: int, j: int|
            0 <= i < j < nv.view_changes@.len() ==> nv.view_changes@[i].sender
                != nv.view_changes@[j].sender
        &&& forall|k: int|
            0 <= k < nv.pre_prepares@.len() ==> (#[trigger] nv.pre_prepares@[k]).kind
                is PrePrepare && nv.pre_prepares@[k].view == nv.view && nv.pre_prepares@[k].sender
                == nv.sender && justified_by(nv.view_changes@, nv.pre_prepares@[k])
    }

    /// Stops accepting proposals for the current view and broadcasts a
    /// view-change request for `new_view`, reporting the node's last stable
    /// checkpoint and its prepared-but-uncommitted sequence, if any.
    /// Escalation is strictly monotonic: the target is higher than the
    /// current view and than any target already underway.
    pub fn start_view_change(&mut self, new_view: u64) -> (r: Vec<PbftAction>)
        requires
            old(self).wf(),
            new_view > old(self).view,
            old(self).mode matches PbftMode::ViewChanging(w) ==> new_view > w,
        ensures
            final(self).wf(),
            Self::same_node(*old(self), *final(self)),
            Self::monotone(*old(self), *final(self)),
            final(self).view == old(self).view,
            final(self).seq == old(self).seq,
            final(self).phase == old(self).phase,
            final(self).stable_checkpoint == old(self).stable_checkpoint,
            final(self).committed@ == old(self).committed@,
            final(self).log.entries@ == old(self).log.entries@,
            final(self).claims@ == Self::claim_stored(*old(self), old(self).own_view_change(new_view)),
            final(self).mode == PbftMode::ViewChanging(new_view),
            r@.len() == 1,
            r@[0] == PbftAction::BroadcastViewChange(old(self).own_view_change(new_view)),
    {
        self.mode = PbftMode::ViewChanging(new_view);
        let has_prepared = matches!(self.phase, PbftPhase::Prepared(_));
        let prepared_digest = match self.phase {
            PbftPhase::Prepared(d) => d,
            _ => 0,
        };
        let vcm = ViewChangeMsg {
            view: new_view,
            checkpoint: self.stable_checkpoint,
            has_prepared,
            prepared_seq: if has_prepared {
                self.seq
            } else {
                0
            },
            prepared_digest,
            sender: self.id,
        };
        let _stored = self.store_claim(vcm);
        let mut actions: Vec<PbftAction> = Vec::new();
        actions.push(PbftAction::BroadcastViewChange(vcm));
        actions
    }

    /// Stores a view-change request in the claims table under its
    /// per-(view, sender) slot: appended when the slot is free, deduplicated
    /// when identical, rejected as equivocation when a different request
    /// from the same sender for the same view is already held.
    fn store_claim(&mut self, vcm: ViewChangeMsg) -> (r: Result<bool, PbftError>)
        requires
            old(self).wf(),
            vcm.sender < old(self).cfg.n,
        ensures
            final(self).wf(),
            final(self).claims@.len() >= old(self).claims@.len(),
            *final(self) == (PbftNode { claims: final(self).claims, ..*old(self) }),
            old(self).claims@.contains(vcm) ==> r == Ok::<bool, PbftError>(false) && final(self).claims@ == old(self).claims@,
            claim_slot_free(old(self).claims@, vcm) ==> r == Ok::<bool, PbftError>(true) && final(self).claims@ == old(self).claims@.push(vcm),
            !claim_slot_free(old(self).claims@, vcm) && !old(self).claims@.contains(vcm) ==> r
                is Err && r->Err_0 is InvalidMessage && final(self).claims@ == old(self).claims@,
            old(self).claims@.is_prefix_of(final(self).claims@),
    {
        let ghost orig = self.claims@;
        let mut i: usize = 0;
        while i < self.claims.len()
            invariant
                self.claims@ == orig,
                *self == (PbftNode { claims: self.claims, ..*old(self) }),
                old(self).wf(),
                i <= orig.len(),
                forall|j: int|
                    0 <= j < i ==> !(orig[j].view == vcm.view && orig[j].sender == vcm.sender),
            decreases orig.len() - i,
        {
            let c = self.claims[i];
            if c.view == vcm.view && c.sender == vcm.sender {
                if c == vcm {
                    assert(orig[i as int] == vcm);
                    return Ok(false);
                } else {
                    proof {
                        if orig.contains(vcm) {
                            let j = choose|j: int| 0 <= j < orig.len() && orig[j] == vcm;
                            assert(j != i);
                            assert(!(orig[j].view == orig[i as int].view && orig[j].sender
                                == orig[i as int].sender) || !(orig[i as int].view == orig[j].view
                                && orig[i as int].sender == orig[j].sender));
                            assert(false);
                        }
                    }
                    return Err(
                        PbftError::InvalidMessage(
                            "conflicting view-change request from one sender".to_string(),
                        ),
                    );
                }
            }
            i += 1;
        }
        proof {
            if orig.contains(vcm) {
                let j = choose|j: int| 0 <= j < orig.len() && orig[j] == vcm;
                assert(false);
            }
        }
        self.claims.push(vcm);
        Ok(true)
    }

    /// Handles a peer's view-change request.
    ///
    /// The request is stored under the sender's per-view claim slot; a
    /// second, different request from the same sender for the same view is
    /// equivocation.  With `f + 1` distinct peers asking for the same higher
    /// view the node joins the change (bandwagon: one faulty node cannot
    /// drag it, yet corroborated changes are not missed).  With a `2f + 1`
    /// quorum, the designated primary of the new view announces it and
    /// enters it, replaying a pre-prepare for every sequence a member of
    /// the quorum reports having prepared.
    pub fn handle_view_change(&mut self, vcm: ViewChangeMsg) -> (r: Result<Vec<PbftAction>, PbftError>)
        requires
            old(self).wf(),
        ensures
            final(self).wf(),
            Self::same_node(*old(self), *final(self)),
            Self::monotone(*old(self), *final(self)),
            final(self).seq == old(self).seq,
            final(self).stable_checkpoint == old(self).stable_checkpoint,
            final(self).committed@ == old(self).committed@,
            r is Err ==> Self::unchanged(*old(self), *final(self)),
            !old(self).view_change_ok(vcm) ==> r is Err && r->Err_0 is InvalidMessage,
            old(self).view_change_ok(vcm) && !claim_slot_free(old(self).claims@, vcm) && !old(
                self,
            ).claims@.contains(vcm) ==> r is Err && r->Err_0 is InvalidMessage,
            old(self).view_change_ok(vcm) && (claim_slot_free(old(self).claims@, vcm) || old(
                self,
            ).claims@.contains(vcm)) ==> {
                let cnt = Self::vc_count_after(*old(self), vcm);
                &&& r is Ok
                &&& final(self).claims@.contains(vcm)
                &&& (old(self).id == old(self).cfg.spec_primary(vcm.view) && cnt >= old(
                    self,
                ).cfg.quorum() ==> final(self).view == vcm.view && final(self).mode is Normal
                    && r->Ok_0@.len() >= 1 && (r->Ok_0@[0] matches
                    PbftAction::BroadcastNewView(nv) && nv.view == vcm.view && nv.sender == old(
                        self,
                    ).id && Self::valid_new_view(old(self).cfg, nv)))
                &&& (old(self).id != old(self).cfg.spec_primary(vcm.view) ==> final(self).view
                    == old(self).view && (cnt >= old(self).cfg.bandwagon() && old(
                    self,
                ).behind_view(vcm.view) ==> final(self).mode == PbftMode::ViewChanging(vcm.view)
                    && exists|k: int|
                    0 <= k < r->Ok_0@.len() && #[trigger] r->Ok_0@[k]
                        == PbftAction::BroadcastViewChange(old(self).own_view_change(vcm.view))))
                &&& (old(self).id != old(self).cfg.spec_primary(vcm.view) && !(cnt >= old(
                    self,
                ).cfg.bandwagon() && old(self).behind_view(vcm.view)) ==> final(self).mode == old(
                    self,
                ).mode && final(self).phase == old(self).phase && final(self).claims@
                    == Self::claim_stored(*old(self), vcm) && final(self).log.entries@ == old(
                    self,
                ).log.entries@ && r->Ok_0@.len() == 0)
            },
    {
        if vcm.sender >= self.cfg.n || vcm.view <= self.view {
            return Err(
                PbftError::InvalidMessage("view change failed structural checks".to_string()),
            );
        }
        let target = vcm.view;
        let ghost claims0 = self.claims@;
        match self.store_claim(vcm) {
            Ok(_) => {},
            Err(e) => {
                return Err(e);
            },
        }
        proof {
            assert(self.claims@.contains(vcm)) by {
                if claims0.contains(vcm) {
                    let j = choose|j: int| 0 <= j < claims0.len() && claims0[j] == vcm;
                    assert(self.claims@[j] == vcm);
                } else {
                    assert(self.claims@[claims0.len() as int] == vcm);
                }
            }
            if claim_slot_free(claims0, vcm) {
                lemma_count_claims_push(claims0, vcm, target);
            }
        }
        let cnt = self.count_claims_for(target);
        let mut actions: Vec<PbftAction> = Vec::new();
        if (cnt as u64) >= self.cfg.quorum_size() && self.id == self.cfg.primary_of_view(target) {
            // Primary-elect: announce the new view and enter it.
            let view_changes = self.collect_claims(target);
            let mut pre_prepares: Vec<PbftMessage> = Vec::new();
            let mut k: usize = 0;
            while k < view_changes.len()
                invariant
                    *self == (PbftNode { claims: self.claims, ..*old(self) }),
                    self.claims@.contains(vcm),
                    old(self).wf(),
                    self.wf(),
                    k <= view_changes@.len(),
                    target == vcm.view,
                    forall|a: int|
                        0 <= a < view_changes@.len() ==> (#[trigger] view_changes@[a]).view
                            == target && view_changes@[a].sender < self.cfg.n,
                    forall|a: int, b: int|
                        0 <= a < b < view_changes@.len() ==> view_changes@[a].sender
                            != view_changes@[b].sender,
                    view_changes@.len() >= self.cfg.quorum(),
                    forall|a: int|
                        0 <= a < pre_prepares@.len() ==> (#[trigger] pre_prepares@[a]).kind
                            is PrePrepare && pre_prepares@[a].view == target
                            && pre_prepares@[a].sender == self.id,
                    forall|a: int|
                        0 <= a < pre_prepares@.len() ==> #[trigger] justified_by(
                            view_changes@,
                            pre_prepares@[a],
                        ),
                decreases view_changes@.len() - k,
            {
                let c = view_changes[k];
                if c.has_prepared && c.prepared_seq > self.stable_checkpoint {
                    let pp = PbftMessage::new(
                        MsgKind::PrePrepare,
                        target,
                        c.prepared_seq,
                        c.prepared_digest,
                        self.id,
                    );
                    pre_prepares.push(pp);
                    assert forall|a: int| 0 <= a < pre_prepares@.len() implies #[trigger] justified_by(
                        view_changes@,
                        pre_prepares@[a],
                    ) by {
                        if a == pre_prepares@.len() - 1 {
                            assert(Self::claim_justifies(view_changes@[k as int], pre_prepares@[a]));
                        } else {
                            assert(pre_prepares@.drop_last()[a] == pre_prepares@[a]);
                            assert(justified_by(view_changes@, pre_prepares@.drop_last()[a]));
                        }
                    }
                }
                k += 1;
            }
            let mut replay: Vec<PbftMessage> = Vec::new();
            let mut k2: usize = 0;
            while k2 < pre_prepares.len()
                invariant
                    *self == (PbftNode { claims: self.claims, ..*old(self) }),
                    self.claims@.contains(vcm),
                    old(self).wf(),
                    self.wf(),
                    k2 <= pre_prepares@.len(),
                    replay@ == pre_prepares@.take(k2 as int),
                decreases pre_prepares@.len() - k2,
            {
                replay.push(pre_prepares[k2]);
                proof {
                    assert(pre_prepares@.take(k2 + 1).drop_last() =~= pre_prepares@.take(
                        k2 as int,
                    ));
                    assert(replay@ =~= pre_prepares@.take(k2 + 1));
                }
                k2 += 1;
            }
            let nv = NewViewMsg { view: target, sender: self.id, view_changes, pre_prepares };
            let ghost gnv = nv;
            proof {
                assert(gnv.pre_prepares@ =~= pre_prepares@);
                assert(Self::valid_new_view(self.cfg, gnv));
            }
            actions.push(PbftAction::BroadcastNewView(nv));
            self.view = target;
            self.mode = PbftMode::Normal;
            self.phase = PbftPhase::Idle;
            self.log.prune_below_view(self.cfg.n, target);
            let ghost mid = *self;
            let mut k3: usize = 0;
            while k3 < replay.len()
                invariant
                    self.wf(),
                    Self::same_node(mid, *self),
                    self.view == mid.view,
                    self.seq == mid.seq,
                    self.mode == mid.mode,
                    self.stable_checkpoint == mid.stable_checkpoint,
                    self.committed@ == mid.committed@,
                    self.claims@ == mid.claims@,
                    mid.claims@.contains(vcm),
                    mid.log.entries@.is_prefix_of(self.log.entries@),
                    actions@.len() >= 1,
                    actions@[0] == PbftAction::BroadcastNewView(gnv),
                decreases replay@.len() - k3,
            {
                match self.handle_pre_prepare(replay[k3]) {
                    Ok(a_) => {
                        let mut a = a_;
                        actions.append(&mut a);
                    },
                    Err(_) => {},
                }
                k3 += 1;
            }
            proof {
                assert((actions@[0] matches PbftAction::BroadcastNewView(x) && x.view == target
                    && x.sender == mid.id && Self::valid_new_view(mid.cfg, x)));
            }
            Ok(actions)
        } else if (cnt as u64) >= self.cfg.bandwagon_size() && self.id
            != self.cfg.primary_of_view(target) {
            let join = match self.mode {
                PbftMode::Normal => true,
                PbftMode::ViewChanging(w) => w < target,
            };
            if join {
                let ghost pre_join = *self;
                let mut a = self.start_view_change(target);
                proof {
                    assert(pre_join.own_view_change(target) == old(self).own_view_change(target));
                    assert(a@[0] == PbftAction::BroadcastViewChange(
                        old(self).own_view_change(target),
                    ));
                    assert(pre_join.claims@.is_prefix_of(self.claims@));
                    lemma_claims_prefix_contains(pre_join.claims@, self.claims@, vcm);
                }
                let ghost ai = actions@.len() as int;
                actions.append(&mut a);
                proof {
                    assert(actions@[ai] == PbftAction::BroadcastViewChange(
                        old(self).own_view_change(target),
                    ));
                }
            }
            Ok(actions)
        } else {
            Ok(actions)
        }
    }

    /// The stored form of a checkpoint claim: checkpoint messages carry no
    /// view and are normalized to zero before insertion.
    pub open spec fn normalized_checkpoint(msg: PbftMessage) -> PbftMessage {
        PbftMessage {
            kind: MsgKind::Checkpoint,
            view: 0,
            seq: msg.seq,
            digest: msg.digest,
            sender: msg.sender,
        }
    }

    /// The log once a checkpoint claim is stored: the normalized claim is
    /// appended when its slot is free, and nothing changes when the
    /// identical claim is already held.
    pub open spec fn checkpoint_stored(pre: PbftNode, msg: PbftMessage) -> Seq<PbftMessage> {
        if slot_free(pre.log.entries@, Self::normalized_checkpoint(msg)) {
            pre.log.entries@.push(Self::normalized_checkpoint(msg))
        } else {
            pre.log.entries@
        }
    }

    /// A checkpoint claim this node considers: right kind, known sender, a
    /// sequence above the current stable checkpoint and below the sequence
    /// ceiling.
    pub open spec fn checkpoint_ok(self, msg: PbftMessage) -> bool {
        &&& msg.kind is Checkpoint
        &&& msg.sender < self.cfg.n
        &&& msg.seq > self.stable_checkpoint
        &&& msg.seq < u64::MAX
    }

    /// The pre-prepare this node issues for `digest` when it is primary.
    pub open spec fn own_pre_prepare(self, digest: u64) -> PbftMessage {
        PbftMessage {
            kind: MsgKind::PrePrepare,
            view: self.view,
            seq: self.seq,
            digest,
            sender: self.id,
        }
    }

    /// Handles a new-view announcement.
    ///
    /// The view must be strictly higher than the node's own — the view
    /// number never regresses.  An announcement whose sender is not the
    /// designated primary of the announced view is dropped as
    /// `NotFromPrimary`: an invalid announcement only counts against the
    /// primary that actually issued it.  One from the right sender without
    /// a valid view-change quorum certificate is `FaultyPrimary`.  A valid
    /// announcement moves the node into the new view in normal mode and
    /// replays the embedded pre-prepares, each through
    /// [`PbftNode::handle_pre_prepare`], whose contract pins the effect of
    /// every replayed step; a replayed pre-prepare that fails its checks is
    /// dropped without failing the announcement.
    pub fn handle_new_view(&mut self, nv: NewViewMsg) -> (r: Result<Vec<PbftAction>, PbftError>)
        requires
            old(self).wf(),
        ensures
            final(self).wf(),
            Self::same_node(*old(self), *final(self)),
            Self::monotone(*old(self), *final(self)),
            final(self).seq == old(self).seq,
            final(self).stable_checkpoint == old(self).stable_checkpoint,
            final(self).committed@ == old(self).committed@,
            r is Err ==> Self::unchanged(*old(self), *final(self)),
            nv.sender >= old(self).cfg.n || nv.view <= old(self).view ==> r is Err
                && r->Err_0 is InvalidMessage,
            nv.sender < old(self).cfg.n && nv.view > old(self).view && nv.sender != old(
                self,
            ).cfg.spec_primary(nv.view) ==> r == Err::<Vec<PbftAction>, PbftError>(
                PbftError::NotFromPrimary,
            ),
            nv.sender < old(self).cfg.n && nv.view > old(self).view && nv.sender == old(
                self,
            ).cfg.spec_primary(nv.view) && !Self::valid_new_view(old(self).cfg, nv) ==> r is Err
                && r->Err_0 is FaultyPrimary,
            nv.sender < old(self).cfg.n && nv.view > old(self).view && nv.sender == old(
                self,
            ).cfg.spec_primary(nv.view) && Self::valid_new_view(old(self).cfg, nv) ==> r is Ok
                && final(self).view == nv.view && final(self).mode is Normal && final(self).claims@ == old(self).claims@ && (nv.pre_prepares@.len() == 0 ==> final(self).phase is Idle && r->Ok_0@.len() == 0),
    {
        if nv.sender >= self.cfg.n || nv.view <= self.view {
            return Err(
                PbftError::InvalidMessage("new view failed structural checks".to_string()),
            );
        }
        if nv.sender != self.cfg.primary_of_view(nv.view) {
            return Err(PbftError::NotFromPrimary);
        }
        if (nv.view_changes.len() as u64) < self.cfg.quorum_size() {
            return Err(
                PbftError::FaultyPrimary(
                    "new view lacks a view-change quorum certificate".to_string(),
                ),
            );
        }
        let mut i: usize = 0;
        while i < nv.view_changes.len()
            invariant
                *self == *old(self),
                old(self).wf(),
                i <= nv.view_changes@.len(),
                nv.sender < self.cfg.n,
                nv.view > self.view,
                nv.sender == self.cfg.spec_primary(nv.view),
                nv.view_changes@.len() >= self.cfg.quorum(),
                forall|a: int|
                    0 <= a < i ==> (#[trigger] nv.view_changes@[a]).view == nv.view
                        && nv.view_changes@[a].sender < self.cfg.n,
                forall|a: int, b: int|
                    0 <= a < b < i ==> nv.view_changes@[a].sender != nv.view_changes@[b].sender,
            decreases nv.view_changes@.len() - i,
        {
            let m = nv.view_changes[i];
            if m.view != nv.view || m.sender >= self.cfg.n {
                return Err(
                    PbftError::FaultyPrimary(
                        "new view carries a malformed view-change message".to_string(),
                    ),
                );
            }
            let mut j: usize = 0;
            while j < i
                invariant
                    *self == *old(self),
                    old(self).wf(),
                    j <= i < nv.view_changes@.len(),
                    nv.sender < self.cfg.n,
                    nv.view > self.view,
                    nv.sender == self.cfg.spec_primary(nv.view),
                    nv.view_changes@.len() >= self.cfg.quorum(),
                    forall|a: int|
                        0 <= a < i ==> (#[trigger] nv.view_changes@[a]).view == nv.view
                            && nv.view_changes@[a].sender < self.cfg.n,
                    forall|a: int, b: int|
                        0 <= a < b < i ==> nv.view_changes@[a].sender
                            != nv.view_changes@[b].sender,
                    forall|b: int| 0 <= b < j ==> nv.view_changes@[b].sender != m.sender,
                    m == nv.view_changes@[i as int],
                    m.view == nv.view && m.sender < self.cfg.n,
                decreases i - j,
            {
                if nv.view_changes[j].sender == m.sender {
                    proof {
                        assert(nv.view_changes@[j as int].sender == nv.view_changes@[
                            i as int
                        ].sender);
                        assert(!Self::valid_new_view(old(self).cfg, nv));
                    }
                    return Err(
                        PbftError::FaultyPrimary(
                            "new view counts one sender twice".to_string(),
                        ),
                    );
                }
                j += 1;
            }
            i += 1;
        }
        // Every embedded pre-prepare must be issued by the announcing
        // primary for its view and vouched for by a member of the attached
        // quorum: a new primary cannot smuggle in a proposal nobody
        // prepared.
        let mut p: usize = 0;
        while p < nv.pre_prepares.len()
            invariant
                *self == *old(self),
                old(self).wf(),
                p <= nv.pre_prepares@.len(),
                nv.sender < self.cfg.n,
                nv.view > self.view,
                nv.sender == self.cfg.spec_primary(nv.view),
                forall|a: int|
                    0 <= a < p ==> (#[trigger] nv.pre_prepares@[a]).kind is PrePrepare
                        && nv.pre_prepares@[a].view == nv.view && nv.pre_prepares@[a].sender
                        == nv.sender,
                forall|a: int|
                    0 <= a < p ==> #[trigger] justified_by(
                        nv.view_changes@,
                        nv.pre_prepares@[a],
                    ),
            decreases nv.pre_prepares@.len() - p,
        {
            let pp = nv.pre_prepares[p];
            if pp.kind != MsgKind::PrePrepare || pp.view != nv.view || pp.sender != nv.sender {
                return Err(
                    PbftError::FaultyPrimary(
                        "new view carries a malformed pre-prepare".to_string(),
                    ),
                );
            }
            let mut q: usize = 0;
            let mut vouched = false;
            while q < nv.view_changes.len()
                invariant
                    *self == *old(self),
                    old(self).wf(),
                    p < nv.pre_prepares@.len(),
                    q <= nv.view_changes@.len(),
                    pp == nv.pre_prepares@[p as int],
                    vouched ==> justified_by(nv.view_changes@, pp),
                    !vouched ==> forall|j: int|
                        0 <= j < q ==> !Self::claim_justifies(
                            #[trigger] nv.view_changes@[j],
                            pp,
                        ),
                decreases nv.view_changes@.len() - q,
            {
                let c = nv.view_changes[q];
                if c.has_prepared && c.prepared_seq == pp.seq && c.prepared_digest == pp.digest {
                    proof {
                        assert(Self::claim_justifies(nv.view_changes@[q as int], pp));
                    }
                    vouched = true;
                }
                q += 1;
            }
            if !vouched {
                proof {
                    assert(!Self::valid_new_view(old(self).cfg, nv));
                }
                return Err(
                    PbftError::FaultyPrimary(
                        "new view carries a pre-prepare nobody prepared".to_string(),
                    ),
                );
            }
            p += 1;
        }
        self.view = nv.view;
        self.mode = PbftMode::Normal;
        self.phase = PbftPhase::Idle;
        self.log.prune_below_view(self.cfg.n, nv.view);
        let mut actions: Vec<PbftAction> = Vec::new();
        let ghost mid = *self;
        let mut k: usize = 0;
        while k < nv.pre_prepares.len()
            invariant
                self.wf(),
                k <= nv.pre_prepares@.len(),
                Self::same_node(mid, *self),
                self.view == mid.view,
                self.seq == mid.seq,
                self.mode == mid.mode,
                self.phase == mid.phase || k > 0,
                self.stable_checkpoint == mid.stable_checkpoint,
                self.committed@ == mid.committed@,
                self.claims@ == mid.claims@,
                mid.log.entries@.is_prefix_of(self.log.entries@),
                actions@.len() == 0 || k > 0,
            decreases nv.pre_prepares@.len() - k,
        {
            match self.handle_pre_prepare(nv.pre_prepares[k]) {
                Ok(a_) => {
                    let mut a = a_;
                    actions.append(&mut a);
                },
                Err(_) => {},
            }
            k += 1;
        }
        Ok(actions)
    }

    /// Handles a peer's checkpoint claim.
    ///
    /// Claims are stored per sender and sequence; when one digest gathers a
    /// `2f + 1` quorum certificate at a sequence, that sequence becomes the
    /// new stable checkpoint and the log is pruned at and below it.  A
    /// quorum digest that contradicts this node's own committed digest for
    /// the same sequence is divergence in the node's own bookkeeping —
    /// `InternalError` — not peer misbehaviour.
    pub fn handle_checkpoint(&mut self, msg: PbftMessage) -> (r: Result<(), PbftError>)
        requires
            old(self).wf(),
        ensures
            final(self).wf(),
            Self::same_node(*old(self), *final(self)),
            Self::monotone(*old(self), *final(self)),
            final(self).view == old(self).view,
            final(self).mode == old(self).mode,
            final(self).committed@ == old(self).committed@,
            final(self).claims@ == old(self).claims@,
            !old(self).checkpoint_ok(msg) ==> r is Err && r->Err_0 is InvalidMessage,
            old(self).checkpoint_ok(msg) && !slot_free(
                old(self).log.entries@,
                Self::normalized_checkpoint(msg),
            ) && !old(self).log.entries@.contains(Self::normalized_checkpoint(msg)) ==> r is Err
                && r->Err_0 is InvalidMessage,
            old(self).checkpoint_ok(msg) && (slot_free(
                old(self).log.entries@,
                Self::normalized_checkpoint(msg),
            ) || old(self).log.entries@.contains(Self::normalized_checkpoint(msg))) ==> !(
            r is Err && r->Err_0 is InvalidMessage),
            r is Err && r->Err_0 is InvalidMessage ==> Self::unchanged(*old(self), *final(self)),
            r is Err && r->Err_0 is InternalError ==> final(self).seq == old(self).seq
                && final(self).phase == old(self).phase && final(self).stable_checkpoint == old(
                self,
            ).stable_checkpoint && final(self).log.entries@ == Self::checkpoint_stored(
                *old(self),
                msg,
            ) && (exists|d: u64|
                #[trigger] count_votes(
                    Self::checkpoint_stored(*old(self), msg),
                    MsgKind::Checkpoint,
                    0,
                    msg.seq,
                    d,
                ) >= old(self).cfg.quorum() && committed_digest(old(self).committed@, msg.seq)
                    is Some && committed_digest(old(self).committed@, msg.seq) != Some(d)),
            r is Err ==> r->Err_0 is InvalidMessage || r->Err_0 is InternalError,
            r is Ok ==> final(self).stable_checkpoint == msg.seq || (final(self).stable_checkpoint == old(self).stable_checkpoint && final(self).seq == old(self).seq
                && final(self).phase == old(self).phase && final(self).log.entries@
                == Self::checkpoint_stored(*old(self), msg) && (forall|d: u64|
                #[trigger] count_votes(
                    Self::checkpoint_stored(*old(self), msg),
                    MsgKind::Checkpoint,
                    0,
                    msg.seq,
                    d,
                ) < old(self).cfg.quorum())),
            r is Ok && final(self).stable_checkpoint == msg.seq ==> {
                &&& exists|d: u64|
                    #[trigger] count_votes(
                        Self::checkpoint_stored(*old(self), msg),
                        MsgKind::Checkpoint,
                        0,
                        msg.seq,
                        d,
                    ) >= old(self).cfg.quorum() && (committed_digest(old(self).committed@, msg.seq)
                        is Some ==> committed_digest(old(self).committed@, msg.seq) == Some(d))
                &&& old(self).seq > msg.seq ==> final(self).seq == old(self).seq && final(self).phase == old(self).phase
                &&& old(self).seq <= msg.seq ==> final(self).seq == msg.seq + 1 && final(self).phase is Idle
                &&& final(self).seq > msg.seq
                &&& forall|kind: MsgKind, view: u64, seq: u64, digest: u64|
                    !(kind is ViewChange) && seq <= msg.seq ==> #[trigger] count_votes(
                        final(self).log.entries@,
                        kind,
                        view,
                        seq,
                        digest,
                    ) == 0
            },
    {
        if msg.kind != MsgKind::Checkpoint || msg.sender >= self.cfg.n || msg.seq
            <= self.stable_checkpoint || msg.seq == u64::MAX {
            return Err(
                PbftError::InvalidMessage("checkpoint failed structural checks".to_string()),
            );
        }
        let nm = PbftMessage::new(MsgKind::Checkpoint, 0, msg.seq, msg.digest, msg.sender);
        match self.log.insert(self.cfg.n, nm) {
            Ok(_) => {},
            Err(e) => {
                return Err(e);
            },
        }
        proof {
            let nn = Self::normalized_checkpoint(msg);
            if slot_free(old(self).log.entries@, nn) {
                assert(self.log.entries@ == old(self).log.entries@.push(nn));
            } else {
                if !old(self).log.entries@.contains(nn) {
                    assert(exists|i: int|
                        0 <= i < old(self).log.entries@.len() && same_slot(
                            #[trigger] old(self).log.entries@[i],
                            nn,
                        ));
                    assert(false);
                }
                assert(self.log.entries@ == old(self).log.entries@);
            }
            assert(self.log.entries@ == Self::checkpoint_stored(*old(self), msg));
        }
        match self.log.quorum_digest(&self.cfg, MsgKind::Checkpoint, 0, msg.seq) {
            Some(d) => {
                match self.committed_digest_at(msg.seq) {
                    Some(mine) => {
                        if mine != d {
                            return Err(
                                PbftError::InternalError(
                                    "checkpoint quorum contradicts own committed digest"
                                        .to_string(),
                                ),
                            );
                        }
                    },
                    None => {},
                }
                self.stable_checkpoint = msg.seq;
                self.log.prune(self.cfg.n, msg.seq);
                if self.seq <= msg.seq {
                    self.seq = msg.seq + 1;
                    self.phase = PbftPhase::Idle;
                }
                Ok(())
            },
            None => Ok(()),
        }
    }

    /// Acts on the expiry of the phase timer armed for `(view, seq)`.
    ///
    /// A timer that is stale relative to the node's current view and
    /// sequence — or that fires mid view change — is ignored.  A current
    /// one means the primary failed to carry the working sequence to
    /// commitment in time: the designed faulty-primary signal, answered by
    /// starting a view change.
    pub fn on_phase_timeout(&mut self, view: u64, seq: u64) -> (r: Vec<PbftAction>)
        requires
            old(self).wf(),
            old(self).view < u64::MAX,
        ensures
            final(self).wf(),
            Self::same_node(*old(self), *final(self)),
            Self::monotone(*old(self), *final(self)),
            final(self).view == old(self).view,
            !(old(self).mode is Normal && view == old(self).view && seq == old(self).seq)
                ==> Self::unchanged(*old(self), *final(self)) && r@.len() == 0,
            old(self).mode is Normal && view == old(self).view && seq == old(self).seq ==> {
                &&& final(self).mode == PbftMode::ViewChanging((old(self).view + 1) as u64)
                &&& final(self).seq == old(self).seq
                &&& final(self).phase == old(self).phase
                &&& final(self).stable_checkpoint == old(self).stable_checkpoint
                &&& final(self).committed@ == old(self).committed@
                &&& final(self).log.entries@ == old(self).log.entries@
                &&& final(self).claims@ == Self::claim_stored(
                    *old(self),
                    old(self).own_view_change((old(self).view + 1) as u64),
                )
                &&& r@.len() == 1
                &&& r@[0] == PbftAction::BroadcastViewChange(
                    old(self).own_view_change((old(self).view + 1) as u64),
                )
            },
    {
        if self.mode == PbftMode::Normal && view == self.view && seq == self.seq {
            let target = self.view + 1;
            self.start_view_change(target)
        } else {
            Vec::new()
        }
    }

    /// Acts on the expiry of the view-change timer armed for `target`.
    ///
    /// If the node is still waiting for that view to be announced, it
    /// escalates to the next one — the target only ever climbs.  A stale
    /// timer is ignored.
    pub fn on_view_change_timeout(&mut self, target: u64) -> (r: Vec<PbftAction>)
        requires
            old(self).wf(),
            target < u64::MAX,
        ensures
            final(self).wf(),
            Self::same_node(*old(self), *final(self)),
            Self::monotone(*old(self), *final(self)),
            final(self).view == old(self).view,
            old(self).mode != PbftMode::ViewChanging(target) ==> Self::unchanged(
                *old(self),
                *final(self),
            ) && r@.len() == 0,
            old(self).mode == PbftMode::ViewChanging(target) ==> {
                &&& final(self).mode == PbftMode::ViewChanging((target + 1) as u64)
                &&& final(self).seq == old(self).seq
                &&& final(self).phase == old(self).phase
                &&& final(self).stable_checkpoint == old(self).stable_checkpoint
                &&& final(self).committed@ == old(self).committed@
                &&& final(self).log.entries@ == old(self).log.entries@
                &&& final(self).claims@ == Self::claim_stored(
                    *old(self),
                    old(self).own_view_change((target + 1) as u64),
                )
                &&& r@.len() == 1
                &&& r@[0] == PbftAction::BroadcastViewChange(
                    old(self).own_view_change((target + 1) as u64),
                )
            },
    {
        if self.mode == PbftMode::ViewChanging(target) {
            self.start_view_change(target + 1)
        } else {
            Vec::new()
        }
    }

    /// Proposes the candidate block digest handed in by the ledger.
    ///
    /// Only the designated primary of the current view, in normal mode and
    /// with an idle working sequence, proposes: it broadcasts the
    /// pre-prepare together with its own prepare vote.  Anyone else ignores
    /// the candidate.
    pub fn on_block_ready(&mut self, digest: u64) -> (r: Vec<PbftAction>)
        requires
            old(self).wf(),
        ensures
            final(self).wf(),
            Self::same_node(*old(self), *final(self)),
            Self::monotone(*old(self), *final(self)),
            final(self).view == old(self).view,
            final(self).seq == old(self).seq,
            final(self).mode == old(self).mode,
            final(self).stable_checkpoint == old(self).stable_checkpoint,
            final(self).committed@ == old(self).committed@,
            final(self).claims@ == old(self).claims@,
            old(self).log.entries@.is_prefix_of(final(self).log.entries@),
            !(old(self).mode is Normal && old(self).phase is Idle && old(self).id == old(
                self,
            ).cfg.spec_primary(old(self).view)) ==> Self::unchanged(*old(self), *final(self))
                && r@.len() == 0,
            old(self).mode is Normal && old(self).phase is Idle && old(self).id == old(
                self,
            ).cfg.spec_primary(old(self).view) ==> {
                &&& final(self).phase == PbftPhase::PrePrepared(digest)
                &&& (slot_free(old(self).log.entries@, old(self).own_pre_prepare(digest))
                    ==> final(self).log.entries@.contains(old(self).own_pre_prepare(digest)))
                &&& (slot_free(
                    inserted(old(self).log.entries@, old(self).own_pre_prepare(digest)),
                    old(self).own_prepare(digest),
                ) ==> final(self).log.entries@.contains(old(self).own_prepare(digest)))
                &&& r@.len() == 2
                &&& r@[0] == PbftAction::Broadcast(old(self).own_pre_prepare(digest))
                &&& r@[1] == PbftAction::Broadcast(old(self).own_prepare(digest))
            },
    {
        let mut actions: Vec<PbftAction> = Vec::new();
        if self.mode == PbftMode::Normal && self.phase == PbftPhase::Idle && self.id
            == self.cfg.primary_of_view(self.view) {
            let pp = PbftMessage::new(MsgKind::PrePrepare, self.view, self.seq, digest, self.id);
            let ghost lg0 = self.log.entries@;
            let _a = self.log.insert(self.cfg.n, pp);
            proof {
                if slot_free(lg0, pp) {
                    assert(self.log.entries@ == lg0.push(pp));
                    assert(self.log.entries@[lg0.len() as int] == pp);
                    assert(self.log.entries@.contains(pp));
                }
                if !slot_free(lg0, pp) && !lg0.contains(pp) {
                    assert(exists|i: int|
                        0 <= i < lg0.len() && same_slot(#[trigger] lg0[i], pp));
                }
                assert(self.log.entries@ == inserted(lg0, pp) || (!slot_free(lg0, pp)
                    && !lg0.contains(pp) && self.log.entries@ == lg0));
            }
            let pm = PbftMessage::new(MsgKind::Prepare, self.view, self.seq, digest, self.id);
            let ghost lg1 = self.log.entries@;
            let _b = self.log.insert(self.cfg.n, pm);
            proof {
                if slot_free(lg1, pm) {
                    assert(self.log.entries@ == lg1.push(pm));
                    assert(self.log.entries@[lg1.len() as int] == pm);
                    assert(self.log.entries@.contains(pm));
                }
                if lg1.contains(pp) {
                    lemma_prefix_contains(lg1, self.log.entries@, pp);
                }
            }
            self.phase = PbftPhase::PrePrepared(digest);
            actions.push(PbftAction::Broadcast(pp));
            actions.push(PbftAction::Broadcast(pm));
        }
        actions
    }

    /// Routes one verified peer message to its handler, matching
    /// exhaustively over the closed set of kinds, and then drives the phase
    /// engine.  A detected faulty primary is routed into a view change
    /// rather than surfaced: that error is the view-change manager's
    /// trigger, not an abort.  `NotFromPrimary` is surfaced unchanged and
    /// leaves the node untouched — a misrouted message never triggers a
    /// view change.
    pub fn on_peer_message(&mut self, pm: PeerMessage) -> (r: Result<Vec<PbftAction>, PbftError>)
        requires
            old(self).wf(),
            old(self).view < u64::MAX,
            old(self).seq < u64::MAX,
        ensures
            final(self).wf(),
            Self::same_node(*old(self), *final(self)),
            Self::monotone(*old(self), *final(self)),
            r is Err ==> final(self).view == old(self).view && final(self).mode == old(self).mode
                && final(self).phase == old(self).phase && final(self).seq == old(self).seq
                && final(self).stable_checkpoint == old(self).stable_checkpoint && final(self).committed@ == old(self).committed@,
            r == Err::<Vec<PbftAction>, PbftError>(PbftError::NotFromPrimary) ==> Self::unchanged(
                *old(self),
                *final(self),
            ),
            pm matches PeerMessage::Consensus(m) ==> (m.kind is PrePrepare && old(
                self,
            ).pre_prepare_structure_ok(m) && m.sender != old(self).cfg.spec_primary(
                old(self).view,
            ) ==> r == Err::<Vec<PbftAction>, PbftError>(PbftError::NotFromPrimary)),
            pm matches PeerMessage::Consensus(m) ==> (m.kind is PrePrepare && old(
                self,
            ).pre_prepare_acceptable(m) && !Self::pre_prepare_conflict(*old(self), m) ==> r
                is Ok),
            pm matches PeerMessage::Consensus(m) ==> (m.kind is PrePrepare && old(
                self,
            ).pre_prepare_acceptable(m) && old(self).phase is Idle && !Self::pre_prepare_conflict(
                *old(self),
                m,
            ) ==> r->Ok_0@.len() >= 1 && r->Ok_0@[0] == PbftAction::Broadcast(
                old(self).own_prepare(m.digest),
            ) && final(self).log.entries@.contains(m)),
            pm matches PeerMessage::Consensus(m) ==> (m.kind is PrePrepare && old(
                self,
            ).pre_prepare_acceptable(m) && Self::pre_prepare_conflict(*old(self), m) ==> r is Ok
                && final(self).mode == PbftMode::ViewChanging((old(self).view + 1) as u64)
                && r->Ok_0@.len() == 1 && r->Ok_0@[0] == PbftAction::BroadcastViewChange(
                old(self).own_view_change((old(self).view + 1) as u64),
            )),
            pm matches PeerMessage::Consensus(m) ==> (m.kind is Prepare && old(
                self,
            ).vote_structure_ok(m, MsgKind::Prepare) && (slot_free(old(self).log.entries@, m)
                || old(self).log.entries@.contains(m)) ==> r is Ok
                && final(self).log.entries@.contains(m)),
            pm matches PeerMessage::Consensus(m) ==> (m.kind is Prepare && old(
                self,
            ).vote_structure_ok(m, MsgKind::Prepare) && (slot_free(old(self).log.entries@, m)
                || old(self).log.entries@.contains(m)) && old(self).phase is PrePrepared
                && count_votes(
                Self::vote_stored(*old(self), m),
                MsgKind::Prepare,
                old(self).view,
                old(self).seq,
                old(self).accepted_digest(),
            ) >= old(self).cfg.quorum() ==> r->Ok_0@.len() >= 1 && r->Ok_0@[0]
                == PbftAction::Broadcast(old(self).own_commit(old(self).accepted_digest()))),
            pm matches PeerMessage::Consensus(m) ==> (m.kind is Commit && old(
                self,
            ).vote_structure_ok(m, MsgKind::Commit) && (slot_free(old(self).log.entries@, m)
                || old(self).log.entries@.contains(m)) ==> r is Ok
                && final(self).log.entries@.contains(m)),
            pm matches PeerMessage::Consensus(m) ==> (m.kind is Commit && old(
                self,
            ).vote_structure_ok(m, MsgKind::Commit) && (slot_free(old(self).log.entries@, m)
                || old(self).log.entries@.contains(m)) && old(self).phase is Prepared
                && count_votes(
                Self::vote_stored(*old(self), m),
                MsgKind::Commit,
                old(self).view,
                old(self).seq,
                old(self).accepted_digest(),
            ) >= old(self).cfg.quorum() ==> final(self).committed@ == old(self).committed@.push(
                CommittedEntry { seq: old(self).seq, digest: old(self).accepted_digest() },
            ) && final(self).seq == old(self).seq + 1),
            pm matches PeerMessage::Consensus(m) ==> (m.kind is ViewChange ==> r is Err
                && r->Err_0 is InvalidMessage),
            pm matches PeerMessage::Consensus(m) ==> (m.kind is Checkpoint && old(
                self,
            ).checkpoint_ok(m) && (slot_free(
                old(self).log.entries@,
                Self::normalized_checkpoint(m),
            ) || old(self).log.entries@.contains(Self::normalized_checkpoint(m))) ==> !(
            r is Err && r->Err_0 is InvalidMessage) && (r is Ok ==> final(self).stable_checkpoint
                == m.seq || forall|d: u64|
                #[trigger] count_votes(
                    Self::checkpoint_stored(*old(self), m),
                    MsgKind::Checkpoint,
                    0,
                    m.seq,
                    d,
                ) < old(self).cfg.quorum())),
            pm matches PeerMessage::ViewChange(v) ==> (old(self).view_change_ok(v) && (
            claim_slot_free(old(self).claims@, v) || old(self).claims@.contains(v)) ==> r is Ok
                && final(self).claims@.contains(v)),
            pm matches PeerMessage::NewView(nv) ==> (nv.sender < old(self).cfg.n && nv.view > old(
                self,
            ).view && nv.sender == old(self).cfg.spec_primary(nv.view) && Self::valid_new_view(
                old(self).cfg,
                nv,
            ) ==> r is Ok && final(self).view == nv.view && final(self).mode is Normal),
    {
        match pm {
            PeerMessage::Consensus(m) => {
                match m.kind {
                    MsgKind::PrePrepare => {
                        match self.handle_pre_prepare(m) {
                            Ok(a_) => {
                                let ghost mid = *self;
                                let mut a = a_;
                                let mut t = self.try_advance();
                                a.append(&mut t);
                                proof {
                                    if mid.log.entries@.contains(m) {
                                        crate::log::lemma_prefix_contains(
                                            mid.log.entries@,
                                            self.log.entries@,
                                            m,
                                        );
                                    }
                                }
                                Ok(a)
                            },
                            Err(e) => {
                                if let PbftError::FaultyPrimary(_) = e {
                                    let target = self.view + 1;
                                    Ok(self.start_view_change(target))
                                } else {
                                    Err(e)
                                }
                            },
                        }
                    },
                    MsgKind::Prepare => {
                        match self.handle_prepare(m) {
                            Ok(_) => {
                                let ghost mid = *self;
                                let t = self.try_advance();
                                proof {
                                    if mid.log.entries@.contains(m) {
                                        crate::log::lemma_prefix_contains(
                                            mid.log.entries@,
                                            self.log.entries@,
                                            m,
                                        );
                                    }
                                }
                                Ok(t)
                            },
                            Err(e) => Err(e),
                        }
                    },
                    MsgKind::Commit => {
                        match self.handle_commit(m) {
                            Ok(_) => {
                                let ghost mid = *self;
                                let t = self.try_advance();
                                proof {
                                    if mid.log.entries@.contains(m) {
                                        crate::log::lemma_prefix_contains(
                                            mid.log.entries@,
                                            self.log.entries@,
                                            m,
                                        );
                                    }
                                }
                                Ok(t)
                            },
                            Err(e) => Err(e),
                        }
                    },
                    MsgKind::ViewChange => {
                        // View changes travel as `ViewChangeMsg`, which also
                        // carries the sender's prepared claim; a flat one is
                        // malformed.
                        Err(
                            PbftError::InvalidMessage(
                                "view changes travel with their prepared claim".to_string(),
                            ),
                        )
                    },
                    MsgKind::Checkpoint => {
                        match self.handle_checkpoint(m) {
                            Ok(_) => Ok(Vec::new()),
                            Err(e) => Err(e),
                        }
                    },
                }
            },
            PeerMessage::ViewChange(v) => self.handle_view_change(v),
            PeerMessage::NewView(nvm) => {
                match self.handle_new_view(nvm) {
                    Ok(a) => Ok(a),
                    Err(e) => {
                        if let PbftError::FaultyPrimary(_) = e {
                            match self.mode {
                                PbftMode::Normal => {
                                    let target = self.view + 1;
                                    Ok(self.start_view_change(target))
                                },
                                PbftMode::ViewChanging(_) => Ok(Vec::new()),
                            }
                        } else {
                            Err(e)
                        }
                    },
                }
            },
        }
    }
}

} // verus!
