//! The message log and its quorum certificates.
//!
//! The log is an append-only, deduplicated store of verified consensus
//! messages, keyed by slot: a sender may occupy one slot per
//! `(kind, view, sequence)` — one per `(kind, view)` for the flat
//! view-change kind, whose sequence field is a checkpoint claim rather than
//! a slot coordinate.  (View-change requests themselves travel as
//! `ViewChangeMsg` and are tabled on the node; the flat kind keeps the kind
//! set closed.)  A second, different message from the same sender for an
//! occupied slot is evidence of equivocation and is rejected, never merged.
//! Quorum evaluation counts votes in a slot for one digest; because of the
//! slot discipline every counted vote comes from a distinct sender, and two
//! different digests can never both reach a quorum in the same slot.

use vstd::prelude::*;

use crate::config::PbftConfig;
use crate::error::PbftError;
use crate::message::MsgKind;
use crate::message::PbftMessage;

verus! {

broadcast use vstd::set::group_set_axioms;

/// Two messages claim the same log slot: same kind, view and sender, and —
/// except for view changes, of which a sender may issue one per view — the
/// same sequence.
pub open spec fn same_slot(a: PbftMessage, b: PbftMessage) -> bool {
    &&& a.kind == b.kind
    &&& a.view == b.view
    &&& a.sender == b.sender
    &&& (a.kind is ViewChange || a.seq == b.seq)
}

/// `m` sits in the slot family `(kind, view, seq)`; for view changes the
/// sequence is not part of the slot.
pub open spec fn slot_matches(m: PbftMessage, kind: MsgKind, view: u64, seq: u64) -> bool {
    &&& m.kind == kind
    &&& m.view == view
    &&& (kind is ViewChange || m.seq == seq)
}

/// `m` is a vote for `digest` in the slot family `(kind, view, seq)`.
pub open spec fn vote_matches(
    m: PbftMessage,
    kind: MsgKind,
    view: u64,
    seq: u64,
    digest: u64,
) -> bool {
    slot_matches(m, kind, view, seq) && m.digest == digest
}

/// Number of votes in `s` for `digest` in the slot family `(kind, view, seq)`.
pub open spec fn count_votes(
    s: Seq<PbftMessage>,
    kind: MsgKind,
    view: u64,
    seq: u64,
    digest: u64,
) -> nat
    decreases s.len(),
{
    if s.len() == 0 {
        0
    } else {
        count_votes(s.drop_last(), kind, view, seq, digest) + if vote_matches(
            s.last(),
            kind,
            view,
            seq,
            digest,
        ) {
            1nat
        } else {
            0nat
        }
    }
}

/// The senders of the votes in `s` for `digest` in `(kind, view, seq)`.
pub open spec fn vote_senders(
    s: Seq<PbftMessage>,
    kind: MsgKind,
    view: u64,
    seq: u64,
    digest: u64,
) -> Set<int>
    decreases s.len(),
{
    if s.len() == 0 {
        Set::empty()
    } else {
        let rest = vote_senders(s.drop_last(), kind, view, seq, digest);
        if vote_matches(s.last(), kind, view, seq, digest) {
            rest.insert(s.last().sender as int)
        } else {
            rest
        }
    }
}

/// No entry of `s` occupies the slot that `msg` claims.
pub open spec fn slot_free(s: Seq<PbftMessage>, msg: PbftMessage) -> bool {
    forall|i: int| 0 <= i < s.len() ==> !same_slot(s[i], msg)
}

/// The log once `m` is inserted: appended when its slot is free, unchanged
/// otherwise.
pub open spec fn inserted(s: Seq<PbftMessage>, m: PbftMessage) -> Seq<PbftMessage> {
    if slot_free(s, m) {
        s.push(m)
    } else {
        s
    }
}

/// `x` occurs among the first `i` entries of `s`.
pub open spec fn occurs_before(s: Seq<PbftMessage>, i: int, x: PbftMessage) -> bool {
    exists|j: int| 0 <= j < i && x == #[trigger] s[j]
}

/// Entries pairwise occupy distinct slots and every sender is a member
/// identity below `n`.
pub open spec fn entries_wf(s: Seq<PbftMessage>, n: int) -> bool {
    &&& forall|i: int, j: int| 0 <= i < j < s.len() ==> !same_slot(s[i], s[j])
    &&& forall|i: int| 0 <= i < s.len() ==> s[i].sender < n
}

/// One loop step of vote counting: taking one more entry adds one vote
/// exactly when that entry matches.
pub proof fn lemma_count_votes_take_step(
    s: Seq<PbftMessage>,
    i: int,
    kind: MsgKind,
    view: u64,
    seq: u64,
    digest: u64,
)
    requires
        0 <= i < s.len(),
    ensures
        count_votes(s.take(i + 1), kind, view, seq, digest) == count_votes(
            s.take(i),
            kind,
            view,
            seq,
            digest,
        ) + if vote_matches(s[i], kind, view, seq, digest) {
            1nat
        } else {
            0nat
        },
{
    assert(s.take(i + 1).drop_last() =~= s.take(i));
    assert(s.take(i + 1).last() == s[i]);
}

/// Containment survives extension of the log.
pub proof fn lemma_prefix_contains(s1: Seq<PbftMessage>, s2: Seq<PbftMessage>, m: PbftMessage)
    requires
        s1.is_prefix_of(s2),
        s1.contains(m),
    ensures
        s2.contains(m),
{
    let i = choose|i: int| 0 <= i < s1.len() && s1[i] == m;
    assert(s2[i] == s1[i]);
}

/// A positive vote count exhibits a matching entry.
pub proof fn lemma_count_votes_pos(
    s: Seq<PbftMessage>,
    kind: MsgKind,
    view: u64,
    seq: u64,
    digest: u64,
)
    requires
        count_votes(s, kind, view, seq, digest) > 0,
    ensures
        exists|i: int| 0 <= i < s.len() && vote_matches(s[i], kind, view, seq, digest),
    decreases s.len(),
{
    if vote_matches(s.last(), kind, view, seq, digest) {
        assert(vote_matches(s[s.len() - 1], kind, view, seq, digest));
    } else {
        lemma_count_votes_pos(s.drop_last(), kind, view, seq, digest);
        let i = choose|i: int|
            0 <= i < s.drop_last().len() && vote_matches(
                s.drop_last()[i],
                kind,
                view,
                seq,
                digest,
            );
        assert(s.drop_last()[i] == s[i]);
    }
}

/// Under the slot discipline the counted votes come from pairwise distinct
/// senders: the sender set has exactly `count_votes` elements, and its
/// members are exactly the senders of matching entries.
pub proof fn lemma_vote_senders_props(
    s: Seq<PbftMessage>,
    kind: MsgKind,
    view: u64,
    seq: u64,
    digest: u64,
)
    requires
        forall|i: int, j: int| 0 <= i < j < s.len() ==> !same_slot(s[i], s[j]),
    ensures
        vote_senders(s, kind, view, seq, digest).finite(),
        vote_senders(s, kind, view, seq, digest).len() == count_votes(s, kind, view, seq, digest),
        forall|x: int| #[trigger]
            vote_senders(s, kind, view, seq, digest).contains(x) <==> exists|i: int|
                0 <= i < s.len() && vote_matches(s[i], kind, view, seq, digest) && s[i].sender == x,
    decreases s.len(),
{
    if s.len() == 0 {
        assert(vote_senders(s, kind, view, seq, digest) =~= Set::<int>::empty());
    } else {
        let rest = s.drop_last();
        assert forall|i: int, j: int| 0 <= i < j < rest.len() implies !same_slot(
            rest[i],
            rest[j],
        ) by {
            assert(rest[i] == s[i]);
            assert(rest[j] == s[j]);
        }
        lemma_vote_senders_props(rest, kind, view, seq, digest);
        let last = s.last();
        let restset = vote_senders(rest, kind, view, seq, digest);
        if vote_matches(last, kind, view, seq, digest) {
            assert(!restset.contains(last.sender as int)) by {
                if restset.contains(last.sender as int) {
                    let i = choose|i: int|
                        0 <= i < rest.len() && vote_matches(rest[i], kind, view, seq, digest)
                            && rest[i].sender == last.sender as int;
                    assert(rest[i] == s[i]);
                    assert(same_slot(s[i], s[s.len() - 1]));
                    assert(false);
                }
            }
            assert forall|x: int| #[trigger]
                vote_senders(s, kind, view, seq, digest).contains(x) implies exists|i: int|
                0 <= i < s.len() && vote_matches(s[i], kind, view, seq, digest) && s[i].sender
                    == x by {
                if x == last.sender as int {
                    assert(vote_matches(s[s.len() - 1], kind, view, seq, digest) && s[s.len()
                        - 1].sender == x);
                } else {
                    let i = choose|i: int|
                        0 <= i < rest.len() && vote_matches(rest[i], kind, view, seq, digest)
                            && rest[i].sender == x;
                    assert(rest[i] == s[i]);
                    assert(vote_matches(s[i], kind, view, seq, digest) && s[i].sender == x);
                }
            }
            assert forall|x: int|
                (exists|i: int|
                    0 <= i < s.len() && vote_matches(s[i], kind, view, seq, digest) && s[i].sender
                        == x) implies #[trigger] vote_senders(
                s,
                kind,
                view,
                seq,
                digest,
            ).contains(x) by {
                let i = choose|i: int|
                    0 <= i < s.len() && vote_matches(s[i], kind, view, seq, digest) && s[i].sender
                        == x;
                if i == s.len() - 1 {
                    assert(x == last.sender as int);
                } else {
                    assert(rest[i] == s[i]);
                    assert(restset.contains(x));
                }
            }
        } else {
            assert forall|x: int| #[trigger]
                vote_senders(s, kind, view, seq, digest).contains(x) implies exists|i: int|
                0 <= i < s.len() && vote_matches(s[i], kind, view, seq, digest) && s[i].sender
                    == x by {
                let i = choose|i: int|
                    0 <= i < rest.len() && vote_matches(rest[i], kind, view, seq, digest)
                        && rest[i].sender == x;
                assert(rest[i] == s[i]);
                assert(vote_matches(s[i], kind, view, seq, digest) && s[i].sender == x);
            }
            assert forall|x: int|
                (exists|i: int|
                    0 <= i < s.len() && vote_matches(s[i], kind, view, seq, digest) && s[i].sender
                        == x) implies #[trigger] vote_senders(
                s,
                kind,
                view,
                seq,
                digest,
            ).contains(x) by {
                let i = choose|i: int|
                    0 <= i < s.len() && vote_matches(s[i], kind, view, seq, digest) && s[i].sender
                        == x;
                assert(i != s.len() - 1);
                assert(rest[i] == s[i]);
                assert(restset.contains(x));
            }
        }
    }
}

/// Votes for two different digests in one slot come from disjoint sender
/// sets: no sender can occupy the slot twice.
pub proof fn lemma_vote_senders_disjoint(
    s: Seq<PbftMessage>,
    kind: MsgKind,
    view: u64,
    seq: u64,
    d1: u64,
    d2: u64,
)
    requires
        forall|i: int, j: int| 0 <= i < j < s.len() ==> !same_slot(s[i], s[j]),
        d1 != d2,
    ensures
        vote_senders(s, kind, view, seq, d1).disjoint(vote_senders(s, kind, view, seq, d2)),
{
    lemma_vote_senders_props(s, kind, view, seq, d1);
    lemma_vote_senders_props(s, kind, view, seq, d2);
    assert forall|x: int| #[trigger] vote_senders(s, kind, view, seq, d1).contains(x) implies
        !vote_senders(s, kind, view, seq, d2).contains(x) by {
        if vote_senders(s, kind, view, seq, d2).contains(x) {
            let i = choose|i: int|
                0 <= i < s.len() && vote_matches(s[i], kind, view, seq, d1) && s[i].sender == x;
            let j = choose|j: int|
                0 <= j < s.len() && vote_matches(s[j], kind, view, seq, d2) && s[j].sender == x;
            assert(i != j);
            assert(same_slot(s[i], s[j]));
            assert(same_slot(s[j], s[i]));
            assert(false);
        }
    }
}

/// Quorum exclusivity: in a well-formed log over a network that tolerates
/// its fault bound (`n <= 3f + 1`), two digests that both hold `2f + 1`
/// votes in the same slot are the same digest.  Two quorums must share at
/// least `f + 1` senders, but the slot discipline allows each sender only
/// one vote in the slot.
pub proof fn lemma_quorum_digest_unique(
    s: Seq<PbftMessage>,
    cfg: PbftConfig,
    kind: MsgKind,
    view: u64,
    seq: u64,
    d1: u64,
    d2: u64,
)
    requires
        cfg.wf(),
        cfg.n <= 3 * cfg.f + 1,
        entries_wf(s, cfg.n as int),
        count_votes(s, kind, view, seq, d1) >= cfg.quorum(),
        count_votes(s, kind, view, seq, d2) >= cfg.quorum(),
    ensures
        d1 == d2,
{
    if d1 != d2 {
        let s1 = vote_senders(s, kind, view, seq, d1);
        let s2 = vote_senders(s, kind, view, seq, d2);
        lemma_vote_senders_props(s, kind, view, seq, d1);
        lemma_vote_senders_props(s, kind, view, seq, d2);
        lemma_vote_senders_disjoint(s, kind, view, seq, d1, d2);
        vstd::set_lib::lemma_set_disjoint_lens(s1, s2);
        let range = vstd::set_lib::set_int_range(0, cfg.n as int);
        vstd::set_lib::lemma_int_range(0, cfg.n as int);
        assert((s1 + s2).subset_of(range)) by {
            assert forall|x: int| #[trigger] (s1 + s2).contains(x) implies range.contains(x) by {
                if s1.contains(x) {
                    let i = choose|i: int|
                        0 <= i < s.len() && vote_matches(s[i], kind, view, seq, d1) && s[i].sender
                            == x;
                    assert(s[i].sender < cfg.n);
                } else {
                    let i = choose|i: int|
                        0 <= i < s.len() && vote_matches(s[i], kind, view, seq, d2) && s[i].sender
                            == x;
                    assert(s[i].sender < cfg.n);
                }
            }
        }
        vstd::set_lib::lemma_len_subset(s1 + s2, range);
        assert(false);
    }
}

/// Append-only, deduplicated store of verified consensus messages.
pub struct PbftLog {
    pub entries: Vec<PbftMessage>,
}

impl PbftLog {
    /// The slot discipline over member identities `0 .. n`.
    pub open spec fn wf(self, n: int) -> bool {
        entries_wf(self.entries@, n)
    }

    /// An empty log.
    pub fn new() -> (r: PbftLog)
        ensures
            r.entries@.len() == 0,
    {
        PbftLog { entries: Vec::new() }
    }

    /// Number of stored messages.
    pub fn len(&self) -> (r: usize)
        ensures
            r == self.entries@.len(),
    {
        self.entries.len()
    }

    /// Inserts a verified message.
    ///
    /// Returns `Ok(true)` and appends when the sender's slot is free,
    /// `Ok(false)` and leaves the log unchanged when the identical message
    /// is already stored, and `Err(InvalidMessage)` — evidence of
    /// equivocation — when the sender's slot holds a different message.
    pub fn insert(&mut self, n: u64, msg: PbftMessage) -> (r: Result<bool, PbftError>)
        requires
            old(self).wf(n as int),
            msg.sender < n,
        ensures
            final(self).wf(n as int),
            old(self).entries@.contains(msg) ==> r == Ok::<bool, PbftError>(false)
                && final(self).entries@ == old(self).entries@,
            (forall|i: int|
                0 <= i < old(self).entries@.len() ==> !same_slot(old(self).entries@[i], msg))
                ==> r == Ok::<bool, PbftError>(true) && final(self).entries@ == old(
                self,
            ).entries@.push(msg),
            ((exists|i: int|
                0 <= i < old(self).entries@.len() && same_slot(old(self).entries@[i], msg))
                && !old(self).entries@.contains(msg)) ==> r is Err && r->Err_0 is InvalidMessage
                && final(self).entries@ == old(self).entries@,
    {
        let ghost orig = self.entries@;
        let mut i: usize = 0;
        while i < self.entries.len()
            invariant
                self.entries@ == orig,
                i <= orig.len(),
                forall|j: int| 0 <= j < i ==> !same_slot(orig[j], msg),
                entries_wf(orig, n as int),
            decreases orig.len() - i,
        {
            let e = self.entries[i];
            if e.kind == msg.kind && e.view == msg.view && e.sender == msg.sender && (e.kind
                == MsgKind::ViewChange || e.seq == msg.seq) {
                assert(same_slot(orig[i as int], msg));
                if e == msg {
                    assert(orig.contains(msg));
                    return Ok(false);
                } else {
                    proof {
                        if orig.contains(msg) {
                            let j = choose|j: int| 0 <= j < orig.len() && orig[j] == msg;
                            assert(same_slot(orig[j], orig[i as int]));
                            assert(j != i);
                            assert(false);
                        }
                    }
                    return Err(
                        PbftError::InvalidMessage(
                            "conflicting message for an occupied log slot".to_string(),
                        ),
                    );
                }
            }
            proof {
                assert(!same_slot(orig[i as int], msg));
            }
            i += 1;
        }
        self.entries.push(msg);
        Ok(true)
    }

    /// Number of stored votes for `digest` in the slot family
    /// `(kind, view, seq)`; by the slot discipline each counted vote comes
    /// from a distinct sender.
    pub fn count_matching(&self, kind: MsgKind, view: u64, seq: u64, digest: u64) -> (r: usize)
        ensures
            r == count_votes(self.entries@, kind, view, seq, digest),
    {
        let ghost s = self.entries@;
        let mut count: usize = 0;
        let mut i: usize = 0;
        while i < self.entries.len()
            invariant
                self.entries@ == s,
                i <= s.len(),
                count == count_votes(s.take(i as int), kind, view, seq, digest),
                count <= i,
            decreases s.len() - i,
        {
            let e = self.entries[i];
            proof {
                lemma_count_votes_take_step(s, i as int, kind, view, seq, digest);
            }
            if e.kind == kind && e.view == view && e.digest == digest && (kind
                == MsgKind::ViewChange || e.seq == seq) {
                assert(vote_matches(s[i as int], kind, view, seq, digest));
                count += 1;
            } else {
                assert(!vote_matches(s[i as int], kind, view, seq, digest));
            }
            i += 1;
        }
        proof {
            assert(s.take(s.len() as int) =~= s);
        }
        count
    }

    /// Whether `digest` holds a quorum certificate — at least `2f + 1` votes
    /// from distinct senders — in the slot family `(kind, view, seq)`.
    pub fn has_quorum(
        &self,
        cfg: &PbftConfig,
        kind: MsgKind,
        view: u64,
        seq: u64,
        digest: u64,
    ) -> (r: bool)
        requires
            cfg.wf(),
        ensures
            r <==> count_votes(self.entries@, kind, view, seq, digest) >= cfg.quorum(),
    {
        let c = self.count_matching(kind, view, seq, digest);
        c as u64 >= cfg.quorum_size()
    }

    /// The digest holding a quorum certificate in `(kind, view, seq)`, if
    /// any; `None` means no digest reaches `2f + 1` votes there.
    pub fn quorum_digest(&self, cfg: &PbftConfig, kind: MsgKind, view: u64, seq: u64) -> (r: Option<
        u64,
    >)
        requires
            cfg.wf(),
        ensures
            r is Some ==> count_votes(self.entries@, kind, view, seq, r->Some_0) >= cfg.quorum(),
            r is None ==> forall|d: u64|
                count_votes(self.entries@, kind, view, seq, d) < cfg.quorum(),
    {
        let ghost s = self.entries@;
        let mut i: usize = 0;
        while i < self.entries.len()
            invariant
                self.entries@ == s,
                i <= s.len(),
                cfg.wf(),
                forall|j: int|
                    0 <= j < i && slot_matches(s[j], kind, view, seq) ==> count_votes(
                        s,
                        kind,
                        view,
                        seq,
                        s[j].digest,
                    ) < cfg.quorum(),
            decreases s.len() - i,
        {
            let e = self.entries[i];
            if e.kind == kind && e.view == view && (kind == MsgKind::ViewChange || e.seq == seq) {
                if self.has_quorum(cfg, kind, view, seq, e.digest) {
                    return Some(e.digest);
                }
            } else {
                assert(!slot_matches(s[i as int], kind, view, seq));
            }
            i += 1;
        }
        proof {
            assert forall|d: u64| count_votes(s, kind, view, seq, d) < cfg.quorum() by {
                if count_votes(s, kind, view, seq, d) >= cfg.quorum() {
                    assert(cfg.quorum() > 0);
                    lemma_count_votes_pos(s, kind, view, seq, d);
                    let j = choose|j: int|
                        0 <= j < s.len() && vote_matches(s[j], kind, view, seq, d);
                    assert(slot_matches(s[j], kind, view, seq) && s[j].digest == d);
                    assert(false);
                }
            }
        }
        None
    }

    /// Discards every entry for a sequence at or below `below`, except view
    /// changes, whose sequence field is a checkpoint claim.  After pruning,
    /// no slot at or below `below` holds any vote.
    pub fn prune(&mut self, n: u64, below: u64)
        requires
            old(self).wf(n as int),
        ensures
            final(self).wf(n as int),
            forall|i: int|
                0 <= i < final(self).entries@.len() ==> (final(self).entries@[i].kind is ViewChange
                    || final(self).entries@[i].seq > below) && old(self).entries@.contains(
                    final(self).entries@[i],
                ),
            forall|j: int|
                0 <= j < old(self).entries@.len() && (old(self).entries@[j].kind is ViewChange
                    || old(self).entries@[j].seq > below) ==> final(self).entries@.contains(
                    old(self).entries@[j],
                ),
            forall|kind: MsgKind, view: u64, seq: u64, digest: u64|
                !(kind is ViewChange) && seq <= below ==> #[trigger] count_votes(
                    final(self).entries@,
                    kind,
                    view,
                    seq,
                    digest,
                ) == 0,
    {
        let ghost orig = self.entries@;
        let mut kept: Vec<PbftMessage> = Vec::new();
        let mut i: usize = 0;
        while i < self.entries.len()
            invariant
                self.entries@ == orig,
                i <= orig.len(),
                entries_wf(orig, n as int),
                forall|a: int|
                    0 <= a < kept@.len() ==> (kept@[a].kind is ViewChange || kept@[a].seq > below),
                forall|a: int| 0 <= a < kept@.len() ==> #[trigger] occurs_before(orig, i as int, kept@[a]),
                forall|a: int, b: int| 0 <= a < b < kept@.len() ==> !same_slot(kept@[a], kept@[b]),
                forall|a: int| 0 <= a < kept@.len() ==> kept@[a].sender < n,
                forall|j: int|
                    0 <= j < i && (orig[j].kind is ViewChange || orig[j].seq > below)
                        ==> kept@.contains(orig[j]),
            decreases orig.len() - i,
        {
            let m = self.entries[i];
            if m.kind == MsgKind::ViewChange || m.seq > below {
                let ghost kept0 = kept@;
                kept.push(m);
                assert forall|a: int, b: int| 0 <= a < b < kept@.len() implies !same_slot(
                    kept@[a],
                    kept@[b],
                ) by {
                    if b == kept@.len() - 1 {
                        assert(occurs_before(orig, i as int, kept@.drop_last()[a]));
                        let j = choose|j: int| 0 <= j < i && kept@.drop_last()[a] == orig[j];
                        assert(kept@[a] == orig[j]);
                        assert(kept@[b] == orig[i as int]);
                        assert(!same_slot(orig[j], orig[i as int]));
                    } else {
                        assert(kept@.drop_last()[a] == kept@[a]);
                        assert(kept@.drop_last()[b] == kept@[b]);
                    }
                }
                assert forall|a: int| 0 <= a < kept@.len() implies #[trigger] occurs_before(
                    orig,
                    i + 1,
                    kept@[a],
                ) by {
                    if a < kept@.len() - 1 {
                        assert(occurs_before(orig, i as int, kept@.drop_last()[a]));
                        let j = choose|j: int| 0 <= j < i && kept@.drop_last()[a] == orig[j];
                        assert(kept@[a] == orig[j]);
                    } else {
                        assert(kept@[a] == orig[i as int]);
                    }
                }
                assert forall|j: int|
                    0 <= j < i + 1 && (orig[j].kind is ViewChange || orig[j].seq
                        > below) implies kept@.contains(orig[j]) by {
                    if j < i {
                        assert(kept0.contains(orig[j]));
                        let b = choose|b: int| 0 <= b < kept0.len() && kept0[b] == orig[j];
                        assert(kept@[b] == orig[j]);
                    } else {
                        assert(kept@[kept@.len() - 1] == orig[j]);
                    }
                }
            } else {
                assert forall|a: int| 0 <= a < kept@.len() implies #[trigger] occurs_before(
                    orig,
                    i + 1,
                    kept@[a],
                ) by {
                    assert(occurs_before(orig, i as int, kept@[a]));
                    let j = choose|j: int| 0 <= j < i && kept@[a] == orig[j];
                    assert(kept@[a] == orig[j]);
                }
            }
            i += 1;
        }
        self.entries = kept;
        proof {
            assert forall|a: int| 0 <= a < self.entries@.len() implies (
            self.entries@[a].kind is ViewChange || self.entries@[a].seq > below)
                && orig.contains(self.entries@[a]) by {
                assert(occurs_before(orig, orig.len() as int, self.entries@[a]));
                let j = choose|j: int| 0 <= j < orig.len() && self.entries@[a] == orig[j];
                assert(self.entries@[a] == orig[j]);
            }
            assert forall|kind: MsgKind, view: u64, seq: u64, digest: u64|
                !(kind is ViewChange) && seq <= below implies #[trigger] count_votes(
                self.entries@,
                kind,
                view,
                seq,
                digest,
            ) == 0 by {
                if count_votes(self.entries@, kind, view, seq, digest) > 0 {
                    lemma_count_votes_pos(self.entries@, kind, view, seq, digest);
                    let a = choose|a: int|
                        0 <= a < self.entries@.len() && vote_matches(
                            self.entries@[a],
                            kind,
                            view,
                            seq,
                            digest,
                        );
                    assert(false);
                }
            }
        }
    }

    /// Discards every entry for a view below `min_view` — stale once the
    /// node has moved past that view — except checkpoint claims, which
    /// carry no view.
    pub fn prune_below_view(&mut self, n: u64, min_view: u64)
        requires
            old(self).wf(n as int),
        ensures
            final(self).wf(n as int),
            forall|i: int|
                0 <= i < final(self).entries@.len() ==> (final(self).entries@[i].kind is Checkpoint
                    || final(self).entries@[i].view >= min_view) && old(self).entries@.contains(
                    final(self).entries@[i],
                ),
            forall|j: int|
                0 <= j < old(self).entries@.len() && (old(self).entries@[j].kind is Checkpoint
                    || old(self).entries@[j].view >= min_view) ==> final(self).entries@.contains(old(self).entries@[j]),
    {
        let ghost orig = self.entries@;
        let mut kept: Vec<PbftMessage> = Vec::new();
        let mut i: usize = 0;
        while i < self.entries.len()
            invariant
                self.entries@ == orig,
                i <= orig.len(),
                entries_wf(orig, n as int),
                forall|a: int|
                    0 <= a < kept@.len() ==> (kept@[a].kind is Checkpoint || kept@[a].view
                        >= min_view),
                forall|a: int| 0 <= a < kept@.len() ==> #[trigger] occurs_before(orig, i as int, kept@[a]),
                forall|a: int, b: int| 0 <= a < b < kept@.len() ==> !same_slot(kept@[a], kept@[b]),
                forall|a: int| 0 <= a < kept@.len() ==> kept@[a].sender < n,
                forall|j: int|
                    0 <= j < i && (orig[j].kind is Checkpoint || orig[j].view >= min_view)
                        ==> kept@.contains(orig[j]),
            decreases orig.len() - i,
        {
            let m = self.entries[i];
            if m.kind == MsgKind::Checkpoint || m.view >= min_view {
                let ghost kept0 = kept@;
                kept.push(m);
                assert forall|a: int, b: int| 0 <= a < b < kept@.len() implies !same_slot(
                    kept@[a],
                    kept@[b],
                ) by {
                    if b == kept@.len() - 1 {
                        assert(occurs_before(orig, i as int, kept@.drop_last()[a]));
                        let j = choose|j: int| 0 <= j < i && kept@.drop_last()[a] == orig[j];
                        assert(kept@[a] == orig[j]);
                        assert(kept@[b] == orig[i as int]);
                        assert(!same_slot(orig[j], orig[i as int]));
                    } else {
                        assert(kept@.drop_last()[a] == kept@[a]);
                        assert(kept@.drop_last()[b] == kept@[b]);
                    }
                }
                assert forall|a: int| 0 <= a < kept@.len() implies #[trigger] occurs_before(
                    orig,
                    i + 1,
                    kept@[a],
                ) by {
                    if a < kept@.len() - 1 {
                        assert(occurs_before(orig, i as int, kept@.drop_last()[a]));
                        let j = choose|j: int| 0 <= j < i && kept@.drop_last()[a] == orig[j];
                        assert(kept@[a] == orig[j]);
                    } else {
                        assert(kept@[a] == orig[i as int]);
                    }
                }
                assert forall|j: int|
                    0 <= j < i + 1 && (orig[j].kind is Checkpoint || orig[j].view
                        >= min_view) implies kept@.contains(orig[j]) by {
                    if j < i {
                        assert(kept0.contains(orig[j]));
                        let b = choose|b: int| 0 <= b < kept0.len() && kept0[b] == orig[j];
                        assert(kept@[b] == orig[j]);
                    } else {
                        assert(kept@[kept@.len() - 1] == orig[j]);
                    }
                }
            } else {
                assert forall|a: int| 0 <= a < kept@.len() implies #[trigger] occurs_before(
                    orig,
                    i + 1,
                    kept@[a],
                ) by {
                    assert(occurs_before(orig, i as int, kept@[a]));
                    let j = choose|j: int| 0 <= j < i && kept@[a] == orig[j];
                    assert(kept@[a] == orig[j]);
                }
            }
            i += 1;
        }
        self.entries = kept;
        proof {
            assert forall|a: int| 0 <= a < self.entries@.len() implies (
            self.entries@[a].kind is Checkpoint || self.entries@[a].view >= min_view)
                && orig.contains(self.entries@[a]) by {
                assert(occurs_before(orig, orig.len() as int, self.entries@[a]));
                let j = choose|j: int| 0 <= j < orig.len() && self.entries@[a] == orig[j];
                assert(self.entries@[a] == orig[j]);
            }
        }
    }
}

} // verus!
