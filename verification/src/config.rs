//! Static configuration of a PBFT network.

use vstd::prelude::*;

verus! {

/// The fixed membership of the network and the fault bound derived from it.
#[derive(Clone, Copy, PartialEq, Eq, Structural, Debug)]
pub struct PbftConfig {
    /// Number of validator nodes; node identities are `0 .. n`.
    pub n: u64,
    /// Upper bound on the number of faulty nodes tolerated: `(n - 1) / 3`.
    pub f: u64,
    /// A checkpoint is proposed every this many committed sequences.
    pub checkpoint_interval: u64,
}

impl PbftConfig {
    /// A well-formed configuration: at least four nodes, the fault bound
    /// derived as `(n - 1) / 3`, and a positive checkpoint interval.
    pub open spec fn wf(self) -> bool {
        &&& self.n >= 4
        &&& self.f == (self.n - 1) as int / 3
        &&& self.checkpoint_interval >= 1
    }

    /// Number of matching messages from distinct senders that forms a quorum
    /// certificate: `2f + 1`.
    pub open spec fn quorum(self) -> int {
        2 * self.f + 1
    }

    /// Number of view-change messages from distinct peers for one higher view
    /// that corroborates joining it: `f + 1`.
    pub open spec fn bandwagon(self) -> int {
        self.f + 1
    }

    /// The designated primary of a view: round robin over the members.
    pub open spec fn spec_primary(self, view: u64) -> u64
        recommends
            self.n > 0,
    {
        (view as int % self.n as int) as u64
    }

    /// Builds a configuration for `n` nodes, deriving the fault bound;
    /// rejects networks too small to tolerate any fault.
    pub fn new(n: u64, checkpoint_interval: u64) -> (r: Option<PbftConfig>)
        ensures
            r is Some <==> n >= 4 && checkpoint_interval >= 1,
            r is Some ==> {
                &&& r->Some_0.wf()
                &&& r->Some_0.n == n
                &&& r->Some_0.checkpoint_interval == checkpoint_interval
            },
    {
        if n >= 4 && checkpoint_interval >= 1 {
            Some(PbftConfig { n, f: (n - 1) / 3, checkpoint_interval })
        } else {
            None
        }
    }

    /// The designated primary of `view`.
    pub fn primary_of_view(&self, view: u64) -> (r: u64)
        requires
            self.wf(),
        ensures
            r == self.spec_primary(view),
            r < self.n,
    {
        view % self.n
    }

    /// Quorum certificate size, `2f + 1`.
    pub fn quorum_size(&self) -> (r: u64)
        requires
            self.wf(),
        ensures
            r == self.quorum(),
    {
        proof {
            assert(self.f < self.n) by {
                vstd::arithmetic::div_mod::lemma_div_is_strictly_smaller(
                    (self.n - 1) as int, 3);
            }
        }
        2 * self.f + 1
    }

    /// Bandwagon threshold, `f + 1`.
    pub fn bandwagon_size(&self) -> (r: u64)
        requires
            self.wf(),
        ensures
            r == self.bandwagon(),
    {
        proof {
            assert(self.f < self.n) by {
                vstd::arithmetic::div_mod::lemma_div_is_strictly_smaller(
                    (self.n - 1) as int, 3);
            }
        }
        self.f + 1
    }
}

} // verus!
