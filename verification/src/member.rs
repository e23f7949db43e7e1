//! The state-merge rules of the membership table.
//!
//! Claims about a peer carry an incarnation and a liveness state. A claim is
//! accepted only when it strictly dominates the current record: a greater
//! incarnation always wins, and at equal incarnation a worse state wins,
//! in the order `Alive < Suspect < Dead == Left`. Claims of `Suspect` or
//! `Dead` about the local node are never accepted: the local node refutes
//! them by bumping its own incarnation above the claim and announcing
//! itself `Alive`.

use vstd::prelude::*;

use crate::types::NodeStateKind;

verus! {

/// The conflict-resolution rank of a state: `Alive < Suspect < Dead == Left`.
pub open spec fn spec_state_rank(s: NodeStateKind) -> int {
    match s {
        NodeStateKind::Alive => 0,
        NodeStateKind::Suspect => 1,
        NodeStateKind::Dead => 2,
        NodeStateKind::Left => 2,
    }
}

/// The conflict-resolution rank of a state.
pub fn state_rank(s: NodeStateKind) -> (r: u8)
    ensures
        r == spec_state_rank(s),
{
    match s {
        NodeStateKind::Alive => 0,
        NodeStateKind::Suspect => 1,
        NodeStateKind::Dead => 2,
        NodeStateKind::Left => 2,
    }
}

/// Whether a claim `(inc, state)` strictly dominates the current record
/// `(cur_inc, cur_state)` and must be accepted.
pub open spec fn spec_dominates(
    cur_inc: u32,
    cur_state: NodeStateKind,
    inc: u32,
    state: NodeStateKind,
) -> bool {
    inc > cur_inc || (inc == cur_inc && spec_state_rank(state) > spec_state_rank(cur_state))
}

/// Whether a claim strictly dominates the current record.
pub fn claim_dominates(cur_inc: u32, cur_state: NodeStateKind, inc: u32, state: NodeStateKind) -> (r:
    bool)
    ensures
        r == spec_dominates(cur_inc, cur_state, inc, state),
{
    inc > cur_inc || (inc == cur_inc && state_rank(state) > state_rank(cur_state))
}

/// What the table does with one claim about one peer.
#[derive(Clone, Copy, Debug, PartialEq, Eq, Structural)]
pub enum MergeOutcome {
    /// The peer was unknown and the claim is not `Left`: insert it.
    Insert,
    /// The peer was unknown and the claim is `Left`: nothing to do.
    IgnoreUnknown,
    /// The claim slanders the local node: refute it instead of accepting.
    Refute,
    /// The claim dominates the current record: write it.
    Accept,
    /// The claim is stale: drop it.
    Reject,
}

/// Decides what the table does with a claim `(inc, state)` about a peer.
/// `current` is the peer's record, if it is known; `is_local` says whether
/// the claim is about this node itself.
pub fn merge_decision(
    current: Option<(u32, NodeStateKind)>,
    is_local: bool,
    inc: u32,
    state: NodeStateKind,
) -> (r: MergeOutcome)
    ensures
        r == spec_merge_decision(current, is_local, inc, state),
{
    match current {
        None => {
            if matches!(state, NodeStateKind::Left) {
                MergeOutcome::IgnoreUnknown
            } else {
                MergeOutcome::Insert
            }
        },
        Some((cur_inc, cur_state)) => {
            if is_local && state_rank(state) > 0 {
                if claim_dominates(cur_inc, cur_state, inc, state) {
                    MergeOutcome::Refute
                } else {
                    MergeOutcome::Reject
                }
            } else if claim_dominates(cur_inc, cur_state, inc, state) {
                MergeOutcome::Accept
            } else {
                MergeOutcome::Reject
            }
        },
    }
}

/// What the table does with a claim, as a function of the record, the
/// locality of the subject, and the claim.
pub open spec fn spec_merge_decision(
    current: Option<(u32, NodeStateKind)>,
    is_local: bool,
    inc: u32,
    state: NodeStateKind,
) -> MergeOutcome {
    match current {
        None => if state == NodeStateKind::Left {
            MergeOutcome::IgnoreUnknown
        } else {
            MergeOutcome::Insert
        },
        Some((cur_inc, cur_state)) => if !spec_dominates(cur_inc, cur_state, inc, state) {
            MergeOutcome::Reject
        } else if is_local && spec_state_rank(state) > 0 {
            MergeOutcome::Refute
        } else {
            MergeOutcome::Accept
        },
    }
}

/// Monotonic incarnation: an accepted claim never lowers the incarnation,
/// and at equal incarnation strictly raises the state in the order
/// `Alive < Suspect < Dead == Left`.
pub proof fn lemma_accept_monotonic(
    cur_inc: u32,
    cur_state: NodeStateKind,
    inc: u32,
    state: NodeStateKind,
)
    requires
        spec_dominates(cur_inc, cur_state, inc, state),
    ensures
        inc >= cur_inc,
        inc == cur_inc ==> spec_state_rank(state) > spec_state_rank(cur_state),
{
}

/// Monotonic incarnation along a history: when every record of a chain was
/// accepted over the one before it, incarnations never decrease along the
/// chain, and between records of equal incarnation the state strictly
/// rises.
pub proof fn lemma_accepted_chain_monotonic(h: Seq<(u32, NodeStateKind)>, i: int, j: int)
    requires
        forall|k: int|
            0 <= k < h.len() - 1 ==> spec_dominates(
                (#[trigger] h[k]).0,
                h[k].1,
                h[k + 1].0,
                h[k + 1].1,
            ),
        0 <= i <= j < h.len(),
    ensures
        h[i].0 <= h[j].0,
        h[i].0 == h[j].0 && i < j ==> spec_state_rank(h[i].1) < spec_state_rank(h[j].1),
    decreases j - i,
{
    if i < j {
        lemma_accepted_chain_monotonic(h, i, j - 1);
        assert(spec_dominates(h[j - 1].0, h[j - 1].1, h[j].0, h[j].1));
    }
}

/// The local node's refutation state: the highest incarnation it has ever
/// announced for itself.
pub struct LocalIncarnation {
    incarnation: u32,
}

impl LocalIncarnation {
    /// The highest incarnation announced so far.
    pub closed spec fn spec_incarnation(self) -> u32 {
        self.incarnation
    }

    /// Starts at the given incarnation.
    pub fn new(incarnation: u32) -> (r: Self)
        ensures
            r.spec_incarnation() == incarnation,
    {
        LocalIncarnation { incarnation }
    }

    /// The highest incarnation announced so far.
    pub fn incarnation(&self) -> (r: u32)
        ensures
            r == self.spec_incarnation(),
    {
        self.incarnation
    }

    /// Refutes a `Suspect` or `Dead` claim about the local node at
    /// `claim_inc`: bumps the local incarnation strictly above both the
    /// claim and every incarnation announced before, and returns the
    /// incarnation for the `Alive` broadcast that refutes the claim.
    pub fn refute(&mut self, claim_inc: u32) -> (r: u32)
        requires
            old(self).spec_incarnation() < u32::MAX,
            claim_inc < u32::MAX,
        ensures
            r == final(self).spec_incarnation(),
            r == (if claim_inc > old(self).spec_incarnation() {
                claim_inc
            } else {
                old(self).spec_incarnation()
            }) + 1,
            r > claim_inc,
            r > old(self).spec_incarnation(),
    {
        let base = if claim_inc > self.incarnation {
            claim_inc
        } else {
            self.incarnation
        };
        self.incarnation = base + 1;
        self.incarnation
    }
}

/// Refutation: the `Alive` broadcast a refutation emits dominates the claim
/// it refutes, so every peer that accepted the slander accepts the
/// refutation.
pub proof fn lemma_refutation_dominates(claim_inc: u32, claim_state: NodeStateKind, new_inc: u32)
    requires
        new_inc > claim_inc,
    ensures
        spec_dominates(claim_inc, claim_state, new_inc, NodeStateKind::Alive),
{
}

} // verus!
