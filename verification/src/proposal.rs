use vstd::prelude::*;

use crate::identity::Identity;
use crate::identity::MAX_IDENTITY_LEN;

verus! {

/// The three ways a ballot can be cast.
#[derive(Clone, Copy, PartialEq, Eq, Debug)]
pub enum Choice {
    Approve,
    Reject,
    Pass,
}

/// Every way a voting operation can fail.
#[derive(Clone, PartialEq, Eq, Debug)]
pub enum VoteError {
    AlreadyVoted,
    ProposalIsNotActive,
    NoSuchProposal,
    AccessRejected,
    UpdateError(String),
}

/// The caller-supplied part of a new proposal.
#[derive(Clone, Debug)]
pub struct CreateProposal {
    pub description: Vec<u8>,
    pub is_active: bool,
}

/// A votable item: an identifier, a description, tally counters, the
/// activity flag, the identities that have voted, and the owner that
/// may close it.
#[derive(Clone, Debug)]
pub struct Proposal {
    pub id: u64,
    pub description: Vec<u8>,
    pub approve: u32,
    pub reject: u32,
    pub pass: u32,
    pub is_active: bool,
    pub voted: Vec<Identity>,
    pub owner: Identity,
}

/// The mathematical model of a proposal record.
#[verifier::ext_equal]
pub ghost struct ProposalView {
    pub id: u64,
    pub description: Seq<u8>,
    pub approve: u32,
    pub reject: u32,
    pub pass: u32,
    pub is_active: bool,
    pub voted: Seq<Seq<u8>>,
    pub owner: Seq<u8>,
}

/// The byte strings of a list of identity tokens.
pub open spec fn voted_views(v: Seq<Identity>) -> Seq<Seq<u8>> {
    v.map_values(|i: Identity| i@)
}

impl View for Proposal {
    type V = ProposalView;

    open spec fn view(&self) -> ProposalView {
        ProposalView {
            id: self.id,
            description: self.description@,
            approve: self.approve,
            reject: self.reject,
            pass: self.pass,
            is_active: self.is_active,
            voted: voted_views(self.voted@),
            owner: self.owner@,
        }
    }
}

impl ProposalView {
    /// Every identity in the record fits the stored format and is non-empty.
    pub open spec fn ids_valid(self) -> bool {
        &&& 1 <= self.owner.len() <= MAX_IDENTITY_LEN
        &&& forall|j: int|
            0 <= j < self.voted.len() ==> 1 <= (#[trigger] self.voted[j]).len() <= MAX_IDENTITY_LEN
    }

    /// No identity appears twice among the voters.
    pub open spec fn voters_unique(self) -> bool {
        forall|j: int, k: int| 0 <= j < k < self.voted.len() ==> self.voted[j] != self.voted[k]
    }

    /// Tally conservation: the three counters account for exactly the voters.
    pub open spec fn tally_conserved(self) -> bool {
        self.approve + self.reject + self.pass == self.voted.len()
    }

    /// Everything that holds of a record at rest.
    pub open spec fn inv(self) -> bool {
        self.ids_valid() && self.voters_unique() && self.tally_conserved()
    }
}

impl Proposal {
    /// Whether `caller` is already among the voters.
    pub fn has_voted(&self, caller: &Identity) -> (r: bool)
        ensures
            r == self@.voted.contains(caller@),
    {
        let n = self.voted.len();
        let mut k: usize = 0;
        while k < n
            invariant
                0 <= k <= n,
                n == self.voted@.len(),
                forall|j: int| 0 <= j < k ==> self@.voted[j] != caller@,
            decreases n - k,
        {
            if self.voted[k].same_as(caller) {
                assert(self@.voted[k as int] == self.voted@[k as int]@);
                return true;
            }
            assert(self@.voted[k as int] == self.voted@[k as int]@);
            k += 1;
        }
        assert(!self@.voted.contains(caller@));
        false
    }
}

/// Whether `voter` may cast a ballot on `p`: it has not voted yet and
/// the proposal is still active.
pub open spec fn may_vote(p: ProposalView, voter: Seq<u8>) -> bool {
    !p.voted.contains(voter) && p.is_active
}

/// The record after a successful vote: the chosen counter grows by one
/// and the voter is appended.
pub open spec fn after_vote(p: ProposalView, choice: Choice, voter: Seq<u8>) -> ProposalView
    recommends
        p.approve + 1 <= u32::MAX,
        p.reject + 1 <= u32::MAX,
        p.pass + 1 <= u32::MAX,
{
    ProposalView {
        approve: if choice is Approve {
            (p.approve + 1) as u32
        } else {
            p.approve
        },
        reject: if choice is Reject {
            (p.reject + 1) as u32
        } else {
            p.reject
        },
        pass: if choice is Pass {
            (p.pass + 1) as u32
        } else {
            p.pass
        },
        voted: p.voted.push(voter),
        ..p
    }
}

/// The record after the owner closes the proposal.
pub open spec fn after_close(p: ProposalView) -> ProposalView {
    ProposalView { is_active: false, ..p }
}

/// One-vote law: once a voter's ballot has been applied, that voter is
/// in the voted set, so a second ballot by the same voter is gated off.
pub proof fn lemma_one_vote(p: ProposalView, choice: Choice, voter: Seq<u8>)
    ensures
        after_vote(p, choice, voter).voted.contains(voter),
        !may_vote(after_vote(p, choice, voter), voter),
{
    let q = after_vote(p, choice, voter);
    assert(q.voted[q.voted.len() - 1] == voter);
}

/// Activity gating: a proposal that is not active admits no ballot,
/// whoever the voter is.
pub proof fn lemma_activity_gating(p: ProposalView, voter: Seq<u8>)
    requires
        !p.is_active,
    ensures
        !may_vote(p, voter),
{
}

/// A fresh record has no voters, so the first gate a ballot on an
/// inactive proposal meets is the activity check, never `AlreadyVoted`.
pub proof fn lemma_fresh_record_gates(p: ProposalView, voter: Seq<u8>)
    requires
        p.voted.len() == 0,
    ensures
        !p.voted.contains(voter),
{
}

/// Close idempotence: closing is absorbing, leaves every other field
/// alone, and never reactivates a proposal.
pub proof fn lemma_close_idempotent(p: ProposalView)
    ensures
        !after_close(p).is_active,
        after_close(after_close(p)) == after_close(p),
        after_close(p).owner == p.owner,
        after_close(p).voted == p.voted,
        after_close(p).approve == p.approve,
        after_close(p).reject == p.reject,
        after_close(p).pass == p.pass,
{
}

/// Tally conservation is kept by a vote: if the counters account for
/// the voters before a ballot, they do after it.
pub proof fn lemma_vote_keeps_tally(p: ProposalView, choice: Choice, voter: Seq<u8>)
    requires
        p.tally_conserved(),
        p.approve + p.reject + p.pass < u32::MAX,
    ensures
        after_vote(p, choice, voter).tally_conserved(),
{
}

/// Tally conservation is kept by a close.
pub proof fn lemma_close_keeps_tally(p: ProposalView)
    requires
        p.tally_conserved(),
    ensures
        after_close(p).tally_conserved(),
{
}

} // verus!
