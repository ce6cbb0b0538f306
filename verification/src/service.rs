//! The proposal service: the lifecycle and vote-recording state
//! machine over the durable counter and the durable record store.
use vstd::prelude::*;

use vstd::string::StringExecFns;

use crate::codec::encodable;
use crate::codec::encoded_len;
use crate::codec::lemma_decode_encode;
use crate::codec::lemma_decode_shape;
use crate::codec::lemma_encode_len;
use crate::codec::spec_decode;
use crate::codec::spec_encode;
use crate::identity::Identity;
use crate::proposal::after_close;
use crate::proposal::after_vote;
use crate::proposal::may_vote;
use crate::proposal::Choice;
use crate::proposal::CreateProposal;
use crate::proposal::Proposal;
use crate::proposal::ProposalView;
use crate::proposal::VoteError;
use crate::storage::counter_get;
use crate::storage::counter_set;
use crate::storage::durable_counter;
use crate::storage::durable_entries;
use crate::storage::durable_new;
use crate::storage::durable_open;
use crate::storage::entries_get;
use crate::storage::entries_insert;
use crate::storage::DurableState;
use crate::storage::MAX_PROPOSAL_BYTES;

verus! {

/// Bytes a record with an empty voter list takes beyond its
/// description and its owner token.
pub const EMPTY_RECORD_OVERHEAD: usize = 30;

/// Storing a well-formed record's encoding under its own identifier,
/// at or below the counter, keeps the service well formed and updates
/// the model map pointwise.
proof fn lemma_wf_after_insert(
    pre: ProposalService,
    post: ProposalService,
    id: u64,
    p: ProposalView,
)
    requires
        pre.wf(),
        post.entries() == pre.entries().insert(id, spec_encode(p)),
        post.counter() >= pre.counter(),
        p.id == id,
        p.inv(),
        encodable(p),
        spec_encode(p).len() <= MAX_PROPOSAL_BYTES,
        1 <= id <= post.counter(),
    ensures
        post.wf(),
        post.proposals() == pre.proposals().insert(id, p),
{
    lemma_decode_encode(p);
    assert forall|k: u64| #[trigger] post.entries().dom().contains(k) implies {
        let e = post.entries()[k];
        &&& spec_decode(e) is Some
        &&& spec_decode(e).unwrap().id == k
        &&& spec_decode(e).unwrap().inv()
        &&& e.len() <= MAX_PROPOSAL_BYTES
        &&& 1 <= k <= post.counter()
    } by {
        if k != id {
            assert(pre.entries().dom().contains(k));
            assert(post.entries()[k] == pre.entries()[k]);
        }
    }
    assert(post.proposals() =~= pre.proposals().insert(id, p));
}

/// The proposal service: create, look up, vote and close, with every
/// record kept in the durable store.
pub struct ProposalService {
    pub state: DurableState,
}

impl ProposalService {
    /// The last identifier the durable counter issued.
    pub open spec fn counter(&self) -> u64 {
        durable_counter(self.state)
    }

    /// The stored bytes, keyed by identifier.
    pub open spec fn entries(&self) -> Map<u64, Seq<u8>> {
        durable_entries(self.state)
    }

    /// The stored records, as their models.
    pub open spec fn proposals(&self) -> Map<u64, ProposalView> {
        Map::new(
            |k: u64| self.entries().dom().contains(k),
            |k: u64| spec_decode(self.entries()[k]).unwrap(),
        )
    }

    /// What holds of the service at rest: every stored byte string is
    /// one well-formed record filed under its own identifier, it fits
    /// the size bound, and no identifier above the counter is in use.
    pub open spec fn wf(&self) -> bool {
        forall|k: u64| #[trigger] self.entries().dom().contains(k) ==> {
            let e = self.entries()[k];
            &&& spec_decode(e) is Some
            &&& spec_decode(e).unwrap().id == k
            &&& spec_decode(e).unwrap().inv()
            &&& e.len() <= MAX_PROPOSAL_BYTES
            &&& 1 <= k <= self.counter()
        }
    }

    /// A fresh service: nothing stored, counter at zero.
    pub fn new() -> (s: ProposalService)
        ensures
            s.wf(),
            s.counter() == 0,
            s.proposals().dom() == Set::<u64>::empty(),
    {
        let s = ProposalService { state: durable_new(0) };
        proof {
            assert(s.proposals().dom() =~= Set::<u64>::empty());
        }
        s
    }

    /// Reopens the service over the target's persisted regions — the
    /// canister's stable memory on the Internet Computer — so records
    /// and the counter survive upgrades there. A fresh target starts
    /// empty with the counter at zero; otherwise the state last
    /// written through this service is restored.
    pub fn open() -> (s: ProposalService)
        ensures
            s.wf(),
    {
        ProposalService { state: durable_open(0) }
    }

    /// Looks a proposal up; absence is a normal result, not a fault.
    pub fn get_proposal(&self, id: u64) -> (r: Option<Proposal>)
        requires
            self.wf(),
        ensures
            match r {
                Some(p) => self.proposals().dom().contains(id) && p@ == self.proposals()[id]
                    && p@.inv(),
                None => !self.proposals().dom().contains(id),
            },
    {
        match entries_get(&self.state, id) {
            None => None,
            Some(bytes) => {
                match Proposal::from_bytes(&bytes) {
                    Some(p) => Some(p),
                    None => {
                        proof {
                            assert(self.entries().dom().contains(id));
                            assert(false);
                        }
                        None
                    },
                }
            },
        }
    }

    /// Creates a proposal: issues the next identifier, stores a fresh
    /// record owned by the caller, and returns it. `None` when the
    /// identifier space is exhausted or the record would not fit the
    /// stored size bound; a failed store still uses up the identifier.
    pub fn create_proposal(&mut self, proposal: CreateProposal, caller: Identity) -> (r: Option<
        Proposal,
    >)
        requires
            old(self).wf(),
            caller.valid(),
        ensures
            final(self).wf(),
            (r is Some <==> old(self).counter() < u64::MAX && EMPTY_RECORD_OVERHEAD
                + proposal.description@.len() + caller@.len() <= MAX_PROPOSAL_BYTES),
            (old(self).counter() < u64::MAX ==> final(self).counter() == old(self).counter() + 1),
            (old(self).counter() == u64::MAX ==> final(self).counter() == old(self).counter()),
            match r {
                Some(p) => {
                    &&& p@.id == old(self).counter() + 1
                    &&& p@.description == proposal.description@
                    &&& p@.approve == 0 && p@.reject == 0 && p@.pass == 0
                    &&& p@.is_active == proposal.is_active
                    &&& p@.voted.len() == 0
                    &&& p@.owner == caller@
                    &&& !old(self).proposals().dom().contains(p@.id)
                    &&& (forall|k: u64|
                        #[trigger] old(self).proposals().dom().contains(k) ==> k < p@.id)
                    &&& final(self).proposals() == old(self).proposals().insert(p@.id, p@)
                },
                None => final(self).proposals() == old(self).proposals(),
            },
    {
        let cur = counter_get(&self.state);
        if cur == u64::MAX {
            return None;
        }
        let id = cur + 1;
        counter_set(&mut self.state, id);
        let p = Proposal {
            id,
            description: proposal.description,
            approve: 0u32,
            reject: 0u32,
            pass: 0u32,
            is_active: proposal.is_active,
            voted: Vec::new(),
            owner: caller,
        };
        proof {
            assert(p@.voted =~= Seq::<Seq<u8>>::empty());
            assert(self.proposals() =~= old(self).proposals());
        }
        match p.to_bytes() {
            None => {
                assert(p@.description.len() > u32::MAX);
                None
            },
            Some(bytes) => {
                proof {
                    lemma_encode_len(p@);
                }
                if bytes.len() > MAX_PROPOSAL_BYTES {
                    return None;
                }
                let ghost pre = *self;
                entries_insert(&mut self.state, id, bytes);
                proof {
                    lemma_wf_after_insert(pre, *self, id, p@);
                    assert(pre.proposals() =~= old(self).proposals());
                }
                Some(p)
            },
        }
    }

    /// Casts a ballot: the proposal must exist, the caller must not
    /// have voted on it, and it must still be active, checked in that
    /// order with the first failure returned; then the chosen counter
    /// grows, the caller joins the voters, and the record is stored
    /// again, unless it would no longer fit the size bound.
    pub fn vote(&mut self, id: u64, choice: Choice, caller: Identity) -> (r: Result<
        (),
        VoteError,
    >)
        requires
            old(self).wf(),
            caller.valid(),
        ensures
            final(self).wf(),
            final(self).counter() == old(self).counter(),
            ({
                let m = old(self).proposals();
                &&& (r == Err::<(), VoteError>(VoteError::NoSuchProposal) <==> !m.dom().contains(
                    id,
                ))
                &&& (r == Err::<(), VoteError>(VoteError::AlreadyVoted) <==> m.dom().contains(id)
                    && m[id].voted.contains(caller@))
                &&& (r == Err::<(), VoteError>(VoteError::ProposalIsNotActive) <==> m.dom().contains(
                    id,
                ) && !m[id].voted.contains(caller@) && !m[id].is_active)
                &&& ((r matches Err(e) && e is UpdateError) <==> m.dom().contains(id) && may_vote(
                    m[id],
                    caller@,
                ) && encoded_len(after_vote(m[id], choice, caller@)) > MAX_PROPOSAL_BYTES)
                &&& (r is Ok <==> m.dom().contains(id) && may_vote(m[id], caller@) && encoded_len(
                    after_vote(m[id], choice, caller@),
                ) <= MAX_PROPOSAL_BYTES)
                &&& (r is Ok ==> final(self).proposals() == m.insert(
                    id,
                    after_vote(m[id], choice, caller@),
                ))
                &&& (!(r is Ok) ==> final(self).proposals() == m)
            }),
    {
        let stored = entries_get(&self.state, id);
        let mut p = match stored {
            None => {
                return Err(VoteError::NoSuchProposal);
            },
            Some(bytes) => {
                proof {
                    assert(self.entries().dom().contains(id));
                    lemma_decode_shape(bytes@);
                }
                match Proposal::from_bytes(&bytes) {
                    Some(p) => p,
                    None => {
                        proof {
                            assert(false);
                        }
                        return Err(VoteError::NoSuchProposal);
                    },
                }
            },
        };
        let ghost m = old(self).proposals();
        let ghost before = p@;
        assert(before == m[id]);
        assert(before.inv());
        assert(2 * before.voted.len() + 25 <= MAX_PROPOSAL_BYTES);
        if p.has_voted(&caller) {
            return Err(VoteError::AlreadyVoted);
        }
        if !p.is_active {
            return Err(VoteError::ProposalIsNotActive);
        }
        match choice {
            Choice::Approve => {
                p.approve = p.approve + 1;
            },
            Choice::Reject => {
                p.reject = p.reject + 1;
            },
            Choice::Pass => {
                p.pass = p.pass + 1;
            },
        }
        p.voted.push(caller);
        proof {
            assert(p@.voted =~= before.voted.push(caller@));
            assert(p@ =~= after_vote(before, choice, caller@));
        }
        let bytes = match p.to_bytes() {
            Some(bytes) => bytes,
            None => {
                proof {
                    assert(false);
                }
                return Err(VoteError::NoSuchProposal);
            },
        };
        proof {
            lemma_encode_len(p@);
        }
        if bytes.len() > MAX_PROPOSAL_BYTES {
            return Err(VoteError::UpdateError(String::from_str("proposal record too large")));
        }
        let ghost pre = *self;
        entries_insert(&mut self.state, id, bytes);
        proof {
            lemma_wf_after_insert(pre, *self, id, p@);
        }
        Ok(())
    }

    /// Closes a proposal: only its owner may do so, and closing one
    /// that is already closed succeeds again without a change.
    pub fn end_proposal(&mut self, id: u64, caller: Identity) -> (r: Result<(), VoteError>)
        requires
            old(self).wf(),
        ensures
            final(self).wf(),
            final(self).counter() == old(self).counter(),
            ({
                let m = old(self).proposals();
                &&& (r == Err::<(), VoteError>(VoteError::NoSuchProposal) <==> !m.dom().contains(
                    id,
                ))
                &&& (r == Err::<(), VoteError>(VoteError::AccessRejected) <==> m.dom().contains(id)
                    && m[id].owner != caller@)
                &&& (r is Ok <==> m.dom().contains(id) && m[id].owner == caller@)
                &&& (r is Ok ==> final(self).proposals() == m.insert(id, after_close(m[id])))
                &&& (!(r is Ok) ==> final(self).proposals() == m)
            }),
    {
        let stored = entries_get(&self.state, id);
        let mut p = match stored {
            None => {
                return Err(VoteError::NoSuchProposal);
            },
            Some(bytes) => {
                proof {
                    assert(self.entries().dom().contains(id));
                    lemma_decode_shape(bytes@);
                }
                match Proposal::from_bytes(&bytes) {
                    Some(p) => p,
                    None => {
                        proof {
                            assert(false);
                        }
                        return Err(VoteError::NoSuchProposal);
                    },
                }
            },
        };
        let ghost m = old(self).proposals();
        let ghost before = p@;
        assert(before == m[id]);
        if !caller.same_as(&p.owner) {
            return Err(VoteError::AccessRejected);
        }
        p.is_active = false;
        proof {
            assert(p@ =~= after_close(before));
        }
        let bytes = match p.to_bytes() {
            Some(bytes) => bytes,
            None => {
                proof {
                    assert(false);
                }
                return Err(VoteError::NoSuchProposal);
            },
        };
        proof {
            lemma_encode_len(p@);
            lemma_encode_len(before);
            assert(bytes@.len() <= MAX_PROPOSAL_BYTES);
        }
        let ghost pre = *self;
        entries_insert(&mut self.state, id, bytes);
        proof {
            lemma_wf_after_insert(pre, *self, id, p@);
        }
        Ok(())
    }

    /// Tally conservation at rest: every stored record's counters
    /// account for exactly its voters.
    pub proof fn lemma_tally_conservation(&self, id: u64)
        requires
            self.wf(),
            self.proposals().dom().contains(id),
        ensures
            self.proposals()[id].approve + self.proposals()[id].reject + self.proposals()[id].pass
                == self.proposals()[id].voted.len(),
    {
        assert(self.entries().dom().contains(id));
    }

    /// Identifier freshness: no stored proposal sits above the counter,
    /// so every identifier the counter issues next is new.
    pub proof fn lemma_ids_below_counter(&self, id: u64)
        requires
            self.wf(),
            self.proposals().dom().contains(id),
        ensures
            1 <= id <= self.counter(),
    {
        assert(self.entries().dom().contains(id));
    }
}

} // verus!
