//! The proposal contract: the ledger entries of one invocation and the operations on them.
use vstd::prelude::*;
use std::collections::BTreeMap;
use crate::collections::{Address, AddressList, DelegationMap};
use crate::error::Error;
use crate::model::ContractState;
use crate::proposal::{
    Effect, Event, Invocation, Proposal, ProposalRecord, ProposalState, Terms,
};

verus! {

/// The ledger entries of the contract that an invocation touches, and what the contract has left
/// for the ledger to do. A refused operation changes neither.
pub struct ProposalContract {
    max_approvers: u32,
    count: Option<u64>,
    proposals: BTreeMap<u64, Proposal>,
    approvals: Vec<(u64, Address)>,
    delegations: Option<DelegationMap>,
    effects: Vec<Effect>,
}

impl View for ProposalContract {
    type V = ContractState;

    closed spec fn view(&self) -> ContractState {
        ContractState {
            max_approvers: self.max_approvers,
            count: self.count,
            proposals: self.proposals@.map_values(|p: Proposal| p@),
            approvals: self.approvals@.to_set(),
            delegations: match self.delegations {
                Some(m) => Some(m@),
                None => None,
            },
            effects: self.effects@,
        }
    }
}

impl ProposalContract {
    /// A contract of which the ledger holds nothing yet, and whose proposals may list
    /// `max_approvers` approvers.
    pub fn new(max_approvers: u32) -> (contract: ProposalContract)
        ensures
            contract@ == ContractState::blank(max_approvers),
    {
        let contract = ProposalContract {
            max_approvers,
            count: None,
            proposals: BTreeMap::new(),
            approvals: Vec::new(),
            delegations: None,
            effects: Vec::new(),
        };
        assert(contract@ =~= ContractState::blank(max_approvers));
        contract
    }

    /// Takes over the number of created proposals from the ledger.
    pub fn restore_count(&mut self, count: u64)
        ensures
            final(self)@ == (ContractState { count: Some(count), ..old(self)@ }),
    {
        self.count = Some(count);
    }

    /// Takes over a proposal from the ledger.
    pub fn restore_proposal(&mut self, id: u64, proposal: Proposal)
        ensures
            final(self)@ == (ContractState {
                proposals: old(self)@.proposals.insert(id, proposal@),
                ..old(self)@
            }),
    {
        let ghost record = proposal@;
        self.proposals.insert(id, proposal);
        assert(self@.proposals =~= old(self)@.proposals.insert(id, record));
    }

    /// Takes over from the ledger that `address` has approved the proposal of `id`.
    pub fn restore_approval(&mut self, id: u64, address: Address)
        ensures
            final(self)@ == (ContractState {
                approvals: old(self)@.approvals.insert((id, address)),
                ..old(self)@
            }),
    {
        self.record_approval(id, address);
    }

    /// Takes over the delegations from the ledger.
    pub fn restore_delegations(&mut self, delegations: DelegationMap)
        ensures
            final(self)@ == (ContractState {
                delegations: Some(delegations@),
                ..old(self)@
            }),
    {
        self.delegations = Some(delegations);
    }

    /// What is left for the ledger to do, in order.
    pub fn effects(&self) -> (effects: &Vec<Effect>)
        ensures
            effects@ == self@.effects,
    {
        &self.effects
    }

    /// Starts the id counter and the delegations. Refused once the counter is there.
    pub fn initialize(&mut self, env: &Invocation) -> (result: Result<(), Error>)
        ensures
            match result {
                Ok(()) => {
                    &&& old(self)@.initialize_refusal() is None
                    &&& final(self)@ == old(self)@.initialized()
                },
                Err(e) => {
                    &&& old(self)@.initialize_refusal() == Some(e)
                    &&& final(self)@ == old(self)@
                },
            },
    {
        if self.count.is_some() {
            return Err(Error::AlreadyInitialized);
        }
        self.count = Some(0);
        self.effects.push(Effect::StoreCount(0));
        self.delegations = Some(DelegationMap::new(&env.host));
        self.effects.push(Effect::StoreDelegations);
        self.effects.push(Effect::ExtendInstance);
        assert(self@ =~= old(self)@.initialized());
        Ok(())
    }

    /// Creates a proposal in the `Pending` state and returns its id. The allow-list of approvers
    /// must not be empty, and the threshold must lie within its size.
    pub fn create(
        &mut self,
        env: &Invocation,
        proposer: Address,
        org: Vec<u8>,
        wallet: Vec<u8>,
        policy: Vec<u8>,
        tx_ref: Vec<u8>,
        approvers: AddressList,
        threshold: u32,
        expires_at: u64,
    ) -> (result: Result<u64, Error>)
        requires
            env.authorizes(proposer),
        ensures
            ({
                let terms = Terms {
                    proposer,
                    org: org@,
                    wallet: wallet@,
                    policy: policy@,
                    tx_ref: tx_ref@,
                    approvers: approvers@,
                    threshold,
                    expires_at,
                };
                match result {
                    Ok(id) => {
                        &&& old(self)@.create_refusal(env.timestamp, terms) is None
                        &&& id == old(self)@.next_id()
                        &&& final(self)@ == old(self)@.created(terms)
                    },
                    Err(e) => {
                        &&& old(self)@.create_refusal(env.timestamp, terms) == Some(e)
                        &&& final(self)@ == old(self)@
                    },
                }
            }),
    {
        let ghost terms = Terms {
            proposer,
            org: org@,
            wallet: wallet@,
            policy: policy@,
            tx_ref: tx_ref@,
            approvers: approvers@,
            threshold,
            expires_at,
        };
        if org.len() == 0 {
            return Err(Error::InvalidInput);
        }
        let n = approvers.len();
        if n == 0 || n > self.max_approvers {
            return Err(Error::InvalidInput);
        }
        if threshold == 0 || threshold > n {
            return Err(Error::InvalidThreshold);
        }
        if expires_at != 0 && expires_at <= env.timestamp {
            return Err(Error::InvalidInput);
        }
        let count: u64 = match self.count {
            Some(count) => count,
            None => {
                return Err(Error::NotInitialized);
            },
        };
        let id: u64 = count.wrapping_add(1);
        let proposal = Proposal {
            proposer,
            org,
            wallet,
            policy,
            tx_ref,
            approvers,
            threshold,
            approvals: 0,
            state: ProposalState::Pending,
            expires_at,
        };
        self.store(id, proposal);
        self.count = Some(id);
        self.effects.push(Effect::StoreCount(id));
        self.effects.push(Effect::ExtendInstance);
        self.effects.push(Effect::Publish(Event::Created { id, proposer }));
        assert(self@ =~= old(self)@.created(terms));
        Ok(id)
    }

    /// Approves a proposal and returns its number of approvals. The caller must be on the
    /// allow-list and may approve once. The vote counts one, plus one for each other approver whose
    /// vote is forwarded to the caller; reaching the threshold moves the proposal to `Approved`.
    pub fn approve(&mut self, env: &Invocation, caller: Address, id: u64) -> (result: Result<
        u32,
        Error,
    >)
        requires
            env.authorizes(caller),
        ensures
            match result {
                Ok(approvals) => {
                    &&& old(self)@.approve_refusal(env.timestamp, caller, id) is None
                    &&& approvals == old(self)@.approvals_after(caller, id)
                    &&& final(self)@ == old(self)@.approved(caller, id)
                },
                Err(e) => {
                    &&& old(self)@.approve_refusal(env.timestamp, caller, id) == Some(e)
                    &&& final(self)@ == old(self)@
                },
            },
    {
        let mut proposal = match self.load(id) {
            Ok(proposal) => proposal,
            Err(e) => {
                return Err(e);
            },
        };
        if let Err(e) = Self::ensure_not_expired(env, &proposal) {
            return Err(e);
        }
        if proposal.state != ProposalState::Pending {
            return Err(Error::InvalidProposalState);
        }
        if !proposal.approvers.contains(caller) {
            return Err(Error::NotAnApprover);
        }
        if self.has_approved(id, caller) {
            return Err(Error::AlreadySigned);
        }
        let delegated: u32 = match self.load_delegations(env).count_delegated_votes(
            caller,
            &proposal.approvers,
        ) {
            Ok(delegated) => delegated,
            Err(e) => {
                return Err(e);
            },
        };
        let vote_weight: u32 = delegated.wrapping_add(1);
        let approvals: u32 = proposal.approvals.wrapping_add(vote_weight);
        assert(approvals == old(self)@.approvals_after(caller, id));
        proposal.approvals = approvals;
        if approvals >= proposal.threshold {
            proposal.state = ProposalState::Approved;
        }
        self.record_approval(id, caller);
        self.effects.push(Effect::StoreApproval(id, caller));
        self.store(id, proposal);
        self.effects.push(Effect::Publish(Event::Approved { id, caller, approvals }));
        assert(self@ =~= old(self)@.approved(caller, id));
        Ok(approvals)
    }

    /// Rejects a pending proposal. Any approver may.
    pub fn reject(&mut self, env: &Invocation, caller: Address, id: u64) -> (result: Result<
        (),
        Error,
    >)
        requires
            env.authorizes(caller),
        ensures
            match result {
                Ok(()) => {
                    &&& old(self)@.reject_refusal(caller, id) is None
                    &&& final(self)@ == old(self)@.rejected(caller, id)
                },
                Err(e) => {
                    &&& old(self)@.reject_refusal(caller, id) == Some(e)
                    &&& final(self)@ == old(self)@
                },
            },
    {
        let mut proposal = match self.load(id) {
            Ok(proposal) => proposal,
            Err(e) => {
                return Err(e);
            },
        };
        if proposal.state != ProposalState::Pending {
            return Err(Error::InvalidProposalState);
        }
        if !proposal.approvers.contains(caller) {
            return Err(Error::NotAnApprover);
        }
        proposal.state = ProposalState::Rejected;
        self.store(id, proposal);
        self.effects.push(Effect::Publish(Event::Rejected { id, caller }));
        assert(self@ =~= old(self)@.rejected(caller, id));
        Ok(())
    }

    /// Cancels a proposal. Only its proposer may, and only while it is pending or approved.
    pub fn cancel(&mut self, env: &Invocation, caller: Address, id: u64) -> (result: Result<
        (),
        Error,
    >)
        requires
            env.authorizes(caller),
        ensures
            match result {
                Ok(()) => {
                    &&& old(self)@.cancel_refusal(caller, id) is None
                    &&& final(self)@ == old(self)@.cancelled(id)
                },
                Err(e) => {
                    &&& old(self)@.cancel_refusal(caller, id) == Some(e)
                    &&& final(self)@ == old(self)@
                },
            },
    {
        let mut proposal = match self.load(id) {
            Ok(proposal) => proposal,
            Err(e) => {
                return Err(e);
            },
        };
        if caller != proposal.proposer {
            return Err(Error::Unauthorized);
        }
        match proposal.state {
            ProposalState::Executed
            | ProposalState::Closed
            | ProposalState::Cancelled
            | ProposalState::Rejected
            | ProposalState::Expired => {
                return Err(Error::InvalidProposalState);
            },
            _ => {},
        }
        proposal.state = ProposalState::Cancelled;
        self.store(id, proposal);
        self.effects.push(Effect::Publish(Event::Cancelled { id }));
        assert(self@ =~= old(self)@.cancelled(id));
        Ok(())
    }

    /// Marks a pending or approved proposal expired once its deadline has passed. Anybody may.
    pub fn expire(&mut self, env: &Invocation, id: u64) -> (result: Result<(), Error>)
        ensures
            match result {
                Ok(()) => {
                    &&& old(self)@.expire_refusal(env.timestamp, id) is None
                    &&& final(self)@ == old(self)@.expired(id)
                },
                Err(e) => {
                    &&& old(self)@.expire_refusal(env.timestamp, id) == Some(e)
                    &&& final(self)@ == old(self)@
                },
            },
    {
        let mut proposal = match self.load(id) {
            Ok(proposal) => proposal,
            Err(e) => {
                return Err(e);
            },
        };
        match proposal.state {
            ProposalState::Pending | ProposalState::Approved => {},
            _ => {
                return Err(Error::InvalidProposalState);
            },
        }
        if proposal.expires_at == 0 || env.timestamp < proposal.expires_at {
            return Err(Error::InvalidProposalState);
        }
        proposal.state = ProposalState::Expired;
        self.store(id, proposal);
        self.effects.push(Effect::Publish(Event::Expired { id }));
        assert(self@ =~= old(self)@.expired(id));
        Ok(())
    }

    /// Records that an approved proposal was carried out. Only its proposer may.
    pub fn execute(&mut self, env: &Invocation, caller: Address, id: u64) -> (result: Result<
        (),
        Error,
    >)
        requires
            env.authorizes(caller),
        ensures
            match result {
                Ok(()) => {
                    &&& old(self)@.execute_refusal(env.timestamp, caller, id) is None
                    &&& final(self)@ == old(self)@.executed(id)
                },
                Err(e) => {
                    &&& old(self)@.execute_refusal(env.timestamp, caller, id) == Some(e)
                    &&& final(self)@ == old(self)@
                },
            },
    {
        let mut proposal = match self.load(id) {
            Ok(proposal) => proposal,
            Err(e) => {
                return Err(e);
            },
        };
        if let Err(e) = Self::ensure_not_expired(env, &proposal) {
            return Err(e);
        }
        if caller != proposal.proposer {
            return Err(Error::Unauthorized);
        }
        if proposal.state != ProposalState::Approved {
            return Err(Error::ProposalNotApproved);
        }
        proposal.state = ProposalState::Executed;
        self.store(id, proposal);
        self.effects.push(Effect::Publish(Event::Executed { id }));
        assert(self@ =~= old(self)@.executed(id));
        Ok(())
    }

    /// Closes an executed proposal. Only its proposer may.
    pub fn close(&mut self, env: &Invocation, caller: Address, id: u64) -> (result: Result<
        (),
        Error,
    >)
        requires
            env.authorizes(caller),
        ensures
            match result {
                Ok(()) => {
                    &&& old(self)@.close_refusal(caller, id) is None
                    &&& final(self)@ == old(self)@.closed_up(id)
                },
                Err(e) => {
                    &&& old(self)@.close_refusal(caller, id) == Some(e)
                    &&& final(self)@ == old(self)@
                },
            },
    {
        let mut proposal = match self.load(id) {
            Ok(proposal) => proposal,
            Err(e) => {
                return Err(e);
            },
        };
        if caller != proposal.proposer {
            return Err(Error::Unauthorized);
        }
        if proposal.state != ProposalState::Executed {
            return Err(Error::InvalidProposalState);
        }
        proposal.state = ProposalState::Closed;
        self.store(id, proposal);
        self.effects.push(Effect::Publish(Event::Closed { id }));
        assert(self@ =~= old(self)@.closed_up(id));
        Ok(())
    }

    /// Why a delegation from `caller` to `delegatee` is refused, if it is: for going to the caller,
    /// for closing a cycle, or for making a chain longer than the maximum depth.
    pub fn delegation_refusal(
        &self,
        env: &Invocation,
        caller: Address,
        delegatee: Address,
    ) -> (refusal: Option<Error>)
        ensures
            refusal == self@.delegate_refusal(caller, delegatee),
    {
        if caller == delegatee {
            return Some(Error::InvalidInput);
        }
        let delegation_map = self.load_delegations(env);
        match delegation_map.would_create_cycle(caller, delegatee) {
            Ok(true) => Some(Error::CircularDelegation),
            Ok(false) => if delegation_map.would_outgrow_depth(caller, delegatee) {
                Some(Error::DelegationDepthExceeded)
            } else {
                None
            },
            Err(e) => Some(e),
        }
    }

    /// Forwards the vote of `caller` to `delegatee`, in place of any earlier delegatee. Refused
    /// where that would close a cycle, and where it would make a chain longer than the maximum
    /// depth. The host has room for `u32::MAX` delegations.
    pub fn delegate(
        &mut self,
        env: &Invocation,
        caller: Address,
        delegatee: Address,
    ) -> (result: Result<(), Error>)
        requires
            env.authorizes(caller),
            old(self)@.delegate_refusal(caller, delegatee) is Some
                || old(self)@.delegation_map().contains_key(caller)
                || old(self)@.delegation_map().len() < u32::MAX,
        ensures
            match result {
                Ok(()) => {
                    &&& old(self)@.delegate_refusal(caller, delegatee) is None
                    &&& final(self)@ == old(self)@.delegated(caller, delegatee)
                },
                Err(e) => {
                    &&& old(self)@.delegate_refusal(caller, delegatee) == Some(e)
                    &&& final(self)@ == old(self)@
                },
            },
    {
        if let Some(e) = self.delegation_refusal(env, caller, delegatee) {
            return Err(e);
        }
        let mut delegation_map = self.load_delegations(env);
        delegation_map.set(caller, delegatee);
        self.delegations = Some(delegation_map);
        self.effects.push(Effect::StoreDelegations);
        self.effects.push(Effect::ExtendInstance);
        self.effects.push(Effect::Publish(Event::Delegated { caller, delegatee }));
        assert(self@ =~= old(self)@.delegated(caller, delegatee));
        Ok(())
    }

    /// Takes the delegation of `caller` back.
    pub fn revoke_delegation(&mut self, env: &Invocation, caller: Address) -> (result: Result<
        (),
        Error,
    >)
        requires
            env.authorizes(caller),
        ensures
            match result {
                Ok(()) => {
                    &&& old(self)@.revoke_refusal(caller) is None
                    &&& final(self)@ == old(self)@.revoked(caller)
                },
                Err(e) => {
                    &&& old(self)@.revoke_refusal(caller) == Some(e)
                    &&& final(self)@ == old(self)@
                },
            },
    {
        let mut delegation_map = self.load_delegations(env);
        if !delegation_map.contains_key(caller) {
            return Err(Error::NotFound);
        }
        delegation_map.remove(caller);
        self.delegations = Some(delegation_map);
        self.effects.push(Effect::StoreDelegations);
        self.effects.push(Effect::Publish(Event::Undelegated { caller }));
        assert(self@ =~= old(self)@.revoked(caller));
        Ok(())
    }

    /// The delegatee of `delegator`, if there is one.
    pub fn get_delegation(&self, env: &Invocation, delegator: Address) -> (delegatee: Option<
        Address,
    >)
        ensures
            delegatee == self@.delegation_map().get(delegator),
    {
        self.load_delegations(env).get(delegator)
    }

    /// The number of votes whose chain of delegations ends at `addr`; zero where a chain is too long
    /// to tell.
    pub fn get_delegated_power(&self, env: &Invocation, addr: Address) -> (power: u32)
        ensures
            match self@.power(addr) {
                Ok(count) => power == count,
                Err(_) => power == 0,
            },
    {
        match self.load_delegations(env).count_delegated_power(addr) {
            Ok(count) => count,
            Err(_) => 0,
        }
    }

    /// The proposal of `id`.
    pub fn get(&self, id: u64) -> (result: Result<Proposal, Error>)
        ensures
            match result {
                Ok(proposal) => self@.proposals.contains_key(id) && proposal@
                    == self@.proposals[id],
                Err(e) => !self@.proposals.contains_key(id) && e == Error::NotFound,
            },
    {
        self.load(id)
    }

    /// The lifecycle state of the proposal of `id`.
    pub fn state(&self, id: u64) -> (result: Result<ProposalState, Error>)
        ensures
            match result {
                Ok(state) => self@.proposals.contains_key(id) && state
                    == self@.proposals[id].state,
                Err(e) => !self@.proposals.contains_key(id) && e == Error::NotFound,
            },
    {
        match self.load(id) {
            Ok(proposal) => Ok(proposal.state),
            Err(e) => Err(e),
        }
    }

    fn load(&self, id: u64) -> (result: Result<Proposal, Error>)
        ensures
            match result {
                Ok(proposal) => self@.proposals.contains_key(id) && proposal@
                    == self@.proposals[id],
                Err(e) => !self@.proposals.contains_key(id) && e == Error::NotFound,
            },
    {
        match self.proposals.get(&id) {
            Some(proposal) => Ok(proposal.clone()),
            None => Err(Error::NotFound),
        }
    }

    fn store(&mut self, id: u64, proposal: Proposal)
        ensures
            final(self)@ == (ContractState {
                proposals: old(self)@.proposals.insert(id, proposal@),
                ..old(self)@
            }).leaving(seq![Effect::StoreProposal(id), Effect::ExtendProposal(id)]),
    {
        let ghost record: ProposalRecord = proposal@;
        self.proposals.insert(id, proposal);
        self.effects.push(Effect::StoreProposal(id));
        self.bump(id);
        assert(self@.proposals =~= old(self)@.proposals.insert(id, record));
        assert(self@.effects =~= old(self)@.effects + seq![
            Effect::StoreProposal(id),
            Effect::ExtendProposal(id),
        ]);
    }

    /// Refuses with [`Error::ProposalExpired`] once the deadline has passed. The move to `Expired`
    /// is left to [`ProposalContract::expire`]: a refused operation records nothing.
    fn ensure_not_expired(env: &Invocation, proposal: &Proposal) -> (result: Result<(), Error>)
        ensures
            result == (if proposal@.past_deadline(env.timestamp) {
                Err::<(), Error>(Error::ProposalExpired)
            } else {
                Ok(())
            }),
    {
        if proposal.expires_at != 0 && env.timestamp >= proposal.expires_at {
            return Err(Error::ProposalExpired);
        }
        Ok(())
    }

    fn bump(&mut self, id: u64)
        ensures
            final(self)@ == old(self)@.leaving(seq![Effect::ExtendProposal(id)]),
    {
        self.effects.push(Effect::ExtendProposal(id));
        assert(self@ =~= old(self)@.leaving(seq![Effect::ExtendProposal(id)]));
    }

    fn load_delegations(&self, env: &Invocation) -> (m: DelegationMap)
        ensures
            m@ == self@.delegation_map(),
    {
        match &self.delegations {
            Some(m) => m.clone(),
            None => DelegationMap::new(&env.host),
        }
    }

    fn has_approved(&self, id: u64, address: Address) -> (found: bool)
        ensures
            found == self@.approvals.contains((id, address)),
    {
        let mut i: usize = 0;
        while i < self.approvals.len()
            invariant
                i <= self.approvals.len(),
                forall|j: int| 0 <= j < i ==> self.approvals@[j] != (id, address),
            decreases self.approvals.len() - i,
        {
            if self.approvals[i].0 == id && self.approvals[i].1 == address {
                assert(self.approvals@[i as int] == (id, address));
                return true;
            }
            i = i + 1;
        }
        false
    }

    fn record_approval(&mut self, id: u64, address: Address)
        ensures
            final(self)@ == (ContractState {
                approvals: old(self)@.approvals.insert((id, address)),
                ..old(self)@
            }),
    {
        let ghost before = self.approvals@;
        self.approvals.push((id, address));
        assert(self@.approvals =~= old(self)@.approvals.insert((id, address))) by {
            let after = before.push((id, address));
            assert forall|x: (u64, u64)|
                old(self)@.approvals.insert((id, address)).contains(x) implies after.contains(x) by {
                if x == (id, address) {
                    assert(after[before.len() as int] == x);
                } else {
                    let j = choose|j: int| 0 <= j < before.len() && before[j] == x;
                    assert(after[j] == x);
                }
            }
            assert forall|x: (u64, u64)| after.contains(x) implies old(self)@.approvals.insert(
                (id, address),
            ).contains(x) by {
                let j = choose|j: int| 0 <= j < after.len() && after[j] == x;
                if j < before.len() {
                    assert(before[j] == x);
                }
            }
        }
    }
}

} // verus!
