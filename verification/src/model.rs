//! The contract as mathematics: its state, the operations on it, when each is refused and with
//! which error, and what each does otherwise.
use vstd::prelude::*;
use crate::error::Error;
use crate::proposal::{Effect, Event, ProposalRecord, ProposalState, Terms};

verus! {

/// The ledger entries of the contract, and what it has left for the ledger to do.
#[verifier::ext_equal]
pub struct ContractState {
    /// How many approvers a proposal may list.
    pub max_approvers: u32,
    /// How many proposals were created; absent until the contract is initialized.
    pub count: Option<u64>,
    pub proposals: Map<u64, ProposalRecord>,
    /// The pairs of a proposal and an address that has approved it.
    pub approvals: Set<(u64, u64)>,
    /// From delegator to delegatee; absent until the contract writes it for the first time.
    pub delegations: Option<Map<u64, u64>>,
    pub effects: Seq<Effect>,
}

/// The operations that change the state.
pub enum Operation {
    Initialize,
    Create { terms: Terms },
    Approve { caller: u64, id: u64 },
    Reject { caller: u64, id: u64 },
    Cancel { caller: u64, id: u64 },
    Expire { id: u64 },
    Execute { caller: u64, id: u64 },
    Close { caller: u64, id: u64 },
    Delegate { caller: u64, delegatee: u64 },
    RevokeDelegation { caller: u64 },
}

/// The number of approvals after a vote that carries `power` forwarded votes: the votes are added
/// up in 32 bits, so that the sum starts over at zero past `u32::MAX`.
pub open spec fn tally(approvals: u32, power: nat) -> u32 {
    ((approvals + 1 + power) % 0x1_0000_0000) as u32
}

impl ContractState {
    /// The state of a contract of which the ledger holds nothing yet.
    pub open spec fn blank(max_approvers: u32) -> ContractState {
        ContractState {
            max_approvers,
            count: None,
            proposals: Map::empty(),
            approvals: Set::empty(),
            delegations: None,
            effects: Seq::empty(),
        }
    }

    /// The delegations, none where the contract has not written any.
    pub open spec fn delegation_map(self) -> Map<u64, u64> {
        match self.delegations {
            Some(m) => m,
            None => Map::empty(),
        }
    }

    /// The votes that are forwarded to `addr`.
    pub open spec fn power(self, addr: u64) -> Result<nat, Error> {
        crate::delegation::delegated_power(self.delegation_map(), addr)
    }

    /// The votes that the approvers of the proposal of `id` forward to `caller`.
    pub open spec fn votes(self, caller: u64, id: u64) -> Result<nat, Error> {
        crate::delegation::delegated_votes(
            self.delegation_map(),
            caller,
            self.proposals[id].terms.approvers,
        )
    }

    /// The id of the next proposal: ids count up from one, in 64 bits.
    pub open spec fn next_id(self) -> u64 {
        match self.count {
            Some(count) => ((count + 1) % 0x1_0000_0000_0000_0000) as u64,
            None => 1,
        }
    }

    /// The state with more left for the ledger to do.
    pub open spec fn leaving(self, effects: Seq<Effect>) -> ContractState {
        ContractState { effects: self.effects + effects, ..self }
    }

    /// The state with the proposal of `id` replaced, written, extended and announced.
    pub open spec fn storing(self, id: u64, record: ProposalRecord, event: Event) -> ContractState {
        ContractState { proposals: self.proposals.insert(id, record), ..self }.leaving(
            seq![Effect::StoreProposal(id), Effect::ExtendProposal(id), Effect::Publish(event)],
        )
    }

    /// The state with the proposal of `id` moved to `to`.
    pub open spec fn moving(self, id: u64, to: ProposalState, event: Event) -> ContractState {
        self.storing(id, ProposalRecord { state: to, ..self.proposals[id] }, event)
    }

    /// Why `initialize` is refused, if it is.
    pub open spec fn initialize_refusal(self) -> Option<Error> {
        if self.count is Some {
            Some(Error::AlreadyInitialized)
        } else {
            None
        }
    }

    /// The state after `initialize`.
    pub open spec fn initialized(self) -> ContractState {
        ContractState { count: Some(0), delegations: Some(Map::empty()), ..self }.leaving(
            seq![Effect::StoreCount(0), Effect::StoreDelegations, Effect::ExtendInstance],
        )
    }

    /// Why `create` is refused, if it is.
    pub open spec fn create_refusal(self, now: u64, terms: Terms) -> Option<Error> {
        if terms.org.len() == 0 {
            Some(Error::InvalidInput)
        } else if terms.approvers.len() == 0 || terms.approvers.len() > self.max_approvers {
            Some(Error::InvalidInput)
        } else if terms.threshold == 0 || terms.threshold > terms.approvers.len() {
            Some(Error::InvalidThreshold)
        } else if terms.expires_at != 0 && terms.expires_at <= now {
            Some(Error::InvalidInput)
        } else if self.count is None {
            Some(Error::NotInitialized)
        } else {
            None
        }
    }

    /// The state after `create`.
    pub open spec fn created(self, terms: Terms) -> ContractState {
        let id = self.next_id();
        let record = ProposalRecord { terms, approvals: 0, state: ProposalState::Pending };
        ContractState {
            count: Some(id),
            proposals: self.proposals.insert(id, record),
            ..self
        }.leaving(
            seq![
                Effect::StoreProposal(id),
                Effect::ExtendProposal(id),
                Effect::StoreCount(id),
                Effect::ExtendInstance,
                Effect::Publish(Event::Created { id, proposer: terms.proposer }),
            ],
        )
    }

    /// Why `approve` is refused, if it is.
    pub open spec fn approve_refusal(self, now: u64, caller: u64, id: u64) -> Option<Error> {
        if !self.proposals.contains_key(id) {
            Some(Error::NotFound)
        } else if self.proposals[id].past_deadline(now) {
            Some(Error::ProposalExpired)
        } else if self.proposals[id].state != ProposalState::Pending {
            Some(Error::InvalidProposalState)
        } else if !self.proposals[id].terms.approvers.contains(caller) {
            Some(Error::NotAnApprover)
        } else if self.approvals.contains((id, caller)) {
            Some(Error::AlreadySigned)
        } else {
            match self.votes(caller, id) {
                Ok(_) => None,
                Err(e) => Some(e),
            }
        }
    }

    /// The number of approvals after `approve`.
    pub open spec fn approvals_after(self, caller: u64, id: u64) -> u32 {
        tally(self.proposals[id].approvals, self.votes(caller, id)->Ok_0)
    }

    /// The state after `approve`.
    pub open spec fn approved(self, caller: u64, id: u64) -> ContractState {
        let record = self.proposals[id];
        let approvals = self.approvals_after(caller, id);
        let state = if approvals >= record.terms.threshold {
            ProposalState::Approved
        } else {
            record.state
        };
        ContractState { approvals: self.approvals.insert((id, caller)), ..self }.leaving(
            seq![Effect::StoreApproval(id, caller)],
        ).storing(
            id,
            ProposalRecord { approvals, state, ..record },
            Event::Approved { id, caller, approvals },
        )
    }

    /// Why `reject` is refused, if it is.
    pub open spec fn reject_refusal(self, caller: u64, id: u64) -> Option<Error> {
        if !self.proposals.contains_key(id) {
            Some(Error::NotFound)
        } else if self.proposals[id].state != ProposalState::Pending {
            Some(Error::InvalidProposalState)
        } else if !self.proposals[id].terms.approvers.contains(caller) {
            Some(Error::NotAnApprover)
        } else {
            None
        }
    }

    /// The state after `reject`.
    pub open spec fn rejected(self, caller: u64, id: u64) -> ContractState {
        self.moving(id, ProposalState::Rejected, Event::Rejected { id, caller })
    }

    /// Why `cancel` is refused, if it is.
    pub open spec fn cancel_refusal(self, caller: u64, id: u64) -> Option<Error> {
        if !self.proposals.contains_key(id) {
            Some(Error::NotFound)
        } else if caller != self.proposals[id].terms.proposer {
            Some(Error::Unauthorized)
        } else if self.proposals[id].state == ProposalState::Executed || self.proposals[id].state
            == ProposalState::Closed || self.proposals[id].state == ProposalState::Cancelled
            || self.proposals[id].state == ProposalState::Rejected || self.proposals[id].state
            == ProposalState::Expired {
            Some(Error::InvalidProposalState)
        } else {
            None
        }
    }

    /// The state after `cancel`.
    pub open spec fn cancelled(self, id: u64) -> ContractState {
        self.moving(id, ProposalState::Cancelled, Event::Cancelled { id })
    }

    /// Why `expire` is refused, if it is.
    pub open spec fn expire_refusal(self, now: u64, id: u64) -> Option<Error> {
        if !self.proposals.contains_key(id) {
            Some(Error::NotFound)
        } else if self.proposals[id].state != ProposalState::Pending && self.proposals[id].state
            != ProposalState::Approved {
            Some(Error::InvalidProposalState)
        } else if !self.proposals[id].past_deadline(now) {
            Some(Error::InvalidProposalState)
        } else {
            None
        }
    }

    /// The state after `expire`.
    pub open spec fn expired(self, id: u64) -> ContractState {
        self.moving(id, ProposalState::Expired, Event::Expired { id })
    }

    /// Why `execute` is refused, if it is.
    pub open spec fn execute_refusal(self, now: u64, caller: u64, id: u64) -> Option<Error> {
        if !self.proposals.contains_key(id) {
            Some(Error::NotFound)
        } else if self.proposals[id].past_deadline(now) {
            Some(Error::ProposalExpired)
        } else if caller != self.proposals[id].terms.proposer {
            Some(Error::Unauthorized)
        } else if self.proposals[id].state != ProposalState::Approved {
            Some(Error::ProposalNotApproved)
        } else {
            None
        }
    }

    /// The state after `execute`.
    pub open spec fn executed(self, id: u64) -> ContractState {
        self.moving(id, ProposalState::Executed, Event::Executed { id })
    }

    /// Why `close` is refused, if it is.
    pub open spec fn close_refusal(self, caller: u64, id: u64) -> Option<Error> {
        if !self.proposals.contains_key(id) {
            Some(Error::NotFound)
        } else if caller != self.proposals[id].terms.proposer {
            Some(Error::Unauthorized)
        } else if self.proposals[id].state != ProposalState::Executed {
            Some(Error::InvalidProposalState)
        } else {
            None
        }
    }

    /// The state after `close`.
    pub open spec fn closed_up(self, id: u64) -> ContractState {
        self.moving(id, ProposalState::Closed, Event::Closed { id })
    }

    /// Why `delegate` is refused, if it is.
    pub open spec fn delegate_refusal(self, caller: u64, delegatee: u64) -> Option<Error> {
        if caller == delegatee {
            Some(Error::InvalidInput)
        } else {
            match crate::delegation::cycle_verdict(self.delegation_map(), caller, delegatee) {
                Ok(true) => Some(Error::CircularDelegation),
                Ok(false) => if crate::delegation::outgrows(
                    self.delegation_map(),
                    caller,
                    delegatee,
                ) {
                    Some(Error::DelegationDepthExceeded)
                } else {
                    None
                },
                Err(e) => Some(e),
            }
        }
    }

    /// The state after `delegate`.
    pub open spec fn delegated(self, caller: u64, delegatee: u64) -> ContractState {
        ContractState {
            delegations: Some(self.delegation_map().insert(caller, delegatee)),
            ..self
        }.leaving(
            seq![
                Effect::StoreDelegations,
                Effect::ExtendInstance,
                Effect::Publish(Event::Delegated { caller, delegatee }),
            ],
        )
    }

    /// Why `revoke_delegation` is refused, if it is.
    pub open spec fn revoke_refusal(self, caller: u64) -> Option<Error> {
        if self.delegation_map().contains_key(caller) {
            None
        } else {
            Some(Error::NotFound)
        }
    }

    /// The state after `revoke_delegation`.
    pub open spec fn revoked(self, caller: u64) -> ContractState {
        ContractState { delegations: Some(self.delegation_map().remove(caller)), ..self }.leaving(
            seq![Effect::StoreDelegations, Effect::Publish(Event::Undelegated { caller })],
        )
    }

    /// Why an operation is refused at ledger time `now`, if it is.
    pub open spec fn refusal(self, now: u64, op: Operation) -> Option<Error> {
        match op {
            Operation::Initialize => self.initialize_refusal(),
            Operation::Create { terms } => self.create_refusal(now, terms),
            Operation::Approve { caller, id } => self.approve_refusal(now, caller, id),
            Operation::Reject { caller, id } => self.reject_refusal(caller, id),
            Operation::Cancel { caller, id } => self.cancel_refusal(caller, id),
            Operation::Expire { id } => self.expire_refusal(now, id),
            Operation::Execute { caller, id } => self.execute_refusal(now, caller, id),
            Operation::Close { caller, id } => self.close_refusal(caller, id),
            Operation::Delegate { caller, delegatee } => self.delegate_refusal(caller, delegatee),
            Operation::RevokeDelegation { caller } => self.revoke_refusal(caller),
        }
    }

    /// The state after an operation that is not refused.
    pub open spec fn applied(self, op: Operation) -> ContractState {
        match op {
            Operation::Initialize => self.initialized(),
            Operation::Create { terms } => self.created(terms),
            Operation::Approve { caller, id } => self.approved(caller, id),
            Operation::Reject { caller, id } => self.rejected(caller, id),
            Operation::Cancel { caller, id } => self.cancelled(id),
            Operation::Expire { id } => self.expired(id),
            Operation::Execute { caller, id } => self.executed(id),
            Operation::Close { caller, id } => self.closed_up(id),
            Operation::Delegate { caller, delegatee } => self.delegated(caller, delegatee),
            Operation::RevokeDelegation { caller } => self.revoked(caller),
        }
    }

    /// The state after an operation at ledger time `now`: a refused one changes nothing.
    pub open spec fn next(self, now: u64, op: Operation) -> ContractState {
        if self.refusal(now, op) is None {
            self.applied(op)
        } else {
            self
        }
    }
}

} // verus!
