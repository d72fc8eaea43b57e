//! A proposal and its lifecycle states, what an invocation brings with it, and what it leaves
//! for the ledger to do.
use vstd::prelude::*;
use crate::collections::{Address, AddressList};

verus! {

/// Where a proposal stands in its lifecycle.
#[derive(Clone, Copy, Debug, PartialEq, Eq, Structural)]
pub enum ProposalState {
    Created,
    Pending,
    Approved,
    Executed,
    Closed,
    Rejected,
    Cancelled,
    Expired,
}

impl ProposalState {
    /// The number that stands for this state outside the contract.
    pub open spec fn spec_code(self) -> u32 {
        match self {
            ProposalState::Created => 0,
            ProposalState::Pending => 1,
            ProposalState::Approved => 2,
            ProposalState::Executed => 3,
            ProposalState::Closed => 4,
            ProposalState::Rejected => 5,
            ProposalState::Cancelled => 6,
            ProposalState::Expired => 7,
        }
    }

    /// The number that stands for this state outside the contract.
    pub fn code(self) -> (code: u32)
        ensures
            code == self.spec_code(),
    {
        match self {
            ProposalState::Created => 0,
            ProposalState::Pending => 1,
            ProposalState::Approved => 2,
            ProposalState::Executed => 3,
            ProposalState::Closed => 4,
            ProposalState::Rejected => 5,
            ProposalState::Cancelled => 6,
            ProposalState::Expired => 7,
        }
    }
}

/// An action that awaits approval. `approvers` may approve it; `threshold` approvals move it to
/// `Approved`. The texts are byte strings that the contract stores and does not interpret.
#[derive(Debug, PartialEq, Eq)]
pub struct Proposal {
    pub proposer: Address,
    pub org: Vec<u8>,
    pub wallet: Vec<u8>,
    pub policy: Vec<u8>,
    pub tx_ref: Vec<u8>,
    pub approvers: AddressList,
    pub threshold: u32,
    pub approvals: u32,
    pub state: ProposalState,
    /// The ledger time from which the proposal counts as expired; zero for never.
    pub expires_at: u64,
}

/// What a proposal is created with.
#[verifier::ext_equal]
pub struct Terms {
    pub proposer: u64,
    pub org: Seq<u8>,
    pub wallet: Seq<u8>,
    pub policy: Seq<u8>,
    pub tx_ref: Seq<u8>,
    pub approvers: Seq<u64>,
    pub threshold: u32,
    pub expires_at: u64,
}

/// The mathematical content of a [`Proposal`].
#[verifier::ext_equal]
pub struct ProposalRecord {
    pub terms: Terms,
    pub approvals: u32,
    pub state: ProposalState,
}

impl ProposalRecord {
    /// Whether the deadline has passed at ledger time `now`.
    pub open spec fn past_deadline(self, now: u64) -> bool {
        self.terms.expires_at != 0 && now >= self.terms.expires_at
    }
}

impl View for Proposal {
    type V = ProposalRecord;

    open spec fn view(&self) -> ProposalRecord {
        ProposalRecord {
            terms: Terms {
                proposer: self.proposer,
                org: self.org@,
                wallet: self.wallet@,
                policy: self.policy@,
                tx_ref: self.tx_ref@,
                approvers: self.approvers@,
                threshold: self.threshold,
                expires_at: self.expires_at,
            },
            approvals: self.approvals,
            state: self.state,
        }
    }
}

impl Clone for Proposal {
    fn clone(&self) -> (copy: Proposal)
        ensures
            copy@ == self@,
    {
        let copy = Proposal {
            proposer: self.proposer,
            org: self.org.clone(),
            wallet: self.wallet.clone(),
            policy: self.policy.clone(),
            tx_ref: self.tx_ref.clone(),
            approvers: self.approvers.clone(),
            threshold: self.threshold,
            approvals: self.approvals,
            state: self.state,
            expires_at: self.expires_at,
        };
        assert(copy@ =~= self@);
        copy
    }
}

/// What an invocation of the contract brings with it.
pub struct Invocation {
    /// The handle to the host, whose map and vector the contract uses.
    pub host: soroban_sdk::Env,
    /// The time of the ledger that the invocation runs in.
    pub timestamp: u64,
    /// The addresses that authorized the invocation, as the host has checked.
    pub authorized: Vec<Address>,
}

impl Invocation {
    /// Whether `address` authorized the invocation.
    pub open spec fn authorizes(self, address: u64) -> bool {
        self.authorized@.contains(address)
    }
}

/// What the contract announces off the chain.
#[derive(Clone, Copy, Debug, PartialEq, Eq, Structural)]
pub enum Event {
    Created { id: u64, proposer: Address },
    Approved { id: u64, caller: Address, approvals: u32 },
    Rejected { id: u64, caller: Address },
    Cancelled { id: u64 },
    Expired { id: u64 },
    Executed { id: u64 },
    Closed { id: u64 },
    Delegated { caller: Address, delegatee: Address },
    Undelegated { caller: Address },
}

impl Event {
    /// The second topic under which the event is published; the first is always `proposal`.
    pub open spec fn spec_topic(self) -> Seq<char> {
        match self {
            Event::Created { .. } => "created"@,
            Event::Approved { .. } => "approved"@,
            Event::Rejected { .. } => "rejected"@,
            Event::Cancelled { .. } => "cancelled"@,
            Event::Expired { .. } => "expired"@,
            Event::Executed { .. } => "executed"@,
            Event::Closed { .. } => "closed"@,
            Event::Delegated { .. } => "delegated"@,
            Event::Undelegated { .. } => "undeleg"@,
        }
    }

    /// The second topic under which the event is published; the first is always `proposal`.
    pub fn topic(&self) -> (topic: &'static str)
        ensures
            topic@ == self.spec_topic(),
    {
        match self {
            Event::Created { .. } => "created",
            Event::Approved { .. } => "approved",
            Event::Rejected { .. } => "rejected",
            Event::Cancelled { .. } => "cancelled",
            Event::Expired { .. } => "expired",
            Event::Executed { .. } => "executed",
            Event::Closed { .. } => "closed",
            Event::Delegated { .. } => "delegated",
            Event::Undelegated { .. } => "undeleg",
        }
    }
}

/// What the contract leaves for the ledger to do, in the order in which it is to be done.
#[derive(Clone, Copy, Debug, PartialEq, Eq, Structural)]
pub enum Effect {
    /// Write the number of proposals that were created.
    StoreCount(u64),
    /// Write the proposal of this id.
    StoreProposal(u64),
    /// Write that this address has approved the proposal of this id.
    StoreApproval(u64, Address),
    /// Write the delegations.
    StoreDelegations,
    /// Extend the lifetime of the entries that the contract instance holds.
    ExtendInstance,
    /// Extend the lifetime of the proposal of this id.
    ExtendProposal(u64),
    /// Publish an event.
    Publish(Event),
}

} // verus!
