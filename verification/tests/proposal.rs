use astroid_proposal::collections::{Address, AddressList, DelegationMap};
use astroid_proposal::contract::ProposalContract;
use astroid_proposal::error::Error;
use astroid_proposal::proposal::{Effect, Event, Invocation, Proposal, ProposalState};
use soroban_sdk::Env;

struct Harness {
    env: Env,
    now: u64,
    contract: ProposalContract,
    proposer: Address,
    approvers: Vec<Address>,
    next_address: Address,
}

impl Harness {
    /// An invocation that `caller` has authorized.
    fn by(&self, caller: Address) -> Invocation {
        Invocation { host: self.env.clone(), timestamp: self.now, authorized: vec![caller] }
    }

    /// An invocation that nobody has authorized.
    fn by_anyone(&self) -> Invocation {
        Invocation { host: self.env.clone(), timestamp: self.now, authorized: vec![] }
    }

    fn new_address(&mut self) -> Address {
        self.next_address += 1;
        self.next_address
    }

    fn approver_list(&self) -> AddressList {
        AddressList::from_slice(&self.env, &self.approvers)
    }

    fn try_create(&mut self, org: &str, threshold: u32, expires_at: u64) -> Result<u64, Error> {
        let env = self.by(self.proposer);
        let approvers = self.approver_list();
        self.contract.create(
            &env,
            self.proposer,
            org.as_bytes().to_vec(),
            "wallet-1".as_bytes().to_vec(),
            "policy-1".as_bytes().to_vec(),
            "tx-ref-1".as_bytes().to_vec(),
            approvers,
            threshold,
            expires_at,
        )
    }

    fn create(&mut self, threshold: u32, expires_at: u64) -> u64 {
        self.try_create("acme", threshold, expires_at).unwrap()
    }

    fn approve(&mut self, caller: Address, id: u64) -> Result<u32, Error> {
        let env = self.by(caller);
        self.contract.approve(&env, caller, id)
    }

    fn reject(&mut self, caller: Address, id: u64) -> Result<(), Error> {
        let env = self.by(caller);
        self.contract.reject(&env, caller, id)
    }

    fn cancel(&mut self, caller: Address, id: u64) -> Result<(), Error> {
        let env = self.by(caller);
        self.contract.cancel(&env, caller, id)
    }

    fn expire(&mut self, id: u64) -> Result<(), Error> {
        let env = self.by_anyone();
        self.contract.expire(&env, id)
    }

    fn execute(&mut self, caller: Address, id: u64) -> Result<(), Error> {
        let env = self.by(caller);
        self.contract.execute(&env, caller, id)
    }

    fn close(&mut self, caller: Address, id: u64) -> Result<(), Error> {
        let env = self.by(caller);
        self.contract.close(&env, caller, id)
    }

    fn delegate(&mut self, caller: Address, delegatee: Address) -> Result<(), Error> {
        let env = self.by(caller);
        self.contract.delegate(&env, caller, delegatee)
    }

    fn revoke_delegation(&mut self, caller: Address) -> Result<(), Error> {
        let env = self.by(caller);
        self.contract.revoke_delegation(&env, caller)
    }

    fn get_delegation(&self, delegator: Address) -> Option<Address> {
        self.contract.get_delegation(&self.by_anyone(), delegator)
    }

    fn power(&self, addr: Address) -> u32 {
        self.contract.get_delegated_power(&self.by_anyone(), addr)
    }

    fn state(&self, id: u64) -> ProposalState {
        self.contract.state(id).unwrap()
    }

    fn effects(&self) -> Vec<Effect> {
        self.contract.effects().clone()
    }
}

fn blank(num_approvers: u32) -> Harness {
    let mut h = Harness {
        env: Env::default(),
        now: 1_000,
        contract: ProposalContract::new(20),
        proposer: 0,
        approvers: Vec::new(),
        next_address: 100,
    };
    h.proposer = h.new_address();
    for _ in 0..num_approvers {
        let approver = h.new_address();
        h.approvers.push(approver);
    }
    h
}

fn setup(num_approvers: u32) -> Harness {
    let mut h = blank(num_approvers);
    let env = h.by_anyone();
    h.contract.initialize(&env).unwrap();
    h
}

// The lifecycle.

#[test]
fn create_starts_pending() {
    let mut h = setup(3);
    let id = h.create(2, 5_000);
    assert_eq!(h.state(id), ProposalState::Pending);
}

#[test]
fn full_lifecycle_to_closed() {
    let mut h = setup(3);
    let id = h.create(2, 5_000);
    h.approve(h.approvers[0], id).unwrap();
    let approvals = h.approve(h.approvers[1], id).unwrap();
    assert_eq!(approvals, 2);
    assert_eq!(h.state(id), ProposalState::Approved);

    h.execute(h.proposer, id).unwrap();
    assert_eq!(h.state(id), ProposalState::Executed);

    h.close(h.proposer, id).unwrap();
    assert_eq!(h.state(id), ProposalState::Closed);
}

#[test]
fn execute_before_approved_fails() {
    let mut h = setup(3);
    let id = h.create(2, 5_000);
    h.approve(h.approvers[0], id).unwrap(); // only 1 of 2
    let res = h.execute(h.proposer, id);
    assert_eq!(res, Err(Error::ProposalNotApproved));
}

#[test]
fn non_approver_cannot_approve() {
    let mut h = setup(3);
    let id = h.create(2, 5_000);
    let stranger = h.new_address();
    let res = h.approve(stranger, id);
    assert_eq!(res, Err(Error::NotAnApprover));
}

#[test]
fn double_approval_rejected() {
    let mut h = setup(3);
    let id = h.create(2, 5_000);
    h.approve(h.approvers[0], id).unwrap();
    let res = h.approve(h.approvers[0], id);
    assert_eq!(res, Err(Error::AlreadySigned));
}

#[test]
fn reject_moves_to_rejected() {
    let mut h = setup(3);
    let id = h.create(2, 5_000);
    h.reject(h.approvers[0], id).unwrap();
    assert_eq!(h.state(id), ProposalState::Rejected);
    // Cannot approve a rejected proposal.
    let res = h.approve(h.approvers[1], id);
    assert_eq!(res, Err(Error::InvalidProposalState));
}

#[test]
fn only_proposer_can_cancel() {
    let mut h = setup(3);
    let id = h.create(2, 5_000);
    let res = h.cancel(h.approvers[0], id);
    assert_eq!(res, Err(Error::Unauthorized));
    h.cancel(h.proposer, id).unwrap();
    assert_eq!(h.state(id), ProposalState::Cancelled);
}

#[test]
fn expired_proposal_cannot_be_approved() {
    let mut h = setup(3);
    let id = h.create(2, 5_000);
    // Advance beyond expiry.
    h.now = 6_000;
    let res = h.approve(h.approvers[0], id);
    assert_eq!(res, Err(Error::ProposalExpired));
    // The refused approval records nothing, so the proposal is still pending until it is marked
    // expired.
    assert_eq!(h.state(id), ProposalState::Pending);
    h.expire(id).unwrap();
    assert_eq!(h.state(id), ProposalState::Expired);
}

#[test]
fn explicit_expire_transition() {
    let mut h = setup(3);
    let id = h.create(2, 5_000);
    // Cannot expire before deadline.
    let early = h.expire(id);
    assert_eq!(early, Err(Error::InvalidProposalState));
    h.now = 6_000;
    h.expire(id).unwrap();
    assert_eq!(h.state(id), ProposalState::Expired);
}

#[test]
fn create_with_bad_threshold_fails() {
    let mut h = setup(2);
    // threshold 3 > 2 approvers
    let res = h.try_create("acme", 3, 5_000);
    assert_eq!(res, Err(Error::InvalidThreshold));
}

#[test]
fn create_with_past_expiry_fails() {
    let mut h = setup(2);
    let res = h.try_create("acme", 1, 500); // in the past (now = 1000)
    assert_eq!(res, Err(Error::InvalidInput));
}

// Delegation.

#[test]
fn delegate_sets_delegation() {
    let mut h = setup(3);
    let delegator = h.approvers[0];
    let delegatee = h.approvers[1];
    h.delegate(delegator, delegatee).unwrap();
    assert_eq!(h.get_delegation(delegator), Some(delegatee));
}

#[test]
fn delegate_self_fails() {
    let mut h = setup(3);
    let delegator = h.approvers[0];
    let res = h.delegate(delegator, delegator);
    assert_eq!(res, Err(Error::InvalidInput));
}

#[test]
fn delegate_circular_direct_rejected() {
    let mut h = setup(3);
    let a = h.approvers[0];
    let b = h.approvers[1];
    // A delegates to B
    h.delegate(a, b).unwrap();
    // B tries to delegate to A: a cycle
    let res = h.delegate(b, a);
    assert_eq!(res, Err(Error::CircularDelegation));
}

#[test]
fn delegate_circular_transitive_rejected() {
    let mut h = setup(4);
    let a = h.approvers[0];
    let b = h.approvers[1];
    let c = h.approvers[2];
    // A to B to C
    h.delegate(a, b).unwrap();
    h.delegate(b, c).unwrap();
    // C tries to delegate to A: a cycle over all three
    let res = h.delegate(c, a);
    assert_eq!(res, Err(Error::CircularDelegation));
}

#[test]
fn revoke_delegation_succeeds() {
    let mut h = setup(3);
    let delegator = h.approvers[0];
    let delegatee = h.approvers[1];
    h.delegate(delegator, delegatee).unwrap();
    assert_eq!(h.get_delegation(delegator), Some(delegatee));
    h.revoke_delegation(delegator).unwrap();
    assert_eq!(h.get_delegation(delegator), None);
}

#[test]
fn revoke_nonexistent_delegation_fails() {
    let mut h = setup(3);
    let delegator = h.approvers[0];
    let res = h.revoke_delegation(delegator);
    assert_eq!(res, Err(Error::NotFound));
}

#[test]
fn delegated_vote_increases_approval_count() {
    let mut h = setup(3);
    let id = h.create(3, 5_000); // threshold = 3
    // Approver 0 delegates to approver 1
    h.delegate(h.approvers[0], h.approvers[1]).unwrap();
    // Approver 1 approves: 1 direct + 1 delegated = 2 votes
    let approvals = h.approve(h.approvers[1], id).unwrap();
    assert_eq!(approvals, 2);
    // Approver 2 approves: 2 + 1 = 3, threshold met
    let approvals = h.approve(h.approvers[2], id).unwrap();
    assert_eq!(approvals, 3);
    assert_eq!(h.state(id), ProposalState::Approved);
}

#[test]
fn delegated_vote_reaches_threshold_early() {
    let mut h = setup(3);
    let id = h.create(2, 5_000); // threshold = 2
    // Approver 0 delegates to approver 1
    h.delegate(h.approvers[0], h.approvers[1]).unwrap();
    // Approver 1 approves: 1 direct + 1 delegated = 2, threshold met
    let approvals = h.approve(h.approvers[1], id).unwrap();
    assert_eq!(approvals, 2);
    assert_eq!(h.state(id), ProposalState::Approved);
}

#[test]
fn transitive_delegation_resolves() {
    let mut h = setup(4);
    let id = h.create(3, 5_000); // threshold = 3
    // A to B to C (A delegates through B to C)
    h.delegate(h.approvers[0], h.approvers[1]).unwrap();
    h.delegate(h.approvers[1], h.approvers[2]).unwrap();
    // C approves: 1 direct + 2 delegated (A and B both chain to C) = 3
    let approvals = h.approve(h.approvers[2], id).unwrap();
    assert_eq!(approvals, 3);
    assert_eq!(h.state(id), ProposalState::Approved);
}

#[test]
fn delegated_power_view() {
    let mut h = setup(3);
    // Approver 0 delegates to approver 1
    h.delegate(h.approvers[0], h.approvers[1]).unwrap();
    assert_eq!(h.power(h.approvers[1]), 1);
    assert_eq!(h.power(h.approvers[0]), 0);
    assert_eq!(h.power(h.approvers[2]), 0);
}

#[test]
fn revoked_delegation_not_counted() {
    let mut h = setup(3);
    let id = h.create(3, 5_000);
    // Approver 0 delegates to approver 1, then revokes
    h.delegate(h.approvers[0], h.approvers[1]).unwrap();
    h.revoke_delegation(h.approvers[0]).unwrap();
    // Approver 1 approves: only 1 direct vote (delegation revoked)
    let approvals = h.approve(h.approvers[1], id).unwrap();
    assert_eq!(approvals, 1);
    assert_eq!(h.state(id), ProposalState::Pending);
}

#[test]
fn replace_delegation_updates_power() {
    let mut h = setup(4);
    // Approver 0 delegates to approver 1
    h.delegate(h.approvers[0], h.approvers[1]).unwrap();
    assert_eq!(h.power(h.approvers[1]), 1);
    // Approver 0 re-delegates to approver 2
    h.delegate(h.approvers[0], h.approvers[2]).unwrap();
    assert_eq!(h.power(h.approvers[1]), 0);
    assert_eq!(h.power(h.approvers[2]), 1);
}

#[test]
fn multiple_delegators_same_delegatee() {
    let mut h = setup(4);
    let id = h.create(4, 5_000); // threshold = 4
    // Approver 0 and 1 both delegate to approver 2
    h.delegate(h.approvers[0], h.approvers[2]).unwrap();
    h.delegate(h.approvers[1], h.approvers[2]).unwrap();
    assert_eq!(h.power(h.approvers[2]), 2);
    // Approver 2 approves: 1 direct + 2 delegated = 3
    let approvals = h.approve(h.approvers[2], id).unwrap();
    assert_eq!(approvals, 3);
    // Approver 3 approves: 3 + 1 = 4, threshold met
    let approvals = h.approve(h.approvers[3], id).unwrap();
    assert_eq!(approvals, 4);
    assert_eq!(h.state(id), ProposalState::Approved);
}

#[test]
fn votes_of_outsiders_do_not_count() {
    let mut h = setup(2);
    let id = h.create(2, 0);
    let outsider = h.new_address();
    h.delegate(outsider, h.approvers[0]).unwrap();
    // The view counts whoever delegates, the approval only those on the allow-list.
    assert_eq!(h.power(h.approvers[0]), 1);
    assert_eq!(h.approve(h.approvers[0], id), Ok(1));
    assert_eq!(h.state(id), ProposalState::Pending);
}

#[test]
fn approver_behind_an_outsider_counts() {
    let mut h = setup(2);
    let id = h.create(2, 0);
    let outsider = h.new_address();
    h.delegate(h.approvers[1], outsider).unwrap();
    h.delegate(outsider, h.approvers[0]).unwrap();
    assert_eq!(h.power(h.approvers[0]), 2);
    assert_eq!(h.approve(h.approvers[0], id), Ok(2));
    assert_eq!(h.state(id), ProposalState::Approved);
}

#[test]
fn votes_pass_through_those_who_delegate() {
    let mut h = setup(3);
    let id = h.create(3, 0);
    h.delegate(h.approvers[0], h.approvers[1]).unwrap();
    h.delegate(h.approvers[1], h.approvers[2]).unwrap();
    assert_eq!(h.power(h.approvers[1]), 0);
    assert_eq!(h.power(h.approvers[2]), 2);
    assert_eq!(h.approve(h.approvers[1], id), Ok(1));
}

// Initialization and creation at their edges.

#[test]
fn initialize_twice_is_refused() {
    let mut h = setup(1);
    let env = h.by_anyone();
    assert_eq!(h.contract.initialize(&env), Err(Error::AlreadyInitialized));
    h.create(1, 0);
    assert_eq!(h.contract.initialize(&env), Err(Error::AlreadyInitialized));
}

#[test]
fn initialize_starts_the_delegations_over() {
    let mut h = blank(2);
    h.delegate(h.approvers[0], h.approvers[1]).unwrap();
    assert_eq!(h.get_delegation(h.approvers[0]), Some(h.approvers[1]));
    let env = h.by_anyone();
    h.contract.initialize(&env).unwrap();
    assert_eq!(h.get_delegation(h.approvers[0]), None);
}

#[test]
fn create_before_initialize_is_refused() {
    let mut h = blank(2);
    assert_eq!(h.try_create("acme", 1, 5_000), Err(Error::NotInitialized));
    // What is wrong with the terms comes first.
    assert_eq!(h.try_create("acme", 3, 5_000), Err(Error::InvalidThreshold));
}

#[test]
fn create_without_org_is_refused() {
    let mut h = setup(2);
    assert_eq!(h.try_create("", 1, 5_000), Err(Error::InvalidInput));
}

#[test]
fn create_without_approvers_is_refused() {
    let mut h = setup(0);
    assert_eq!(h.try_create("acme", 0, 5_000), Err(Error::InvalidInput));
}

#[test]
fn create_with_too_many_approvers_is_refused() {
    let mut h = setup(20);
    assert_eq!(h.try_create("acme", 20, 5_000), Ok(1));
    let mut h = setup(21);
    assert_eq!(h.try_create("acme", 20, 5_000), Err(Error::InvalidInput));
}

#[test]
fn create_with_zero_threshold_is_refused() {
    let mut h = setup(2);
    assert_eq!(h.try_create("acme", 0, 5_000), Err(Error::InvalidThreshold));
}

#[test]
fn create_deadline_must_lie_ahead() {
    let mut h = setup(2);
    assert_eq!(h.try_create("acme", 1, 1_000), Err(Error::InvalidInput));
    assert_eq!(h.try_create("acme", 1, 1_001), Ok(1));
}

#[test]
fn created_proposal_is_read_back() {
    let mut h = setup(3);
    assert_eq!(h.create(2, 5_000), 1);
    assert_eq!(h.create(3, 0), 2);
    let proposal = h.contract.get(1).unwrap();
    assert_eq!(
        proposal,
        Proposal {
            proposer: h.proposer,
            org: "acme".as_bytes().to_vec(),
            wallet: "wallet-1".as_bytes().to_vec(),
            policy: "policy-1".as_bytes().to_vec(),
            tx_ref: "tx-ref-1".as_bytes().to_vec(),
            approvers: h.approver_list(),
            threshold: 2,
            approvals: 0,
            state: ProposalState::Pending,
            expires_at: 5_000,
        }
    );
    assert_eq!(proposal.approvers.len(), 3);
    assert_eq!(proposal.approvers.get(0), Some(h.approvers[0]));
    assert_eq!(proposal.approvers.get(2), Some(h.approvers[2]));
    assert_eq!(proposal.approvers.get(3), None);
    assert_eq!(h.contract.get(2).unwrap().threshold, 3);
}

#[test]
fn the_id_counter_wraps() {
    let mut h = setup(1);
    h.contract.restore_count(u64::MAX - 1);
    assert_eq!(h.create(1, 0), u64::MAX);
    assert_eq!(h.create(1, 0), 0);
    assert_eq!(h.create(1, 0), 1);
}

#[test]
fn missing_proposals_are_not_found() {
    let mut h = setup(1);
    let a = h.approvers[0];
    assert_eq!(h.contract.get(1), Err(Error::NotFound));
    assert_eq!(h.contract.state(1), Err(Error::NotFound));
    assert_eq!(h.approve(a, 1), Err(Error::NotFound));
    assert_eq!(h.reject(a, 1), Err(Error::NotFound));
    assert_eq!(h.cancel(a, 1), Err(Error::NotFound));
    assert_eq!(h.expire(1), Err(Error::NotFound));
    assert_eq!(h.execute(a, 1), Err(Error::NotFound));
    assert_eq!(h.close(a, 1), Err(Error::NotFound));
}

// The lifecycle at its edges.

#[test]
fn deadline_itself_is_past() {
    let mut h = setup(2);
    let id = h.create(1, 5_000);
    h.now = 4_999;
    assert_eq!(h.expire(id), Err(Error::InvalidProposalState));
    h.now = 5_000;
    assert_eq!(h.approve(h.approvers[0], id), Err(Error::ProposalExpired));
    assert_eq!(h.expire(id), Ok(()));
}

#[test]
fn no_deadline_never_expires() {
    let mut h = setup(2);
    let id = h.create(1, 0);
    h.now = u64::MAX;
    assert_eq!(h.expire(id), Err(Error::InvalidProposalState));
    assert_eq!(h.approve(h.approvers[0], id), Ok(1));
}

#[test]
fn approved_proposal_expires_too() {
    let mut h = setup(2);
    let id = h.create(1, 5_000);
    h.approve(h.approvers[0], id).unwrap();
    h.now = 5_000;
    assert_eq!(h.execute(h.proposer, id), Err(Error::ProposalExpired));
    assert_eq!(h.expire(id), Ok(()));
    assert_eq!(h.state(id), ProposalState::Expired);
    assert_eq!(h.expire(id), Err(Error::InvalidProposalState));
}

#[test]
fn reject_does_not_look_at_the_deadline() {
    let mut h = setup(2);
    let id = h.create(1, 5_000);
    h.now = 6_000;
    assert_eq!(h.reject(h.proposer, id), Err(Error::NotAnApprover));
    assert_eq!(h.reject(h.approvers[1], id), Ok(()));
    assert_eq!(h.reject(h.approvers[1], id), Err(Error::InvalidProposalState));
}

#[test]
fn rejected_and_expired_cannot_be_cancelled() {
    let mut h = setup(2);
    let rejected = h.create(1, 0);
    h.reject(h.approvers[0], rejected).unwrap();
    assert_eq!(h.cancel(h.approvers[0], rejected), Err(Error::Unauthorized));
    assert_eq!(h.cancel(h.proposer, rejected), Err(Error::InvalidProposalState));
    assert_eq!(h.state(rejected), ProposalState::Rejected);
    let expired = h.create(1, 5_000);
    h.now = 5_000;
    h.expire(expired).unwrap();
    assert_eq!(h.cancel(h.proposer, expired), Err(Error::InvalidProposalState));
    assert_eq!(h.state(expired), ProposalState::Expired);
}

#[test]
fn pending_and_approved_can_be_cancelled() {
    let mut h = setup(2);
    let pending = h.create(1, 0);
    assert_eq!(h.cancel(h.proposer, pending), Ok(()));
    assert_eq!(h.state(pending), ProposalState::Cancelled);
    assert_eq!(h.cancel(h.proposer, pending), Err(Error::InvalidProposalState));
    let approved = h.create(1, 0);
    h.approve(h.approvers[0], approved).unwrap();
    assert_eq!(h.cancel(h.proposer, approved), Ok(()));
    assert_eq!(h.state(approved), ProposalState::Cancelled);
}

#[test]
fn executed_and_closed_cannot_be_cancelled() {
    let mut h = setup(1);
    let id = h.create(1, 0);
    h.approve(h.approvers[0], id).unwrap();
    assert_eq!(h.close(h.proposer, id), Err(Error::InvalidProposalState));
    h.execute(h.proposer, id).unwrap();
    assert_eq!(h.cancel(h.proposer, id), Err(Error::InvalidProposalState));
    assert_eq!(h.close(h.approvers[0], id), Err(Error::Unauthorized));
    h.close(h.proposer, id).unwrap();
    assert_eq!(h.cancel(h.proposer, id), Err(Error::InvalidProposalState));
    assert_eq!(h.state(id), ProposalState::Closed);
}

#[test]
fn only_proposer_can_execute() {
    let mut h = setup(1);
    let id = h.create(1, 0);
    h.approve(h.approvers[0], id).unwrap();
    assert_eq!(h.execute(h.approvers[0], id), Err(Error::Unauthorized));
    assert_eq!(h.execute(h.proposer, id), Ok(()));
    assert_eq!(h.execute(h.proposer, id), Err(Error::ProposalNotApproved));
}

#[test]
fn approval_is_refused_once_approved() {
    let mut h = setup(2);
    let id = h.create(1, 0);
    h.approve(h.approvers[0], id).unwrap();
    assert_eq!(h.approve(h.approvers[1], id), Err(Error::InvalidProposalState));
    assert_eq!(h.approve(h.approvers[0], id), Err(Error::InvalidProposalState));
}

#[test]
fn approvals_are_per_proposal() {
    let mut h = setup(2);
    let first = h.create(2, 0);
    let second = h.create(2, 0);
    assert_eq!(h.approve(h.approvers[0], first), Ok(1));
    assert_eq!(h.approve(h.approvers[0], second), Ok(1));
    assert_eq!(h.approve(h.approvers[0], second), Err(Error::AlreadySigned));
    assert_eq!(h.approve(h.approvers[1], first), Ok(2));
    assert_eq!(h.state(first), ProposalState::Approved);
    assert_eq!(h.state(second), ProposalState::Pending);
}

#[test]
fn the_tally_wraps() {
    let mut h = setup(2);
    let id = h.create(2, 0);
    let mut proposal = h.contract.get(id).unwrap();
    proposal.approvals = u32::MAX;
    h.contract.restore_proposal(id, proposal);
    assert_eq!(h.approve(h.approvers[0], id), Ok(0));
    assert_eq!(h.state(id), ProposalState::Pending);
}

#[test]
fn restored_approval_counts_as_given() {
    let mut h = setup(2);
    let id = h.create(2, 0);
    h.contract.restore_approval(id, h.approvers[1]);
    assert_eq!(h.approve(h.approvers[1], id), Err(Error::AlreadySigned));
    assert_eq!(h.approve(h.approvers[0], id), Ok(1));
}

#[test]
fn terms_are_kept_through_the_lifecycle() {
    let mut h = setup(2);
    let id = h.create(1, 5_000);
    let created = h.contract.get(id).unwrap();
    h.approve(h.approvers[1], id).unwrap();
    h.execute(h.proposer, id).unwrap();
    h.close(h.proposer, id).unwrap();
    let closed = h.contract.get(id).unwrap();
    assert_eq!(closed, Proposal { approvals: 1, state: ProposalState::Closed, ..created });
}

#[test]
fn closed_proposals_stay_closed() {
    let mut h = setup(1);
    let id = h.create(1, 5_000);
    let approver = h.approvers[0];
    h.approve(approver, id).unwrap();
    h.execute(h.proposer, id).unwrap();
    h.close(h.proposer, id).unwrap();
    let closed = h.contract.get(id).unwrap();
    assert_eq!(h.approve(approver, id), Err(Error::InvalidProposalState));
    assert_eq!(h.reject(approver, id), Err(Error::InvalidProposalState));
    assert_eq!(h.cancel(h.proposer, id), Err(Error::InvalidProposalState));
    assert_eq!(h.execute(h.proposer, id), Err(Error::ProposalNotApproved));
    assert_eq!(h.close(h.proposer, id), Err(Error::InvalidProposalState));
    h.now = 6_000;
    assert_eq!(h.expire(id), Err(Error::InvalidProposalState));
    assert_eq!(h.contract.get(id).unwrap(), closed);
}

#[test]
fn rejected_and_expired_proposals_stay_that_way() {
    let mut h = setup(2);
    let approver = h.approvers[0];
    let rejected = h.create(1, 5_000);
    let expired = h.create(1, 5_000);
    h.reject(approver, rejected).unwrap();
    h.now = 6_000;
    h.expire(expired).unwrap();
    for id in [rejected, expired] {
        let before = h.contract.get(id).unwrap();
        assert_eq!(h.approve(approver, id), Err(Error::ProposalExpired));
        assert_eq!(h.reject(approver, id), Err(Error::InvalidProposalState));
        assert_eq!(h.cancel(h.proposer, id), Err(Error::InvalidProposalState));
        assert_eq!(h.execute(h.proposer, id), Err(Error::ProposalExpired));
        assert_eq!(h.close(h.proposer, id), Err(Error::InvalidProposalState));
        assert_eq!(h.expire(id), Err(Error::InvalidProposalState));
        assert_eq!(h.contract.get(id).unwrap(), before);
    }
}

#[test]
fn all_votes_together_reach_the_threshold() {
    let mut h = setup(20);
    let id = h.create(20, 0);
    // Eight forward their vote, and the others vote for themselves.
    for i in 0..8 {
        h.delegate(h.approvers[i], h.approvers[8]).unwrap();
    }
    assert_eq!(h.approve(h.approvers[8], id), Ok(9));
    for i in 9..20 {
        assert_eq!(h.state(id), ProposalState::Pending);
        assert_eq!(h.approve(h.approvers[i], id), Ok(i as u32 + 1));
    }
    assert_eq!(h.state(id), ProposalState::Approved);
}

#[test]
fn a_part_of_the_ledger_is_enough() {
    let mut h = setup(3);
    let other = h.create(1, 0);
    let id = h.create(2, 0);
    h.approve(h.approvers[0], other).unwrap();
    h.approve(h.approvers[0], id).unwrap();
    h.delegate(h.approvers[1], h.approvers[2]).unwrap();
    // A contract that knows one of the proposals, and none of the approvals of others.
    let mut delegations = DelegationMap::new(&h.env);
    delegations.set(h.approvers[1], h.approvers[2]);
    let mut part = ProposalContract::new(20);
    part.restore_count(2);
    part.restore_proposal(id, h.contract.get(id).unwrap());
    part.restore_delegations(delegations);
    let done = h.effects().len();
    let env = h.by(h.approvers[2]);
    assert_eq!(part.approve(&env, h.approvers[2], id), Ok(3));
    assert_eq!(h.approve(h.approvers[2], id), Ok(3));
    assert_eq!(part.get(id), h.contract.get(id));
    assert_eq!(part.effects().clone(), h.effects()[done..].to_vec());
    assert_eq!(part.get(other), Err(Error::NotFound));
    assert_eq!(h.state(other), ProposalState::Approved);
}

// What is left for the ledger to do.

#[test]
fn effects_are_left_in_order() {
    let mut h = setup(2);
    let start = vec![Effect::StoreCount(0), Effect::StoreDelegations, Effect::ExtendInstance];
    assert_eq!(h.effects(), start);
    let proposer = h.proposer;
    let caller = h.approvers[0];
    let delegatee = h.approvers[1];
    h.create(1, 5_000);
    h.delegate(caller, delegatee).unwrap();
    h.revoke_delegation(caller).unwrap();
    h.approve(caller, 1).unwrap();
    h.execute(proposer, 1).unwrap();
    h.close(proposer, 1).unwrap();
    let rest = vec![
        Effect::StoreProposal(1),
        Effect::ExtendProposal(1),
        Effect::StoreCount(1),
        Effect::ExtendInstance,
        Effect::Publish(Event::Created { id: 1, proposer }),
        Effect::StoreDelegations,
        Effect::ExtendInstance,
        Effect::Publish(Event::Delegated { caller, delegatee }),
        Effect::StoreDelegations,
        Effect::Publish(Event::Undelegated { caller }),
        Effect::StoreApproval(1, caller),
        Effect::StoreProposal(1),
        Effect::ExtendProposal(1),
        Effect::Publish(Event::Approved { id: 1, caller, approvals: 1 }),
        Effect::StoreProposal(1),
        Effect::ExtendProposal(1),
        Effect::Publish(Event::Executed { id: 1 }),
        Effect::StoreProposal(1),
        Effect::ExtendProposal(1),
        Effect::Publish(Event::Closed { id: 1 }),
    ];
    assert_eq!(h.effects(), [start, rest].concat());
}

#[test]
fn endings_are_announced() {
    let mut h = setup(1);
    let caller = h.approvers[0];
    h.create(1, 5_000);
    h.create(1, 5_000);
    h.create(1, 5_000);
    let before = h.effects().len();
    h.reject(caller, 1).unwrap();
    h.cancel(h.proposer, 2).unwrap();
    h.now = 5_000;
    h.expire(3).unwrap();
    assert_eq!(
        h.effects()[before..].to_vec(),
        vec![
            Effect::StoreProposal(1),
            Effect::ExtendProposal(1),
            Effect::Publish(Event::Rejected { id: 1, caller }),
            Effect::StoreProposal(2),
            Effect::ExtendProposal(2),
            Effect::Publish(Event::Cancelled { id: 2 }),
            Effect::StoreProposal(3),
            Effect::ExtendProposal(3),
            Effect::Publish(Event::Expired { id: 3 }),
        ]
    );
}

#[test]
fn refused_operations_leave_nothing() {
    let mut h = setup(2);
    let id = h.create(2, 5_000);
    let before = h.effects();
    let proposal = h.contract.get(id).unwrap();
    let stranger = h.new_address();
    assert!(h.approve(stranger, id).is_err());
    assert!(h.reject(stranger, id).is_err());
    assert!(h.cancel(stranger, id).is_err());
    assert!(h.expire(id).is_err());
    assert!(h.execute(stranger, id).is_err());
    assert!(h.close(stranger, id).is_err());
    assert!(h.delegate(stranger, stranger).is_err());
    assert!(h.revoke_delegation(stranger).is_err());
    assert!(h.try_create("acme", 3, 5_000).is_err());
    assert_eq!(h.effects(), before);
    assert_eq!(h.contract.get(id).unwrap(), proposal);
}

#[test]
fn event_topics() {
    assert_eq!(Event::Created { id: 1, proposer: 2 }.topic(), "created");
    assert_eq!(Event::Approved { id: 1, caller: 2, approvals: 3 }.topic(), "approved");
    assert_eq!(Event::Rejected { id: 1, caller: 2 }.topic(), "rejected");
    assert_eq!(Event::Cancelled { id: 1 }.topic(), "cancelled");
    assert_eq!(Event::Expired { id: 1 }.topic(), "expired");
    assert_eq!(Event::Executed { id: 1 }.topic(), "executed");
    assert_eq!(Event::Closed { id: 1 }.topic(), "closed");
    assert_eq!(Event::Delegated { caller: 1, delegatee: 2 }.topic(), "delegated");
    assert_eq!(Event::Undelegated { caller: 1 }.topic(), "undeleg");
}

// Codes.

#[test]
fn error_codes() {
    assert_eq!(Error::NotFound.code(), 1);
    assert_eq!(Error::AlreadyInitialized.code(), 6);
    assert_eq!(Error::InsufficientFunds.code(), 10);
    assert_eq!(Error::PolicyRecipientRestricted.code(), 23);
    assert_eq!(Error::RegistryFrozen.code(), 30);
    assert_eq!(Error::AssetNotAuthorized.code(), 43);
    assert_eq!(Error::InvalidState.code(), 53);
    assert_eq!(Error::AlreadySigned.code(), 62);
    assert_eq!(Error::InvalidThreshold.code(), 64);
    assert_eq!(Error::ProposalExpired.code(), 70);
    assert_eq!(Error::DelegationDepthExceeded.code(), 75);
    assert_eq!(Error::TimeLockActive.code(), 84);
}

#[test]
fn state_codes() {
    assert_eq!(ProposalState::Created.code(), 0);
    assert_eq!(ProposalState::Pending.code(), 1);
    assert_eq!(ProposalState::Approved.code(), 2);
    assert_eq!(ProposalState::Executed.code(), 3);
    assert_eq!(ProposalState::Closed.code(), 4);
    assert_eq!(ProposalState::Rejected.code(), 5);
    assert_eq!(ProposalState::Cancelled.code(), 6);
    assert_eq!(ProposalState::Expired.code(), 7);
}
