//! What each operation is for, said of the ledger entries before and after it: on which of them it
//! goes through, which error answers it on the others, and what becomes of them.
use vstd::prelude::*;
use crate::error::Error;
use crate::model::{ContractState, Operation};
use crate::proposal::{
    Effect, Event, Invocation, Proposal, ProposalRecord, ProposalState, Terms,
};

verus! {

/// A new contract holds nothing, and admits as many approvers as it is told.
pub proof fn law_new_contract_holds_nothing(max_approvers: u32)
    ensures
        ContractState::blank(max_approvers).max_approvers == max_approvers,
        ContractState::blank(max_approvers).count is None,
        ContractState::blank(max_approvers).delegations is None,
        ContractState::blank(max_approvers).effects.len() == 0,
        forall|id: u64| !(#[trigger] ContractState::blank(max_approvers).proposals.contains_key(id)),
        forall|id: u64, a: u64| !(#[trigger] ContractState::blank(max_approvers).approvals.contains(
            (id, a),
        )),
{
}

/// The content of a proposal is the content of its fields, each in its place.
pub proof fn law_proposal_holds_its_fields(p: Proposal)
    ensures
        p@.terms.proposer == p.proposer,
        p@.terms.org == p.org@,
        p@.terms.wallet == p.wallet@,
        p@.terms.policy == p.policy@,
        p@.terms.tx_ref == p.tx_ref@,
        p@.terms.approvers == p.approvers@,
        p@.terms.threshold == p.threshold,
        p@.terms.expires_at == p.expires_at,
        p@.approvals == p.approvals,
        p@.state == p.state,
{
}

/// The delegations are those that the ledger holds; as long as it holds none, nobody delegates.
pub proof fn law_delegations_are_those_on_the_ledger(s: ContractState, addr: u64, id: u64)
    ensures
        s.delegations matches Some(m) ==> s.delegation_map() == m,
        s.delegations is None ==> forall|a: u64| !(#[trigger] s.delegation_map().contains_key(a)),
        s.power(addr) == crate::delegation::delegated_power(s.delegation_map(), addr),
        s.votes(addr, id) == crate::delegation::delegated_votes(
            s.delegation_map(),
            addr,
            s.proposals[id].terms.approvers,
        ),
{
}

/// The contract is initialized exactly where it was not, and then counts from zero with nobody
/// delegating; proposals and approvals stay what they are.
pub proof fn law_initialize_starts_counting(s: ContractState, now: u64)
    ensures
        ({
            let op = Operation::Initialize;
            let t = s.next(now, op);
            &&& s.refusal(now, op) is None <==> s.count is None
            &&& s.count is Some ==> s.refusal(now, op) == Some(Error::AlreadyInitialized)
            &&& s.count is None ==> {
                &&& t.count == Some(0u64)
                &&& t.delegations == Some(Map::<u64, u64>::empty())
                &&& t.max_approvers == s.max_approvers
                &&& t.proposals == s.proposals
                &&& t.approvals == s.approvals
                &&& t.effects == s.effects + seq![
                    Effect::StoreCount(0),
                    Effect::StoreDelegations,
                    Effect::ExtendInstance,
                ]
            }
        }),
{
}

/// A creation goes through whenever its terms are in order and the contract is initialized: an
/// organisation is named, the approvers are within their limit and the threshold within their
/// number, and the deadline, if there is one, lies ahead, however far.
pub proof fn law_creation_goes_through_with_terms_in_order(s: ContractState, now: u64, terms: Terms)
    ensures
        ({
            let refusal = s.refusal(now, Operation::Create { terms });
            let listed = 1 <= terms.approvers.len() <= s.max_approvers;
            let reachable = 1 <= terms.threshold <= terms.approvers.len();
            let ahead = terms.expires_at == 0 || now < terms.expires_at;
            &&& refusal is None <==> s.count is Some && terms.org.len() > 0 && listed && reachable
                && ahead
            &&& refusal == Some(Error::InvalidThreshold) <==> terms.org.len() > 0 && listed
                && !reachable
            &&& refusal == Some(Error::NotInitialized) <==> s.count is None && terms.org.len() > 0
                && listed && reachable && ahead
            &&& refusal == Some(Error::InvalidInput) <==> terms.org.len() == 0 || !listed
                || reachable && !ahead
        }),
{
}

/// A creation adds one proposal, with the terms that were asked for, pending and without approvals,
/// under the number after the last. Every other entry stays what it is.
pub proof fn law_creation_adds_one_proposal(s: ContractState, now: u64, terms: Terms)
    requires
        s.refusal(now, Operation::Create { terms }) is None,
    ensures
        ({
            let t = s.next(now, Operation::Create { terms });
            let id = t.count->0;
            &&& t.count is Some
            &&& s.count->0 < u64::MAX ==> id == s.count->0 + 1
            &&& s.count->0 == u64::MAX ==> id == 0
            &&& s.next_id() == id
            &&& t.proposals.contains_key(id)
            &&& t.proposals[id].terms == terms
            &&& t.proposals[id].approvals == 0
            &&& t.proposals[id].state == ProposalState::Pending
            &&& t.proposals.remove(id) == s.proposals.remove(id)
            &&& t.max_approvers == s.max_approvers
            &&& t.approvals == s.approvals
            &&& t.delegations == s.delegations
            &&& t.effects == s.effects + seq![
                Effect::StoreProposal(id),
                Effect::ExtendProposal(id),
                Effect::StoreCount(id),
                Effect::ExtendInstance,
                Effect::Publish(Event::Created { id, proposer: terms.proposer }),
            ]
        }),
{
    let t = s.next(now, Operation::Create { terms });
    assert(t.proposals.remove(t.count->0) =~= s.proposals.remove(t.count->0));
}

/// An approval goes through exactly where the proposal is there, pending and before its deadline,
/// the caller is one of its approvers and has not approved it, and no approver has a chain of ten
/// delegations or more that does not come to the caller within nine. The first of these that fails
/// gives the error.
pub proof fn law_approval_goes_through_for_approvers(
    s: ContractState,
    now: u64,
    caller: u64,
    id: u64,
    m: Map<u64, u64>,
)
    requires
        s.delegations == Some(m) || s.delegations is None && m == Map::<u64, u64>::empty(),
    ensures
        ({
            let refusal = s.refusal(now, Operation::Approve { caller, id });
            let r = s.proposals[id];
            let found = s.proposals.contains_key(id);
            let open = found && (r.terms.expires_at == 0 || now < r.terms.expires_at);
            let waiting = open && r.state == ProposalState::Pending;
            let entitled = waiting && r.terms.approvers.contains(caller);
            let fresh = entitled && !s.approvals.contains((id, caller));
            let lost = exists|d: u64|
                r.terms.approvers.contains(d) && (#[trigger] crate::delegation::hop(m, d, 10)) is Some
                    && forall|n: nat|
                    1 <= n <= 9 ==> #[trigger] crate::delegation::hop(m, d, n) != Some(caller);
            &&& refusal is None <==> fresh && !lost
            &&& refusal == Some(Error::NotFound) <==> !found
            &&& refusal == Some(Error::ProposalExpired) <==> found && !open
            &&& refusal == Some(Error::InvalidProposalState) <==> open && !waiting
            &&& refusal == Some(Error::NotAnApprover) <==> waiting && !entitled
            &&& refusal == Some(Error::AlreadySigned) <==> entitled && !fresh
            &&& refusal == Some(Error::DelegationDepthExceeded) <==> fresh && lost
        }),
{
    let voters = s.proposals[id].terms.approvers;
    let counted = crate::delegation::voting_backers(m, caller, voters);
    lemma_counted(m, caller, voters);
    crate::delegation::law_votes_are_the_number_of_listed_chains(m, caller, voters, counted);
    assert(s.delegation_map() == m);
    let lost = exists|d: u64|
        voters.contains(d) && (#[trigger] crate::delegation::hop(m, d, 10)) is Some && forall|n: nat|
            1 <= n <= 9 ==> #[trigger] crate::delegation::hop(m, d, n) != Some(caller);
    assert(lost == (s.votes(caller, id) is Err));
}

/// Those on a list whose vote is counted, by their chains.
proof fn lemma_counted(m: Map<u64, u64>, addr: u64, voters: Seq<u64>)
    ensures
        forall|d: u64| #[trigger]
            crate::delegation::voting_backers(m, addr, voters).contains(d) <==> voters.contains(d)
                && exists|n: nat|
                1 <= n < crate::delegation::MAX_DELEGATION_DEPTH && #[trigger] crate::delegation::hop(
                    m,
                    d,
                    n,
                ) == Some(addr) && crate::delegation::hop(m, d, n + 1) is None,
{
    assert forall|d: u64| #[trigger]
        crate::delegation::voting_backers(m, addr, voters).contains(d) <==> voters.contains(d)
            && exists|n: nat|
            1 <= n < crate::delegation::MAX_DELEGATION_DEPTH && #[trigger] crate::delegation::hop(
                m,
                d,
                n,
            ) == Some(addr) && crate::delegation::hop(m, d, n + 1) is None by {
        crate::delegation::law_listed_votes_are_counted(m, addr, voters, d);
    }
}

/// An approval weighs one, and one more for each approver whose chain of one to nine delegations
/// ends at the caller, whoever else delegates. The weight is added to the approvals, in 32 bits;
/// the proposal is approved where they reach its threshold and stays pending where they do not. The
/// approval goes on record, and every other entry stays what it is.
pub proof fn law_approval_weighs_the_chains_that_end_at_the_caller(
    s: ContractState,
    now: u64,
    caller: u64,
    id: u64,
    m: Map<u64, u64>,
    counted: Set<u64>,
)
    requires
        s.refusal(now, Operation::Approve { caller, id }) is None,
        s.delegations == Some(m) || s.delegations is None && m == Map::<u64, u64>::empty(),
        forall|d: u64| #[trigger]
            counted.contains(d) <==> s.proposals[id].terms.approvers.contains(d) && exists|n: nat|
                1 <= n <= 9 && #[trigger] crate::delegation::hop(m, d, n) == Some(caller)
                    && crate::delegation::hop(m, d, n + 1) is None,
    ensures
        ({
            let t = s.next(now, Operation::Approve { caller, id });
            let approvals = t.proposals[id].approvals;
            &&& t.proposals.contains_key(id)
            &&& approvals == (s.proposals[id].approvals + 1 + counted.len()) % 0x1_0000_0000
            &&& s.approvals_after(caller, id) == approvals
            &&& approvals >= s.proposals[id].terms.threshold ==> t.proposals[id].state
                == ProposalState::Approved
            &&& approvals < s.proposals[id].terms.threshold ==> t.proposals[id].state
                == ProposalState::Pending
            &&& t.proposals[id].terms == s.proposals[id].terms
            &&& t.proposals.remove(id) == s.proposals.remove(id)
            &&& t.approvals == s.approvals.insert((id, caller))
            &&& t.max_approvers == s.max_approvers
            &&& t.count == s.count
            &&& t.delegations == s.delegations
            &&& t.effects == s.effects + seq![
                Effect::StoreApproval(id, caller),
                Effect::StoreProposal(id),
                Effect::ExtendProposal(id),
                Effect::Publish(Event::Approved { id, caller, approvals }),
            ]
        }),
{
    let t = s.next(now, Operation::Approve { caller, id });
    let voters = s.proposals[id].terms.approvers;
    assert(s.delegation_map() == m);
    assert forall|d: u64| #[trigger] counted.contains(d) <==> voters.contains(d) && exists|n: nat|
        1 <= n < crate::delegation::MAX_DELEGATION_DEPTH && #[trigger] crate::delegation::hop(m, d, n)
            == Some(caller) && crate::delegation::hop(m, d, n + 1) is None by {
    }
    crate::delegation::law_votes_are_the_number_of_listed_chains(m, caller, voters, counted);
    assert(t.proposals.remove(id) =~= s.proposals.remove(id));
    assert(t.effects =~= s.effects + seq![
        Effect::StoreApproval(id, caller),
        Effect::StoreProposal(id),
        Effect::ExtendProposal(id),
        Effect::Publish(Event::Approved { id, caller, approvals: t.proposals[id].approvals }),
    ]);
}

/// An approver of a pending proposal rejects it, at any time: the proposal is rejected then, with
/// the approvals that it had. Nobody else does, and no other proposal is rejected.
pub proof fn law_rejection_ends_a_pending_proposal(
    s: ContractState,
    now: u64,
    caller: u64,
    id: u64,
)
    ensures
        ({
            let op = Operation::Reject { caller, id };
            let refusal = s.refusal(now, op);
            let t = s.next(now, op);
            let found = s.proposals.contains_key(id);
            let waiting = found && s.proposals[id].state == ProposalState::Pending;
            let entitled = waiting && s.proposals[id].terms.approvers.contains(caller);
            &&& refusal is None <==> entitled
            &&& refusal == Some(Error::NotFound) <==> !found
            &&& refusal == Some(Error::InvalidProposalState) <==> found && !waiting
            &&& refusal == Some(Error::NotAnApprover) <==> waiting && !entitled
            &&& entitled ==> {
                &&& t.proposals.contains_key(id)
                &&& t.proposals[id].state == ProposalState::Rejected
                &&& t.proposals[id].approvals == s.proposals[id].approvals
                &&& t.proposals[id].terms == s.proposals[id].terms
                &&& t.proposals.remove(id) == s.proposals.remove(id)
                &&& t.approvals == s.approvals
                &&& t.max_approvers == s.max_approvers
                &&& t.count == s.count
                &&& t.delegations == s.delegations
                &&& t.effects == s.effects + seq![
                    Effect::StoreProposal(id),
                    Effect::ExtendProposal(id),
                    Effect::Publish(Event::Rejected { id, caller }),
                ]
            }
        }),
{
    let t = s.next(now, Operation::Reject { caller, id });
    assert(t.proposals.remove(id) =~= s.proposals.remove(id));
}

/// The proposer of a proposal that has not come to its end, and is not executed, cancels it at any
/// time: it is cancelled then, with the approvals that it had. Nobody else cancels it.
pub proof fn law_cancelling_ends_a_live_proposal(s: ContractState, now: u64, caller: u64, id: u64)
    ensures
        ({
            let op = Operation::Cancel { caller, id };
            let refusal = s.refusal(now, op);
            let t = s.next(now, op);
            let found = s.proposals.contains_key(id);
            let entitled = found && s.proposals[id].terms.proposer == caller;
            let live = entitled && (s.proposals[id].state == ProposalState::Created
                || s.proposals[id].state == ProposalState::Pending || s.proposals[id].state
                == ProposalState::Approved);
            &&& refusal is None <==> live
            &&& refusal == Some(Error::NotFound) <==> !found
            &&& refusal == Some(Error::Unauthorized) <==> found && !entitled
            &&& refusal == Some(Error::InvalidProposalState) <==> entitled && !live
            &&& live ==> {
                &&& t.proposals.contains_key(id)
                &&& t.proposals[id].state == ProposalState::Cancelled
                &&& t.proposals[id].approvals == s.proposals[id].approvals
                &&& t.proposals[id].terms == s.proposals[id].terms
                &&& t.proposals.remove(id) == s.proposals.remove(id)
                &&& t.approvals == s.approvals
                &&& t.max_approvers == s.max_approvers
                &&& t.count == s.count
                &&& t.delegations == s.delegations
                &&& t.effects == s.effects + seq![
                    Effect::StoreProposal(id),
                    Effect::ExtendProposal(id),
                    Effect::Publish(Event::Cancelled { id }),
                ]
            }
        }),
{
    let t = s.next(now, Operation::Cancel { caller, id });
    assert(t.proposals.remove(id) =~= s.proposals.remove(id));
}

/// Anybody marks a pending or approved proposal expired from its deadline on, and no earlier; one
/// without a deadline never expires.
pub proof fn law_expiry_ends_a_proposal_past_its_deadline(s: ContractState, now: u64, id: u64)
    ensures
        ({
            let op = Operation::Expire { id };
            let refusal = s.refusal(now, op);
            let t = s.next(now, op);
            let found = s.proposals.contains_key(id);
            let due = found && (s.proposals[id].state == ProposalState::Pending
                || s.proposals[id].state == ProposalState::Approved)
                && s.proposals[id].terms.expires_at != 0 && s.proposals[id].terms.expires_at <= now;
            &&& refusal is None <==> due
            &&& refusal == Some(Error::NotFound) <==> !found
            &&& refusal == Some(Error::InvalidProposalState) <==> found && !due
            &&& due ==> {
                &&& t.proposals.contains_key(id)
                &&& t.proposals[id].state == ProposalState::Expired
                &&& t.proposals[id].approvals == s.proposals[id].approvals
                &&& t.proposals[id].terms == s.proposals[id].terms
                &&& t.proposals.remove(id) == s.proposals.remove(id)
                &&& t.approvals == s.approvals
                &&& t.max_approvers == s.max_approvers
                &&& t.count == s.count
                &&& t.delegations == s.delegations
                &&& t.effects == s.effects + seq![
                    Effect::StoreProposal(id),
                    Effect::ExtendProposal(id),
                    Effect::Publish(Event::Expired { id }),
                ]
            }
        }),
{
    let t = s.next(now, Operation::Expire { id });
    assert(t.proposals.remove(id) =~= s.proposals.remove(id));
}

/// The proposer of an approved proposal executes it before its deadline: it is executed then, with
/// the approvals that it had. No other proposal is executed, and by nobody else.
pub proof fn law_execution_is_of_approved_proposals(
    s: ContractState,
    now: u64,
    caller: u64,
    id: u64,
)
    ensures
        ({
            let op = Operation::Execute { caller, id };
            let refusal = s.refusal(now, op);
            let t = s.next(now, op);
            let found = s.proposals.contains_key(id);
            let open = found && (s.proposals[id].terms.expires_at == 0 || now
                < s.proposals[id].terms.expires_at);
            let entitled = open && s.proposals[id].terms.proposer == caller;
            let ready = entitled && s.proposals[id].state == ProposalState::Approved;
            &&& refusal is None <==> ready
            &&& refusal == Some(Error::NotFound) <==> !found
            &&& refusal == Some(Error::ProposalExpired) <==> found && !open
            &&& refusal == Some(Error::Unauthorized) <==> open && !entitled
            &&& refusal == Some(Error::ProposalNotApproved) <==> entitled && !ready
            &&& ready ==> {
                &&& t.proposals.contains_key(id)
                &&& t.proposals[id].state == ProposalState::Executed
                &&& t.proposals[id].approvals == s.proposals[id].approvals
                &&& t.proposals[id].terms == s.proposals[id].terms
                &&& t.proposals.remove(id) == s.proposals.remove(id)
                &&& t.approvals == s.approvals
                &&& t.max_approvers == s.max_approvers
                &&& t.count == s.count
                &&& t.delegations == s.delegations
                &&& t.effects == s.effects + seq![
                    Effect::StoreProposal(id),
                    Effect::ExtendProposal(id),
                    Effect::Publish(Event::Executed { id }),
                ]
            }
        }),
{
    let t = s.next(now, Operation::Execute { caller, id });
    assert(t.proposals.remove(id) =~= s.proposals.remove(id));
}

/// The proposer of an executed proposal closes it, at any time: it is closed then, with the
/// approvals that it had. No other proposal is closed, and by nobody else.
pub proof fn law_closing_is_of_executed_proposals(s: ContractState, now: u64, caller: u64, id: u64)
    ensures
        ({
            let op = Operation::Close { caller, id };
            let refusal = s.refusal(now, op);
            let t = s.next(now, op);
            let found = s.proposals.contains_key(id);
            let entitled = found && s.proposals[id].terms.proposer == caller;
            let done = entitled && s.proposals[id].state == ProposalState::Executed;
            &&& refusal is None <==> done
            &&& refusal == Some(Error::NotFound) <==> !found
            &&& refusal == Some(Error::Unauthorized) <==> found && !entitled
            &&& refusal == Some(Error::InvalidProposalState) <==> entitled && !done
            &&& done ==> {
                &&& t.proposals.contains_key(id)
                &&& t.proposals[id].state == ProposalState::Closed
                &&& t.proposals[id].approvals == s.proposals[id].approvals
                &&& t.proposals[id].terms == s.proposals[id].terms
                &&& t.proposals.remove(id) == s.proposals.remove(id)
                &&& t.approvals == s.approvals
                &&& t.max_approvers == s.max_approvers
                &&& t.count == s.count
                &&& t.delegations == s.delegations
                &&& t.effects == s.effects + seq![
                    Effect::StoreProposal(id),
                    Effect::ExtendProposal(id),
                    Effect::Publish(Event::Closed { id }),
                ]
            }
        }),
{
    let t = s.next(now, Operation::Close { caller, id });
    assert(t.proposals.remove(id) =~= s.proposals.remove(id));
}

/// A delegation goes through whenever nothing stands in its way: it goes to another, the chain from
/// the delegatee does not come to the caller, and no chain gets longer than the maximum depth by it,
/// whoever delegates to whom otherwise. It is called circular only where it would be.
pub proof fn law_delegation_goes_through_unless_circular_or_deep(
    s: ContractState,
    now: u64,
    caller: u64,
    delegatee: u64,
    m: Map<u64, u64>,
)
    requires
        s.delegations == Some(m) || s.delegations is None && m == Map::<u64, u64>::empty(),
    ensures
        ({
            let refusal = s.refusal(now, Operation::Delegate { caller, delegatee });
            let circular = exists|n: nat|
                1 <= n <= 10 && #[trigger] crate::delegation::hop(m, delegatee, n) == Some(caller);
            let deep = exists|d: u64, i: nat, j: nat|
                (#[trigger] crate::delegation::hop(m, d, i)) == Some(caller) && (
                #[trigger] crate::delegation::hop(m, delegatee, j)) is Some && i + 1 + j > 10;
            &&& refusal is None <==> caller != delegatee && !circular && !deep
            &&& refusal == Some(Error::InvalidInput) <==> caller == delegatee
            &&& refusal == Some(Error::CircularDelegation) <==> caller != delegatee && circular
            &&& refusal == Some(Error::DelegationDepthExceeded) <==> caller != delegatee && !circular
                && deep
        }),
{
    assert(s.delegation_map() == m);
    let depth = crate::delegation::MAX_DELEGATION_DEPTH as nat;
    assert(crate::delegation::hop(m, caller, 0) == Some(caller));
    crate::delegation::law_cycle_is_where_the_chain_comes_back(m, caller, delegatee);
    let deep = exists|d: u64, i: nat, j: nat|
        (#[trigger] crate::delegation::hop(m, d, i)) == Some(caller) && (
        #[trigger] crate::delegation::hop(m, delegatee, j)) is Some && i + 1 + j > 10;
    assert(deep == crate::delegation::outgrows(m, caller, delegatee));
    if crate::delegation::hop(m, delegatee, depth) is Some {
        assert(crate::delegation::hop(m, caller, 0) == Some(caller) && crate::delegation::hop(
            m,
            delegatee,
            depth,
        ) is Some && 0 + 1 + depth > 10);
    }
    let circular = exists|n: nat|
        1 <= n <= 10 && #[trigger] crate::delegation::hop(m, delegatee, n) == Some(caller);
    assert(circular == (crate::delegation::cycle_verdict(m, caller, delegatee) == Ok::<
        bool,
        Error,
    >(true)));
}

/// Where no chain is longer than the maximum depth, a delegation is refused as circular for a chain
/// of any length that comes back, and for nothing else.
pub proof fn law_circular_is_what_comes_back(
    s: ContractState,
    now: u64,
    caller: u64,
    delegatee: u64,
)
    requires
        crate::delegation::bounded(s.delegation_map()),
    ensures
        s.refusal(now, Operation::Delegate { caller, delegatee }) == Some(Error::CircularDelegation)
            <==> caller != delegatee && exists|n: nat| #[trigger]
            crate::delegation::hop(s.delegation_map(), delegatee, n) == Some(caller),
{
    let m = s.delegation_map();
    let most = (crate::delegation::MAX_DELEGATION_DEPTH + 1) as nat;
    crate::delegation::law_cycle_is_where_the_chain_comes_back(m, caller, delegatee);
    if exists|n: nat| #[trigger] crate::delegation::hop(m, delegatee, n) == Some(caller) {
        let n = choose|n: nat| #[trigger] crate::delegation::hop(m, delegatee, n) == Some(caller);
        assert(crate::delegation::hop(m, delegatee, 0) == Some(delegatee));
        if n >= most {
            assert(crate::delegation::hop(m, delegatee, most) is None);
            crate::delegation::lemma_chain_stays_ended(m, delegatee, most, n);
        }
    }
}

/// A delegation makes the delegatee that of the caller, in place of any other; every other entry
/// stays what it is.
pub proof fn law_delegation_changes_one_delegatee(
    s: ContractState,
    now: u64,
    caller: u64,
    delegatee: u64,
    m: Map<u64, u64>,
)
    requires
        s.delegations == Some(m) || s.delegations is None && m == Map::<u64, u64>::empty(),
        s.refusal(now, Operation::Delegate { caller, delegatee }) is None,
    ensures
        ({
            let t = s.next(now, Operation::Delegate { caller, delegatee });
            &&& t.delegations is Some
            &&& t.delegations->0.contains_key(caller)
            &&& t.delegations->0[caller] == delegatee
            &&& t.delegations->0.remove(caller) == m.remove(caller)
            &&& t.proposals == s.proposals
            &&& t.approvals == s.approvals
            &&& t.max_approvers == s.max_approvers
            &&& t.count == s.count
            &&& t.effects == s.effects + seq![
                Effect::StoreDelegations,
                Effect::ExtendInstance,
                Effect::Publish(Event::Delegated { caller, delegatee }),
            ]
        }),
{
    let t = s.next(now, Operation::Delegate { caller, delegatee });
    assert(t.delegations->0.remove(caller) =~= m.remove(caller));
}

/// Whoever delegates takes the delegation back, and nobody else has one to take back; every other
/// entry stays what it is.
pub proof fn law_revocation_takes_one_delegation_back(
    s: ContractState,
    now: u64,
    caller: u64,
    m: Map<u64, u64>,
)
    requires
        s.delegations == Some(m) || s.delegations is None && m == Map::<u64, u64>::empty(),
    ensures
        ({
            let op = Operation::RevokeDelegation { caller };
            let t = s.next(now, op);
            &&& s.refusal(now, op) is None <==> m.contains_key(caller)
            &&& !m.contains_key(caller) ==> s.refusal(now, op) == Some(Error::NotFound)
            &&& m.contains_key(caller) ==> {
                &&& t.delegations == Some(m.remove(caller))
                &&& t.proposals == s.proposals
                &&& t.approvals == s.approvals
                &&& t.max_approvers == s.max_approvers
                &&& t.count == s.count
                &&& t.effects == s.effects + seq![
                    Effect::StoreDelegations,
                    Effect::Publish(Event::Undelegated { caller }),
                ]
            }
        }),
{
}

/// Approvals come from approving and from nothing else: no other operation changes the number of
/// approvals of a proposal, makes it approved, or puts an approval on record. It becomes executed by
/// an execution alone, and only after it was approved.
pub proof fn law_only_approving_approves(s: ContractState, now: u64, op: Operation, id: u64)
    requires
        s.proposals.contains_key(id),
        op is Create ==> s.next_id() != id,
    ensures
        ({
            let t = s.next(now, op);
            let approves = op is Approve && op.subject() == Some(id) && s.refusal(now, op) is None;
            &&& t.proposals.contains_key(id)
            &&& t.proposals[id].approvals != s.proposals[id].approvals ==> approves
            &&& t.proposals[id].state == ProposalState::Approved && s.proposals[id].state
                != ProposalState::Approved ==> approves
            &&& forall|a: u64| #[trigger]
                t.approvals.contains((id, a)) && !s.approvals.contains((id, a)) ==> op
                    == (Operation::Approve { caller: a, id })
            &&& t.proposals[id].state == ProposalState::Executed && s.proposals[id].state
                != ProposalState::Executed ==> op is Execute && s.proposals[id].state
                == ProposalState::Approved
            &&& t.proposals[id].state == ProposalState::Rejected && s.proposals[id].state
                != ProposalState::Rejected ==> op is Reject && s.proposals[id].state
                == ProposalState::Pending
        }),
{
}

impl ContractState {
    /// The votes that a history of operations, starting from this state, has cast for the proposal
    /// of `id`: for each approval of it that went through, the caller's own and those that other
    /// approvers forwarded to the caller at the time.
    pub open spec fn votes_cast(self, history: Seq<(u64, Operation)>, id: u64) -> nat
        decreases history.len(),
    {
        if history.len() == 0 {
            0
        } else {
            let earlier = history.drop_last();
            let before = self.run(earlier);
            let (now, op) = history.last();
            let cast = match op {
                Operation::Approve { caller, id: of } => if of == id && before.refusal(now, op)
                    is None {
                    1 + crate::delegation::voting_backers(
                        before.delegation_map(),
                        caller,
                        before.proposals[id].terms.approvers,
                    ).len()
                } else {
                    0
                },
                _ => 0,
            };
            self.votes_cast(earlier, id) + cast
        }
    }
}

/// However the contract is used, the approvals of a proposal are the votes that were cast for it:
/// none are made up, none are lost.
pub proof fn law_approvals_are_the_votes_cast(
    max_approvers: u32,
    history: Seq<(u64, Operation)>,
    id: u64,
)
    requires
        history.len() < u64::MAX,
        max_approvers <= 0x8000_0000,
    ensures
        ({
            let start = ContractState::blank(max_approvers);
            let s = start.run(history);
            &&& s.max_approvers == max_approvers
            &&& s.proposals.contains_key(id) ==> s.proposals[id].approvals == start.votes_cast(
                history,
                id,
            )
            &&& !s.proposals.contains_key(id) ==> start.votes_cast(history, id) == 0
        }),
    decreases history.len(),
{
    let start = ContractState::blank(max_approvers);
    if history.len() > 0 {
        let earlier = history.drop_last();
        let (now, op) = history.last();
        let before = start.run(earlier);
        law_approvals_are_the_votes_cast(max_approvers, earlier, id);
        crate::laws::law_every_history_is_consistent(max_approvers, earlier);
        match op {
            Operation::Approve { caller, id: of } => {
                if of == id && before.refusal(now, op) is None {
                    crate::laws::law_tally_fits(before, now, caller, id);
                }
            },
            Operation::Create { terms } => {
                if before.refusal(now, op) is None {
                    crate::laws::law_creation_is_read_back(before, now, terms);
                }
            },
            _ => {},
        }
    }
}

/// A proposal that is approved, executed or closed has had at least as many votes cast for it as its
/// threshold asks for.
pub proof fn law_nothing_is_approved_without_votes(
    max_approvers: u32,
    history: Seq<(u64, Operation)>,
    id: u64,
)
    requires
        history.len() < u64::MAX,
        max_approvers <= 0x8000_0000,
        ContractState::blank(max_approvers).run(history).proposals.contains_key(id),
        ContractState::blank(max_approvers).run(history).proposals[id].state
            == ProposalState::Approved || ContractState::blank(max_approvers).run(
            history,
        ).proposals[id].state == ProposalState::Executed || ContractState::blank(max_approvers).run(
            history,
        ).proposals[id].state == ProposalState::Closed,
    ensures
        ContractState::blank(max_approvers).votes_cast(history, id) >= ContractState::blank(
            max_approvers,
        ).run(history).proposals[id].terms.threshold,
{
    law_approvals_are_the_votes_cast(max_approvers, history, id);
    crate::laws::law_every_history_is_consistent(max_approvers, history);
}

/// A history is its operations one after the other.
pub proof fn law_histories_are_run_in_order(
    s: ContractState,
    history: Seq<(u64, Operation)>,
    now: u64,
    op: Operation,
)
    ensures
        s.run(Seq::empty()) == s,
        s.run(history.push((now, op))) == s.run(history).next(now, op),
        s.refusal(now, op) is Some ==> s.next(now, op) == s,
{
    assert(history.push((now, op)).drop_last() =~= history);
}

/// A deadline passes at the ledger time that it names, and one that is not set never does.
pub proof fn law_deadline_passes_when_it_says(r: ProposalRecord, now: u64)
    ensures
        r.past_deadline(now) <==> 0 < r.terms.expires_at <= now,
{
}

/// The codes are those that consumers off the chain know.
pub proof fn law_codes_are_the_released_ones()
    ensures
        Error::NotFound.spec_code() == 1,
        Error::AlreadyExists.spec_code() == 2,
        Error::Unauthorized.spec_code() == 3,
        Error::InvalidInput.spec_code() == 4,
        Error::NotInitialized.spec_code() == 5,
        Error::AlreadyInitialized.spec_code() == 6,
        Error::InsufficientFunds.spec_code() == 10,
        Error::Overflow.spec_code() == 11,
        Error::Underflow.spec_code() == 12,
        Error::InvalidAmount.spec_code() == 13,
        Error::PolicyDenied.spec_code() == 20,
        Error::PolicyHashMismatch.spec_code() == 21,
        Error::EmergencyLock.spec_code() == 22,
        Error::PolicyRecipientRestricted.spec_code() == 23,
        Error::RegistryFrozen.spec_code() == 30,
        Error::BudgetExceeded.spec_code() == 40,
        Error::BudgetFrozen.spec_code() == 41,
        Error::BudgetArchived.spec_code() == 42,
        Error::AssetNotAuthorized.spec_code() == 43,
        Error::WalletFrozen.spec_code() == 50,
        Error::WalletArchived.spec_code() == 51,
        Error::WalletPaused.spec_code() == 52,
        Error::InvalidState.spec_code() == 53,
        Error::InvalidSignature.spec_code() == 60,
        Error::ThresholdNotMet.spec_code() == 61,
        Error::AlreadySigned.spec_code() == 62,
        Error::NotASigner.spec_code() == 63,
        Error::InvalidThreshold.spec_code() == 64,
        Error::TimeLocked.spec_code() == 65,
        Error::TooManySigners.spec_code() == 66,
        Error::ProposalExpired.spec_code() == 70,
        Error::InvalidProposalState.spec_code() == 71,
        Error::ProposalNotApproved.spec_code() == 72,
        Error::NotAnApprover.spec_code() == 73,
        Error::CircularDelegation.spec_code() == 74,
        Error::DelegationDepthExceeded.spec_code() == 75,
        Error::ConditionNotMet.spec_code() == 80,
        Error::EscrowNotFunded.spec_code() == 81,
        Error::EscrowExpired.spec_code() == 82,
        Error::InvalidCondition.spec_code() == 83,
        Error::TimeLockActive.spec_code() == 84,
        ProposalState::Created.spec_code() == 0,
        ProposalState::Pending.spec_code() == 1,
        ProposalState::Approved.spec_code() == 2,
        ProposalState::Executed.spec_code() == 3,
        ProposalState::Closed.spec_code() == 4,
        ProposalState::Rejected.spec_code() == 5,
        ProposalState::Cancelled.spec_code() == 6,
        ProposalState::Expired.spec_code() == 7,
{
}

/// An invocation is authorized by those who are named as having authorized it.
pub proof fn law_authorization_is_by_name(env: Invocation, address: u64)
    ensures
        env.authorizes(address) <==> exists|i: int|
            0 <= i < env.authorized@.len() && #[trigger] env.authorized@[i] == address,
{
}

} // verus!
