//! What holds of the contract as a whole.
use vstd::prelude::*;
use crate::error::Error;
use crate::model::{ContractState, Operation};
use crate::proposal::{Effect, ProposalRecord, ProposalState, Terms};

verus! {

impl ProposalState {
    /// Whether an operation may move a proposal from this state to `to`.
    pub open spec fn may_become(self, to: ProposalState) -> bool {
        match self {
            ProposalState::Pending => to == ProposalState::Approved || to == ProposalState::Rejected
                || to == ProposalState::Cancelled || to == ProposalState::Expired,
            ProposalState::Approved => to == ProposalState::Executed || to
                == ProposalState::Cancelled || to == ProposalState::Expired,
            ProposalState::Executed => to == ProposalState::Closed,
            ProposalState::Created => to == ProposalState::Cancelled,
            ProposalState::Closed
            | ProposalState::Cancelled
            | ProposalState::Rejected
            | ProposalState::Expired => false,
        }
    }

    /// Whether a proposal in this state has come to its end.
    pub open spec fn is_final(self) -> bool {
        self == ProposalState::Closed || self == ProposalState::Cancelled || self
            == ProposalState::Rejected || self == ProposalState::Expired
    }
}

impl ProposalRecord {
    /// Whether the threshold can be met, and the state goes with the number of approvals: a
    /// proposal waits, or was rejected, below its threshold, and is approved, executed or closed
    /// only at or above it.
    pub open spec fn consistent(self, max_approvers: u32) -> bool {
        &&& self.terms.org.len() > 0
        &&& 1 <= self.terms.threshold <= self.terms.approvers.len() <= max_approvers
        &&& self.state != ProposalState::Created
        &&& self.state == ProposalState::Pending || self.state == ProposalState::Rejected
            ==> self.approvals < self.terms.threshold
        &&& self.state == ProposalState::Approved || self.state == ProposalState::Executed
            || self.state == ProposalState::Closed ==> self.approvals >= self.terms.threshold
    }
}

impl Operation {
    /// The proposal that the operation is about, if it is about one that is there already.
    pub open spec fn subject(self) -> Option<u64> {
        match self {
            Operation::Approve { id, .. } => Some(id),
            Operation::Reject { id, .. } => Some(id),
            Operation::Cancel { id, .. } => Some(id),
            Operation::Expire { id } => Some(id),
            Operation::Execute { id, .. } => Some(id),
            Operation::Close { id, .. } => Some(id),
            _ => None,
        }
    }
}

impl ContractState {
    /// Whether the proposals are those numbered from one up to the counter.
    pub open spec fn numbered(self) -> bool {
        forall|id: u64| #[trigger]
            self.proposals.contains_key(id) <==> self.count is Some && 1 <= id
                <= self.count->0
    }

    /// Whether every approval on record is of a proposal that is there, by one of its approvers.
    pub open spec fn signed_by_approvers(self) -> bool {
        forall|id: u64, a: u64| #[trigger]
            self.approvals.contains((id, a)) ==> self.proposals.contains_key(id)
                && self.proposals[id].terms.approvers.contains(a)
    }

    /// What holds of the contract at all times.
    pub open spec fn consistent(self) -> bool {
        &&& self.numbered()
        &&& forall|id: u64| #[trigger]
            self.proposals.contains_key(id) ==> self.proposals[id].consistent(self.max_approvers)
        &&& self.signed_by_approvers()
        &&& crate::delegation::acyclic(self.delegation_map())
        &&& crate::delegation::bounded(self.delegation_map())
        &&& self.count is Some ==> self.delegations is Some
    }

    /// Whether the counter has room for the proposal that the operation would create.
    pub open spec fn has_room_for(self, op: Operation) -> bool {
        op is Create ==> self.count != Some(u64::MAX)
    }

    /// Whether this state and `other` agree on every entry that the operation reads: those of the
    /// contract instance, the proposal that it is about, and for an approval whether the caller has
    /// given it already.
    pub open spec fn reads_like(self, other: ContractState, op: Operation) -> bool {
        &&& self.max_approvers == other.max_approvers
        &&& self.count == other.count
        &&& self.delegations == other.delegations
        &&& op.subject() matches Some(id) ==> self.proposals.get(id) == other.proposals.get(id)
        &&& op matches Operation::Approve { caller, id } ==> self.approvals.contains((id, caller))
            == other.approvals.contains((id, caller))
    }

    /// Whether this state is a part of the ledger `whole` that holds what the operation reads.
    pub open spec fn suffices_for(self, whole: ContractState, op: Operation) -> bool {
        &&& self.reads_like(whole, op)
        &&& self.proposals.submap_of(whole.proposals)
        &&& self.approvals.subset_of(whole.approvals)
    }

    /// The state after a history of operations, each at its ledger time.
    pub open spec fn run(self, history: Seq<(u64, Operation)>) -> ContractState
        decreases history.len(),
    {
        if history.len() == 0 {
            self
        } else {
            self.run(history.drop_last()).next(history.last().0, history.last().1)
        }
    }
}

/// The contract starts out consistent.
pub proof fn law_blank_is_consistent(max_approvers: u32)
    ensures
        ContractState::blank(max_approvers).consistent(),
{
    assert forall|a: u64, n: nat| n >= 1 implies #[trigger] crate::delegation::hop(
        Map::<u64, u64>::empty(),
        a,
        n,
    ) != Some(a) by {
        lemma_no_chain_in_empty_map(a, n);
    }
    assert forall|d: u64| #[trigger]
        crate::delegation::hop(
            Map::<u64, u64>::empty(),
            d,
            (crate::delegation::MAX_DELEGATION_DEPTH + 1) as nat,
        ) is None by {
        lemma_no_chain_in_empty_map(d, (crate::delegation::MAX_DELEGATION_DEPTH + 1) as nat);
    }
}

/// Where nobody delegates, no chain is longer than nothing.
proof fn lemma_no_chain_in_empty_map(a: u64, n: nat)
    requires
        n >= 1,
    ensures
        crate::delegation::hop(Map::<u64, u64>::empty(), a, n) is None,
{
    let m = Map::<u64, u64>::empty();
    assert(crate::delegation::hop(m, a, 0) == Some(a));
    assert(crate::delegation::hop(m, a, 1) is None);
    crate::delegation::lemma_chain_stays_ended(m, a, 1, n);
}

/// Every operation keeps the contract consistent.
pub proof fn law_operations_keep_consistency(s: ContractState, now: u64, op: Operation)
    requires
        s.consistent(),
        s.has_room_for(op),
    ensures
        s.next(now, op).consistent(),
{
    let t = s.next(now, op);
    if s.refusal(now, op) is None {
        match op {
            Operation::Initialize => {
                law_blank_is_consistent(s.max_approvers);
            },
            Operation::Create { terms } => {
                assert(t.delegation_map() == s.delegation_map());
                assert(t.numbered());
                assert(t.signed_by_approvers());
            },
            Operation::Delegate { caller, delegatee } => {
                crate::delegation::law_delegating_closes_no_cycle(
                    s.delegation_map(),
                    caller,
                    delegatee,
                );
                crate::delegation::law_delegating_keeps_chains_bounded(
                    s.delegation_map(),
                    caller,
                    delegatee,
                );
            },
            Operation::RevokeDelegation { caller } => {
                crate::delegation::law_revoking_closes_no_cycle(s.delegation_map(), caller);
                crate::delegation::law_revoking_keeps_chains_bounded(s.delegation_map(), caller);
            },
            _ => {
                assert(t.delegation_map() == s.delegation_map());
                assert(t.numbered());
                assert(t.signed_by_approvers());
            },
        }
    }
}

/// However the contract is used, it stays consistent: every state that operations lead to from a
/// blank contract is.
pub proof fn law_every_history_is_consistent(max_approvers: u32, history: Seq<(u64, Operation)>)
    requires
        history.len() < u64::MAX,
    ensures
        ContractState::blank(max_approvers).run(history).consistent(),
        ContractState::blank(max_approvers).run(history).count matches Some(count) ==> count
            <= history.len(),
    decreases history.len(),
{
    if history.len() == 0 {
        law_blank_is_consistent(max_approvers);
    } else {
        law_every_history_is_consistent(max_approvers, history.drop_last());
        law_operations_keep_consistency(
            ContractState::blank(max_approvers).run(history.drop_last()),
            history.last().0,
            history.last().1,
        );
    }
}

/// No proposal is approved, executed or closed without the approvals that its threshold asks for.
pub proof fn law_nothing_executes_below_threshold(
    max_approvers: u32,
    history: Seq<(u64, Operation)>,
    id: u64,
)
    requires
        history.len() < u64::MAX,
        ContractState::blank(max_approvers).run(history).proposals.contains_key(id),
        ContractState::blank(max_approvers).run(history).proposals[id].state
            == ProposalState::Approved || ContractState::blank(max_approvers).run(
            history,
        ).proposals[id].state == ProposalState::Executed || ContractState::blank(max_approvers).run(
            history,
        ).proposals[id].state == ProposalState::Closed,
    ensures
        ContractState::blank(max_approvers).run(history).proposals[id].approvals
            >= ContractState::blank(max_approvers).run(history).proposals[id].terms.threshold,
{
    law_every_history_is_consistent(max_approvers, history);
}

/// A proposal stays, its terms never change, its state changes only along the lifecycle, and at its
/// end nothing of it changes. The one operation that can touch more is a creation that hands out
/// the id again, once the counter has started over.
pub proof fn law_proposals_follow_the_lifecycle(
    s: ContractState,
    now: u64,
    op: Operation,
    id: u64,
)
    requires
        s.proposals.contains_key(id),
        op is Create ==> s.next_id() != id,
    ensures
        s.next(now, op).proposals.contains_key(id),
        s.next(now, op).proposals[id].terms == s.proposals[id].terms,
        s.next(now, op).proposals[id].state == s.proposals[id].state
            || s.proposals[id].state.may_become(s.next(now, op).proposals[id].state),
        s.proposals[id].state.is_final() ==> s.next(now, op).proposals[id] == s.proposals[id],
{
}

/// The terms that a proposal was created with hold for good.
pub proof fn law_terms_are_for_good(
    max_approvers: u32,
    past: Seq<(u64, Operation)>,
    future: Seq<(u64, Operation)>,
    id: u64,
)
    requires
        past.len() + future.len() < u64::MAX,
        ContractState::blank(max_approvers).run(past).proposals.contains_key(id),
    ensures
        ContractState::blank(max_approvers).run(past + future).proposals.contains_key(id),
        ContractState::blank(max_approvers).run(past + future).proposals[id].terms
            == ContractState::blank(max_approvers).run(past).proposals[id].terms,
    decreases future.len(),
{
    let history = past + future;
    if future.len() == 0 {
        assert(history =~= past);
    } else {
        law_terms_are_for_good(max_approvers, past, future.drop_last(), id);
        assert(history.drop_last() =~= past + future.drop_last());
        law_every_history_is_consistent(max_approvers, history.drop_last());
        law_proposals_follow_the_lifecycle(
            ContractState::blank(max_approvers).run(history.drop_last()),
            history.last().0,
            history.last().1,
            id,
        );
    }
}

/// A closed, a cancelled, a rejected and an expired proposal stay what they are, whatever is tried.
pub proof fn law_ends_are_final(
    max_approvers: u32,
    past: Seq<(u64, Operation)>,
    future: Seq<(u64, Operation)>,
    id: u64,
)
    requires
        past.len() + future.len() < u64::MAX,
        ContractState::blank(max_approvers).run(past).proposals.contains_key(id),
        ContractState::blank(max_approvers).run(past).proposals[id].state.is_final(),
    ensures
        ContractState::blank(max_approvers).run(past + future).proposals.contains_key(id),
        ContractState::blank(max_approvers).run(past + future).proposals[id]
            == ContractState::blank(max_approvers).run(past).proposals[id],
    decreases future.len(),
{
    let history = past + future;
    if future.len() == 0 {
        assert(history =~= past);
    } else {
        law_ends_are_final(max_approvers, past, future.drop_last(), id);
        assert(history.drop_last() =~= past + future.drop_last());
        law_every_history_is_consistent(max_approvers, history.drop_last());
    }
}

/// An operation leaves every proposal alone that it is not about.
pub proof fn law_other_proposals_are_left_alone(
    s: ContractState,
    now: u64,
    op: Operation,
    other: u64,
)
    requires
        op.subject() != Some(other),
        op is Create ==> s.next_id() != other,
    ensures
        s.next(now, op).proposals.contains_key(other) == s.proposals.contains_key(other),
        s.next(now, op).proposals[other] == s.proposals[other],
{
}

/// Only those entitled to it move a proposal: its approvers approve and reject it, its proposer
/// cancels, executes and closes it.
pub proof fn law_only_the_entitled_act(s: ContractState, now: u64, caller: u64, id: u64)
    ensures
        s.refusal(now, Operation::Approve { caller, id }) is None
            ==> s.proposals[id].terms.approvers.contains(caller),
        s.refusal(now, Operation::Reject { caller, id }) is None
            ==> s.proposals[id].terms.approvers.contains(caller),
        s.refusal(now, Operation::Cancel { caller, id }) is None
            ==> s.proposals[id].terms.proposer == caller,
        s.refusal(now, Operation::Execute { caller, id }) is None
            ==> s.proposals[id].terms.proposer == caller,
        s.refusal(now, Operation::Close { caller, id }) is None
            ==> s.proposals[id].terms.proposer == caller,
{
}

/// An approval on record is never taken off it.
proof fn lemma_approvals_stay(s: ContractState, history: Seq<(u64, Operation)>)
    ensures
        s.approvals.subset_of(s.run(history).approvals),
    decreases history.len(),
{
    if history.len() > 0 {
        lemma_approvals_stay(s, history.drop_last());
    }
}

/// Nobody approves a proposal twice: after an approval, and whatever happens next, another by the
/// same caller is refused.
pub proof fn law_nobody_approves_twice(
    s: ContractState,
    now: u64,
    caller: u64,
    id: u64,
    history: Seq<(u64, Operation)>,
    later: u64,
)
    requires
        s.refusal(now, Operation::Approve { caller, id }) is None,
    ensures
        s.next(now, Operation::Approve { caller, id }).run(history).refusal(
            later,
            Operation::Approve { caller, id },
        ) is Some,
{
    let t = s.next(now, Operation::Approve { caller, id });
    assert(t.approvals.contains((id, caller)));
    lemma_approvals_stay(t, history);
}

/// An approval adds the caller's own vote and the votes that other approvers forward to the caller,
/// as long as the sum fits, and approves the proposal exactly when that reaches the threshold. It
/// adds no more votes than there are approvers and than are forwarded to the caller.
pub proof fn law_approval_adds_the_votes(s: ContractState, now: u64, caller: u64, id: u64)
    requires
        s.refusal(now, Operation::Approve { caller, id }) is None,
        s.proposals[id].approvals + 1 + s.votes(caller, id)->Ok_0 <= u32::MAX,
    ensures
        s.next(now, Operation::Approve { caller, id }).proposals[id].approvals
            == s.proposals[id].approvals + 1 + s.votes(caller, id)->Ok_0,
        s.next(now, Operation::Approve { caller, id }).proposals[id].state
            == ProposalState::Approved <==> s.proposals[id].approvals + 1 + s.votes(
            caller,
            id,
        )->Ok_0 >= s.proposals[id].terms.threshold,
        1 + s.votes(caller, id)->Ok_0 <= s.proposals[id].terms.approvers.len(),
        s.power(caller) matches Ok(power) ==> s.votes(caller, id)->Ok_0 <= power,
{
    crate::delegation::law_votes_come_from_other_voters(
        s.delegation_map(),
        caller,
        s.proposals[id].terms.approvers,
    );
}

/// The votes of an approval always add up without starting over, as long as no more than 2^31
/// approvers are admitted: reaching the threshold then always approves the proposal, and a proposal
/// that stays below it stays pending.
pub proof fn law_tally_fits(s: ContractState, now: u64, caller: u64, id: u64)
    requires
        s.consistent(),
        s.max_approvers <= 0x8000_0000,
        s.refusal(now, Operation::Approve { caller, id }) is None,
    ensures
        s.proposals[id].approvals + 1 + s.votes(caller, id)->Ok_0 <= u32::MAX,
        s.next(now, Operation::Approve { caller, id }).proposals[id].approvals
            == s.proposals[id].approvals + 1 + s.votes(caller, id)->Ok_0,
        s.next(now, Operation::Approve { caller, id }).proposals[id].state == (if s.next(
            now,
            Operation::Approve { caller, id },
        ).proposals[id].approvals >= s.proposals[id].terms.threshold {
            ProposalState::Approved
        } else {
            ProposalState::Pending
        }),
{
    crate::delegation::law_votes_come_from_other_voters(
        s.delegation_map(),
        caller,
        s.proposals[id].terms.approvers,
    );
}

/// Past its deadline a proposal is neither approved nor executed, by anybody; it can be marked
/// expired then, while it is pending or approved, and no earlier.
pub proof fn law_deadlines_hold(s: ContractState, now: u64, caller: u64, id: u64)
    requires
        s.proposals.contains_key(id),
    ensures
        s.proposals[id].past_deadline(now) ==> {
            &&& s.refusal(now, Operation::Approve { caller, id }) == Some(Error::ProposalExpired)
            &&& s.refusal(now, Operation::Execute { caller, id }) == Some(Error::ProposalExpired)
        },
        s.refusal(now, Operation::Expire { id }) is None <==> s.proposals[id].past_deadline(now)
            && (s.proposals[id].state == ProposalState::Pending || s.proposals[id].state
            == ProposalState::Approved),
{
}

/// A deadline that has passed stays passed, and a proposal that is not refused for its deadline
/// when it is created is not past it yet.
pub proof fn law_deadlines_pass_once(s: ContractState, now: u64, later: u64, terms: Terms)
    requires
        now <= later,
        s.refusal(now, Operation::Create { terms }) is None,
    ensures
        !s.next(now, Operation::Create { terms }).proposals[s.next_id()].past_deadline(now),
        forall|r: ProposalRecord|
            r.past_deadline(now) ==> #[trigger] r.past_deadline(later),
{
}

/// A created proposal is there under a new id, pending, without approvals, and with the terms that
/// were asked for; the ids count up from one.
pub proof fn law_creation_is_read_back(s: ContractState, now: u64, terms: Terms)
    requires
        s.consistent(),
        s.count != Some(u64::MAX),
        s.refusal(now, Operation::Create { terms }) is None,
    ensures
        !s.proposals.contains_key(s.next_id()),
        s.next_id() == s.count->0 + 1,
        s.next(now, Operation::Create { terms }).count == Some(s.next_id()),
        s.next(now, Operation::Create { terms }).proposals.contains_key(s.next_id()),
        s.next(now, Operation::Create { terms }).proposals[s.next_id()] == (ProposalRecord {
            terms,
            approvals: 0,
            state: ProposalState::Pending,
        }),
{
}

/// An approved proposal can be executed by its proposer before its deadline, and closed after
/// that.
pub proof fn law_approved_proposals_can_be_finished(s: ContractState, now: u64, later: u64, id: u64)
    requires
        s.proposals.contains_key(id),
        s.proposals[id].state == ProposalState::Approved,
        !s.proposals[id].past_deadline(now),
    ensures
        ({
            let caller = s.proposals[id].terms.proposer;
            let executed = s.next(now, Operation::Execute { caller, id });
            let finished = executed.next(later, Operation::Close { caller, id });
            &&& executed.proposals[id].state == ProposalState::Executed
            &&& finished.proposals[id].state == ProposalState::Closed
        }),
{
}

/// Initializing succeeds once: after it, and whatever happens next, it is refused.
pub proof fn law_initialized_once(
    s: ContractState,
    now: u64,
    history: Seq<(u64, Operation)>,
    later: u64,
)
    ensures
        s.next(now, Operation::Initialize).run(history).refusal(later, Operation::Initialize)
            == Some(Error::AlreadyInitialized),
    decreases history.len(),
{
    if history.len() > 0 {
        law_initialized_once(s, now, history.drop_last(), later);
    }
}

/// A delegation is read back until it is taken back, other delegations stay what they are, and
/// taking back a first delegation restores the delegations from before it.
pub proof fn law_delegation_is_read_back(
    s: ContractState,
    now: u64,
    later: u64,
    caller: u64,
    delegatee: u64,
)
    requires
        s.refusal(now, Operation::Delegate { caller, delegatee }) is None,
    ensures
        ({
            let given = s.next(now, Operation::Delegate { caller, delegatee });
            let taken = given.next(later, Operation::RevokeDelegation { caller });
            &&& given.delegation_map().get(caller) == Some(delegatee)
            &&& forall|a: u64|
                a != caller ==> #[trigger] given.delegation_map().get(a) == s.delegation_map().get(
                    a,
                )
            &&& given.refusal(later, Operation::RevokeDelegation { caller }) is None
            &&& taken.delegation_map().get(caller) is None
            &&& taken.delegation_map() == s.delegation_map().remove(caller)
            &&& !s.delegation_map().contains_key(caller) ==> taken.delegation_map()
                == s.delegation_map()
        }),
{
    let given = s.next(now, Operation::Delegate { caller, delegatee });
    let taken = given.next(later, Operation::RevokeDelegation { caller });
    assert(taken.delegation_map() =~= s.delegation_map().remove(caller));
    if !s.delegation_map().contains_key(caller) {
        assert(taken.delegation_map() =~= s.delegation_map());
    }
}

/// Nobody delegates in a circle, however long: a delegation to oneself is refused, and one to an
/// address from which the vote would come back.
pub proof fn law_circular_delegation_is_refused(
    s: ContractState,
    now: u64,
    caller: u64,
    delegatee: u64,
    n: nat,
)
    requires
        crate::delegation::hop(s.delegation_map(), delegatee, n) == Some(caller),
    ensures
        s.refusal(now, Operation::Delegate { caller, delegatee }) is Some,
        s.consistent() ==> s.refusal(now, Operation::Delegate { caller, delegatee }) == Some(
            if caller == delegatee {
                Error::InvalidInput
            } else {
                Error::CircularDelegation
            },
        ),
{
    let m = s.delegation_map();
    let most = (crate::delegation::MAX_DELEGATION_DEPTH + 1) as nat;
    if n >= 1 {
        crate::delegation::law_cycles_are_not_cleared(m, caller, delegatee, n);
    } else {
        assert(crate::delegation::hop(m, delegatee, 0) == Some(delegatee));
    }
    if s.consistent() && n >= most {
        assert(crate::delegation::hop(m, delegatee, most) is None);
        crate::delegation::lemma_chain_stays_ended(m, delegatee, most, n);
    }
}

/// A delegation is refused that would make a chain longer than the maximum depth, whether the chain
/// leads to the caller or goes on from the delegatee. The error says so, unless the delegation is
/// refused for going round in a circle.
pub proof fn law_deep_delegation_is_refused(
    s: ContractState,
    now: u64,
    caller: u64,
    delegatee: u64,
    d: u64,
    i: nat,
    j: nat,
)
    requires
        crate::delegation::hop(s.delegation_map(), d, i) == Some(caller),
        crate::delegation::hop(s.delegation_map(), delegatee, j) is Some,
        i + 1 + j > crate::delegation::MAX_DELEGATION_DEPTH,
    ensures
        s.refusal(now, Operation::Delegate { caller, delegatee }) is Some,
        s.refusal(now, Operation::Delegate { caller, delegatee }) == Some(
            Error::DelegationDepthExceeded,
        ) || caller == delegatee || exists|n: nat|
            n >= 1 && #[trigger] crate::delegation::hop(s.delegation_map(), delegatee, n) == Some(
                caller,
            ),
{
}

/// However the contract is used, no chain of delegations is longer than the maximum depth, and none
/// comes back to where it started.
pub proof fn law_every_chain_is_bounded(
    max_approvers: u32,
    history: Seq<(u64, Operation)>,
    d: u64,
    n: nat,
)
    requires
        history.len() < u64::MAX,
        n >= 1,
    ensures
        n > crate::delegation::MAX_DELEGATION_DEPTH ==> crate::delegation::hop(
            ContractState::blank(max_approvers).run(history).delegation_map(),
            d,
            n,
        ) is None,
        crate::delegation::hop(
            ContractState::blank(max_approvers).run(history).delegation_map(),
            d,
            n,
        ) != Some(d),
{
    law_every_history_is_consistent(max_approvers, history);
    let m = ContractState::blank(max_approvers).run(history).delegation_map();
    let most = (crate::delegation::MAX_DELEGATION_DEPTH + 1) as nat;
    if n >= most {
        assert(crate::delegation::hop(m, d, most) is None);
        crate::delegation::lemma_chain_stays_ended(m, d, most, n);
    }
}

/// A first delegation moves the caller's vote, and all votes that ended at the caller, to the end
/// of the delegatee's chain; every other address that does not delegate keeps its power.
pub proof fn law_delegating_moves_the_votes(
    s: ContractState,
    now: u64,
    caller: u64,
    delegatee: u64,
)
    requires
        s.refusal(now, Operation::Delegate { caller, delegatee }) is None,
        !s.delegation_map().contains_key(caller),
        crate::delegation::countable(
            s.next(now, Operation::Delegate { caller, delegatee }).delegation_map(),
        ),
    ensures
        ({
            let t = s.next(now, Operation::Delegate { caller, delegatee });
            let end = crate::delegation::chain_end(s.delegation_map(), delegatee);
            &&& !t.delegation_map().contains_key(end)
            &&& t.power(end) == Ok::<nat, Error>(
                s.power(end)->Ok_0 + s.power(caller)->Ok_0 + 1,
            )
            &&& t.power(caller) == Ok::<nat, Error>(0)
            &&& forall|a: u64|
                a != end && !t.delegation_map().contains_key(a) ==> #[trigger] t.power(a)
                    == s.power(a)
        }),
{
    crate::delegation::law_first_delegation_moves_the_votes(s.delegation_map(), caller, delegatee);
}

/// A refused operation changes nothing; it leaves nothing for the ledger to do either.
pub proof fn law_refusal_changes_nothing(s: ContractState, now: u64, op: Operation)
    requires
        s.refusal(now, op) is Some,
    ensures
        s.next(now, op) == s,
{
}

/// What the contract leaves for the ledger to do names every entry that it has changed.
pub proof fn law_every_change_is_written(s: ContractState, now: u64, op: Operation)
    ensures
        ({
            let t = s.next(now, op);
            let news = t.effects.skip(s.effects.len() as int);
            &&& t.effects == s.effects + news
            &&& t.count != s.count ==> t.count is Some && news.contains(
                Effect::StoreCount(t.count->0),
            )
            &&& forall|id: u64|
                (#[trigger] t.proposals.contains_key(id)) && !(s.proposals.contains_key(id)
                    && t.proposals[id] == s.proposals[id]) ==> news.contains(
                    Effect::StoreProposal(id),
                ) && news.contains(Effect::ExtendProposal(id))
            &&& forall|id: u64, a: u64|
                (#[trigger] t.approvals.contains((id, a))) && !s.approvals.contains((id, a))
                    ==> news.contains(Effect::StoreApproval(id, a))
            &&& t.delegations != s.delegations ==> news.contains(Effect::StoreDelegations)
        }),
{
    let t = s.next(now, op);
    let news = t.effects.skip(s.effects.len() as int);
    assert(t.effects =~= s.effects + news);
    if s.refusal(now, op) is None {
        match op {
            Operation::Initialize => {
                assert(news[0] == Effect::StoreCount(0));
                assert(news[1] == Effect::StoreDelegations);
            },
            Operation::Create { .. } => {
                assert(news[0] == Effect::StoreProposal(s.next_id()));
                assert(news[1] == Effect::ExtendProposal(s.next_id()));
                assert(news[2] == Effect::StoreCount(s.next_id()));
            },
            Operation::Approve { caller, id } => {
                assert(news[0] == Effect::StoreApproval(id, caller));
                assert(news[1] == Effect::StoreProposal(id));
                assert(news[2] == Effect::ExtendProposal(id));
            },
            Operation::Delegate { .. } => {
                assert(news[0] == Effect::StoreDelegations);
            },
            Operation::RevokeDelegation { .. } => {
                assert(news[0] == Effect::StoreDelegations);
            },
            _ => {
                assert(news[0] == Effect::StoreProposal(op.subject()->0));
                assert(news[1] == Effect::ExtendProposal(op.subject()->0));
            },
        }
    }
}

/// An operation needs only the entries that it reads: in two states that agree on them it is
/// refused alike, leaves the same for the ledger to do, and the states agree on them after it. A
/// created proposal is the same in both.
pub proof fn law_operations_need_only_what_they_read(
    s: ContractState,
    t: ContractState,
    now: u64,
    op: Operation,
)
    requires
        s.reads_like(t, op),
    ensures
        s.refusal(now, op) == t.refusal(now, op),
        s.next(now, op).effects.skip(s.effects.len() as int) == t.next(now, op).effects.skip(
            t.effects.len() as int,
        ),
        s.next(now, op).reads_like(t.next(now, op), op),
        s.next_id() == t.next_id(),
        op is Create && s.refusal(now, op) is None ==> s.next(now, op).proposals.get(s.next_id())
            == t.next(now, op).proposals.get(t.next_id()),
{
    if let Some(id) = op.subject() {
        assert(s.proposals.contains_key(id) == t.proposals.contains_key(id));
        assert(s.proposals.contains_key(id) ==> s.proposals[id] == t.proposals[id]);
    }
    assert(s.refusal(now, op) == t.refusal(now, op));
    assert(s.next(now, op).effects.skip(s.effects.len() as int) =~= t.next(now, op).effects.skip(
        t.effects.len() as int,
    ));
}

/// A part of the ledger is enough to work on, if it holds what the operation reads: the ledger after
/// the operation is the ledger before it with the entries of the part written over it.
pub proof fn law_part_of_the_ledger_suffices(
    part: ContractState,
    whole: ContractState,
    now: u64,
    op: Operation,
)
    requires
        part.suffices_for(whole, op),
    ensures
        ({
            let after = part.next(now, op);
            let ledger = whole.next(now, op);
            &&& part.refusal(now, op) == whole.refusal(now, op)
            &&& ledger.max_approvers == after.max_approvers
            &&& ledger.count == after.count
            &&& ledger.delegations == after.delegations
            &&& ledger.proposals == whole.proposals.union_prefer_right(after.proposals)
            &&& ledger.approvals == whole.approvals.union(after.approvals)
            &&& after.suffices_for(ledger, op)
        }),
{
    law_operations_need_only_what_they_read(part, whole, now, op);
    let after = part.next(now, op);
    let ledger = whole.next(now, op);
    assert(ledger.proposals =~= whole.proposals.union_prefer_right(after.proposals));
    assert(ledger.approvals =~= whole.approvals.union(after.approvals));
}

/// No two errors share a code, and no two lifecycle states do.
pub proof fn law_codes_are_distinct(a: Error, b: Error, p: ProposalState, q: ProposalState)
    ensures
        a.spec_code() == b.spec_code() ==> a == b,
        p.spec_code() == q.spec_code() ==> p == q,
{
}

} // verus!
