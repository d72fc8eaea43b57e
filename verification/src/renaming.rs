//! The numbers of participants are names and nothing more: what the contract decides does not
//! depend on which number stands for whom.
use vstd::prelude::*;
use crate::model::{ContractState, Operation};
use crate::proposal::{ProposalRecord, ProposalState, Terms};

verus! {

/// What a renaming makes of an address that may be missing.
pub open spec fn renamed_option(f: spec_fn(u64) -> u64, a: Option<u64>) -> Option<u64> {
    match a {
        Some(a) => Some(f(a)),
        None => None,
    }
}

/// Whether `f` turns the delegations `m` into the delegations `n`.
pub open spec fn renames_map(f: spec_fn(u64) -> u64, m: Map<u64, u64>, n: Map<u64, u64>) -> bool {
    &&& forall|a: u64| #[trigger] n.get(f(a)) == renamed_option(f, m.get(a))
    &&& forall|b: u64| #[trigger] n.contains_key(b) ==> exists|a: u64| m.contains_key(a) && f(a) == b
}

impl Terms {
    /// The terms under new names.
    pub open spec fn renamed(self, f: spec_fn(u64) -> u64) -> Terms {
        Terms {
            proposer: f(self.proposer),
            approvers: self.approvers.map_values(f),
            ..self
        }
    }
}

impl ProposalRecord {
    /// The proposal under new names.
    pub open spec fn renamed(self, f: spec_fn(u64) -> u64) -> ProposalRecord {
        ProposalRecord { terms: self.terms.renamed(f), ..self }
    }
}

impl Operation {
    /// The operation under new names.
    pub open spec fn renamed(self, f: spec_fn(u64) -> u64) -> Operation {
        match self {
            Operation::Initialize => Operation::Initialize,
            Operation::Create { terms } => Operation::Create { terms: terms.renamed(f) },
            Operation::Approve { caller, id } => Operation::Approve { caller: f(caller), id },
            Operation::Reject { caller, id } => Operation::Reject { caller: f(caller), id },
            Operation::Cancel { caller, id } => Operation::Cancel { caller: f(caller), id },
            Operation::Expire { id } => Operation::Expire { id },
            Operation::Execute { caller, id } => Operation::Execute { caller: f(caller), id },
            Operation::Close { caller, id } => Operation::Close { caller: f(caller), id },
            Operation::Delegate { caller, delegatee } => Operation::Delegate {
                caller: f(caller),
                delegatee: f(delegatee),
            },
            Operation::RevokeDelegation { caller } => Operation::RevokeDelegation {
                caller: f(caller),
            },
        }
    }
}

impl ContractState {
    /// Whether `f` turns the ledger entries of this state into those of `other`.
    pub open spec fn renames_to(self, f: spec_fn(u64) -> u64, other: ContractState) -> bool {
        &&& other.max_approvers == self.max_approvers
        &&& other.count == self.count
        &&& other.proposals == self.proposals.map_values(|r: ProposalRecord| r.renamed(f))
        &&& forall|id: u64, a: u64| #[trigger]
            other.approvals.contains((id, f(a))) <==> self.approvals.contains((id, a))
        &&& other.delegations is Some <==> self.delegations is Some
        &&& renames_map(f, self.delegation_map(), other.delegation_map())
    }
}

/// A chain under new names is the chain, renamed.
proof fn lemma_hop_renamed(
    f: spec_fn(u64) -> u64,
    m: Map<u64, u64>,
    n: Map<u64, u64>,
    from: u64,
    k: nat,
)
    requires
        renames_map(f, m, n),
    ensures
        crate::delegation::hop(n, f(from), k) == renamed_option(
            f,
            crate::delegation::hop(m, from, k),
        ),
    decreases k,
{
    if k > 0 {
        lemma_hop_renamed(f, m, n, from, (k - 1) as nat);
        match crate::delegation::hop(m, from, (k - 1) as nat) {
            Some(a) => {
                assert(n.get(f(a)) == renamed_option(f, m.get(a)));
            },
            None => {},
        }
    }
}

/// A chain comes to an address exactly when the renamed chain comes to the renamed address.
proof fn lemma_reaches_renamed(
    f: spec_fn(u64) -> u64,
    m: Map<u64, u64>,
    n: Map<u64, u64>,
    from: u64,
    to: u64,
    least: nat,
    most: nat,
)
    requires
        vstd::relations::injective(f),
        renames_map(f, m, n),
    ensures
        crate::delegation::reaches(n, f(from), f(to), least, most) == crate::delegation::reaches(
            m,
            from,
            to,
            least,
            most,
        ),
{
    assert forall|k: nat|
        #![trigger crate::delegation::hop(m, from, k)]
        #![trigger crate::delegation::hop(n, f(from), k)]
        (crate::delegation::hop(n, f(from), k) == Some(f(to))) == (crate::delegation::hop(m, from, k)
            == Some(to)) by {
        lemma_hop_renamed(f, m, n, from, k);
    }
    if crate::delegation::reaches(m, from, to, least, most) {
        let k = choose|k: nat|
            least <= k <= most && #[trigger] crate::delegation::hop(m, from, k) == Some(to);
        assert(crate::delegation::hop(n, f(from), k) == Some(f(to)));
    }
    if crate::delegation::reaches(n, f(from), f(to), least, most) {
        let k = choose|k: nat|
            least <= k <= most && #[trigger] crate::delegation::hop(n, f(from), k) == Some(f(to));
        assert(crate::delegation::hop(m, from, k) == Some(to));
    }
}

/// Whether a vote arrives does not depend on the names.
proof fn lemma_arrival_renamed(
    f: spec_fn(u64) -> u64,
    m: Map<u64, u64>,
    n: Map<u64, u64>,
    current: u64,
    target: u64,
)
    requires
        vstd::relations::injective(f),
        renames_map(f, m, n),
    ensures
        crate::delegation::arrival_verdict(n, f(current), f(target))
            == crate::delegation::arrival_verdict(m, current, target),
{
    let depth = crate::delegation::MAX_DELEGATION_DEPTH;
    lemma_reaches_renamed(f, m, n, current, target, 0, (depth - 2) as nat);
    lemma_hop_renamed(f, m, n, current, (depth - 1) as nat);
}

/// A list holds an address exactly when the renamed list holds the renamed address.
proof fn lemma_contains_renamed(f: spec_fn(u64) -> u64, s: Seq<u64>, a: u64)
    requires
        vstd::relations::injective(f),
    ensures
        s.map_values(f).contains(f(a)) == s.contains(a),
{
    let t = s.map_values(f);
    if s.contains(a) {
        let i = choose|i: int| 0 <= i < s.len() && s[i] == a;
        assert(t[i] == f(a));
    }
    if t.contains(f(a)) {
        let i = choose|i: int| 0 <= i < t.len() && t[i] == f(a);
        assert(s[i] == a);
    }
}

/// Whether a delegation would make a chain too long does not depend on the names.
proof fn lemma_outgrows_renamed(
    f: spec_fn(u64) -> u64,
    m: Map<u64, u64>,
    n: Map<u64, u64>,
    delegator: u64,
    delegatee: u64,
)
    requires
        vstd::relations::injective(f),
        renames_map(f, m, n),
    ensures
        crate::delegation::outgrows(n, f(delegator), f(delegatee)) == crate::delegation::outgrows(
            m,
            delegator,
            delegatee,
        ),
{
    let depth = crate::delegation::MAX_DELEGATION_DEPTH;
    if crate::delegation::outgrows(m, delegator, delegatee) {
        let (d, i, j) = choose|d: u64, i: nat, j: nat| #[trigger]
            crate::delegation::hop(m, d, i) == Some(delegator) && (
            #[trigger] crate::delegation::hop(m, delegatee, j)) is Some && i + 1 + j > depth;
        lemma_hop_renamed(f, m, n, d, i);
        lemma_hop_renamed(f, m, n, delegatee, j);
        assert(crate::delegation::hop(n, f(d), i) == Some(f(delegator)));
        assert(crate::delegation::hop(n, f(delegatee), j) is Some);
    }
    if crate::delegation::outgrows(n, f(delegator), f(delegatee)) {
        let (e, i, j) = choose|e: u64, i: nat, j: nat| #[trigger]
            crate::delegation::hop(n, e, i) == Some(f(delegator)) && (
            #[trigger] crate::delegation::hop(n, f(delegatee), j)) is Some && i + 1 + j > depth;
        let d = if i == 0 {
            delegator
        } else {
            choose|d: u64| m.contains_key(d) && f(d) == e
        };
        if i == 0 {
            assert(crate::delegation::hop(n, e, 0) == Some(e));
        } else {
            crate::delegation::lemma_chain_starts_at_a_delegator(n, e, i);
        }
        assert(f(d) == e);
        lemma_hop_renamed(f, m, n, d, i);
        lemma_hop_renamed(f, m, n, delegatee, j);
        assert(crate::delegation::hop(m, d, i) == Some(delegator));
        assert(crate::delegation::hop(m, delegatee, j) is Some);
    }
}

/// A set has as many members under new names.
proof fn lemma_len_renamed(f: spec_fn(u64) -> u64, before: Set<u64>, after: Set<u64>)
    requires
        vstd::relations::injective(f),
        forall|d: u64| #[trigger] before.contains(d) ==> after.contains(f(d)),
        forall|e: u64| #[trigger] after.contains(e) ==> exists|d: u64| before.contains(d) && f(d) == e,
    ensures
        after.len() == before.len(),
{
    assert(before.map(f) =~= after) by {
        assert forall|e: u64| after.contains(e) implies before.map(f).contains(e) by {
            let d = choose|d: u64| before.contains(d) && f(d) == e;
            assert(before.contains(d) && e == f(d));
        }
    }
    crate::delegation::lemma_addresses_are_finite(before);
    vstd::set_lib::lemma_map_size(before, after, f);
}

/// Whether the vote of a delegator arrives does not depend on the names.
proof fn lemma_delegator_renamed(
    f: spec_fn(u64) -> u64,
    m: Map<u64, u64>,
    n: Map<u64, u64>,
    d: u64,
    addr: u64,
)
    requires
        vstd::relations::injective(f),
        renames_map(f, m, n),
        m.contains_key(d),
    ensures
        n.contains_key(f(d)),
        crate::delegation::arrival_verdict(n, n[f(d)], f(addr))
            == crate::delegation::arrival_verdict(m, m[d], addr),
        crate::delegation::backers(n, f(addr)).contains(f(d)) == crate::delegation::backers(
            m,
            addr,
        ).contains(d),
{
    assert(n.get(f(d)) == renamed_option(f, m.get(d)));
    assert(n.get(f(addr)) == renamed_option(f, m.get(addr)));
    lemma_arrival_renamed(f, m, n, m[d], addr);
}

/// How many votes arrive at an address does not depend on the names.
proof fn lemma_power_renamed(
    f: spec_fn(u64) -> u64,
    m: Map<u64, u64>,
    n: Map<u64, u64>,
    addr: u64,
)
    requires
        vstd::relations::injective(f),
        renames_map(f, m, n),
    ensures
        crate::delegation::delegated_power(n, f(addr)) == crate::delegation::delegated_power(
            m,
            addr,
        ),
{
    if exists|d: u64|
        m.contains_key(d) && #[trigger] crate::delegation::arrival_verdict(m, m[d], addr) is Err {
        let d = choose|d: u64|
            m.contains_key(d) && #[trigger] crate::delegation::arrival_verdict(m, m[d], addr) is Err;
        lemma_delegator_renamed(f, m, n, d, addr);
    }
    if exists|e: u64|
        n.contains_key(e) && #[trigger] crate::delegation::arrival_verdict(n, n[e], f(addr)) is Err {
        let e = choose|e: u64|
            n.contains_key(e) && #[trigger] crate::delegation::arrival_verdict(n, n[e], f(addr))
                is Err;
        let d = choose|d: u64| m.contains_key(d) && f(d) == e;
        lemma_delegator_renamed(f, m, n, d, addr);
    }
    let before = crate::delegation::backers(m, addr);
    let after = crate::delegation::backers(n, f(addr));
    assert forall|d: u64| #[trigger] before.contains(d) implies after.contains(f(d)) by {
        lemma_delegator_renamed(f, m, n, d, addr);
    }
    assert forall|e: u64| #[trigger] after.contains(e) implies exists|d: u64|
        before.contains(d) && f(d) == e by {
        assert(n.contains_key(e));
        let d = choose|d: u64| m.contains_key(d) && f(d) == e;
        lemma_delegator_renamed(f, m, n, d, addr);
        assert(before.contains(d));
    }
    lemma_len_renamed(f, before, after);
}

/// How many votes arrive at an address from those on a list does not depend on the names.
proof fn lemma_votes_renamed(
    f: spec_fn(u64) -> u64,
    m: Map<u64, u64>,
    n: Map<u64, u64>,
    addr: u64,
    voters: Seq<u64>,
)
    requires
        vstd::relations::injective(f),
        renames_map(f, m, n),
    ensures
        crate::delegation::delegated_votes(n, f(addr), voters.map_values(f))
            == crate::delegation::delegated_votes(m, addr, voters),
{
    let listed = voters.map_values(f);
    if exists|d: u64|
        m.contains_key(d) && voters.contains(d) && #[trigger] crate::delegation::arrival_verdict(
            m,
            m[d],
            addr,
        ) is Err {
        let d = choose|d: u64|
            m.contains_key(d) && voters.contains(d) && #[trigger] crate::delegation::arrival_verdict(
                m,
                m[d],
                addr,
            ) is Err;
        lemma_delegator_renamed(f, m, n, d, addr);
        lemma_contains_renamed(f, voters, d);
    }
    if exists|e: u64|
        n.contains_key(e) && listed.contains(e) && #[trigger] crate::delegation::arrival_verdict(
            n,
            n[e],
            f(addr),
        ) is Err {
        let e = choose|e: u64|
            n.contains_key(e) && listed.contains(e) && #[trigger] crate::delegation::arrival_verdict(
                n,
                n[e],
                f(addr),
            ) is Err;
        let d = choose|d: u64| m.contains_key(d) && f(d) == e;
        lemma_delegator_renamed(f, m, n, d, addr);
        lemma_contains_renamed(f, voters, d);
    }
    let before = crate::delegation::voting_backers(m, addr, voters);
    let after = crate::delegation::voting_backers(n, f(addr), listed);
    assert forall|d: u64| #[trigger] before.contains(d) implies after.contains(f(d)) by {
        lemma_delegator_renamed(f, m, n, d, addr);
        lemma_contains_renamed(f, voters, d);
    }
    assert forall|e: u64| #[trigger] after.contains(e) implies exists|d: u64|
        before.contains(d) && f(d) == e by {
        assert(n.contains_key(e));
        let d = choose|d: u64| m.contains_key(d) && f(d) == e;
        lemma_delegator_renamed(f, m, n, d, addr);
        lemma_contains_renamed(f, voters, d);
        assert(before.contains(d));
    }
    lemma_len_renamed(f, before, after);
}

/// Whether a delegation closes a cycle or makes a chain too long, and how many votes arrive at an
/// address, from everybody or from those on a list, does not depend on the names.
pub proof fn law_delegation_does_not_depend_on_names(
    f: spec_fn(u64) -> u64,
    m: Map<u64, u64>,
    n: Map<u64, u64>,
    delegator: u64,
    addr: u64,
    voters: Seq<u64>,
)
    requires
        vstd::relations::injective(f),
        renames_map(f, m, n),
    ensures
        crate::delegation::cycle_verdict(n, f(delegator), f(addr))
            == crate::delegation::cycle_verdict(m, delegator, addr),
        crate::delegation::outgrows(n, f(delegator), f(addr)) == crate::delegation::outgrows(
            m,
            delegator,
            addr,
        ),
        crate::delegation::delegated_power(n, f(addr)) == crate::delegation::delegated_power(
            m,
            addr,
        ),
        crate::delegation::delegated_votes(n, f(addr), voters.map_values(f))
            == crate::delegation::delegated_votes(m, addr, voters),
{
    let depth = crate::delegation::MAX_DELEGATION_DEPTH as nat;
    lemma_reaches_renamed(f, m, n, addr, delegator, 1, depth);
    lemma_hop_renamed(f, m, n, addr, depth);
    lemma_outgrows_renamed(f, m, n, delegator, addr);
    lemma_power_renamed(f, m, n, addr);
    lemma_votes_renamed(f, m, n, addr, voters);
}

/// Writing a proposal under new names writes the renamed proposal.
proof fn lemma_insert_renamed(
    f: spec_fn(u64) -> u64,
    s: ContractState,
    t: ContractState,
    id: u64,
    r: ProposalRecord,
)
    requires
        s.renames_to(f, t),
    ensures
        t.proposals.insert(id, r.renamed(f)) == s.proposals.insert(id, r).map_values(
            |r: ProposalRecord| r.renamed(f),
        ),
{
    assert(t.proposals.insert(id, r.renamed(f)) =~= s.proposals.insert(id, r).map_values(
        |r: ProposalRecord| r.renamed(f),
    ));
}

/// The contract decides the same under other names, and ends up the same under those names:
/// renaming every participant, each to a different name, commutes with every operation.
pub proof fn law_operations_do_not_depend_on_names(
    f: spec_fn(u64) -> u64,
    s: ContractState,
    t: ContractState,
    now: u64,
    op: Operation,
)
    requires
        vstd::relations::injective(f),
        s.renames_to(f, t),
    ensures
        t.refusal(now, op.renamed(f)) == s.refusal(now, op),
        s.next(now, op).renames_to(f, t.next(now, op.renamed(f))),
{
    let m = s.delegation_map();
    let n = t.delegation_map();
    let s2 = s.next(now, op);
    let t2 = t.next(now, op.renamed(f));
    match op {
        Operation::Initialize => {},
        Operation::Create { terms } => {
            let r = ProposalRecord { terms, approvals: 0, state: ProposalState::Pending };
            lemma_insert_renamed(f, s, t, s.next_id(), r);
        },
        Operation::Approve { caller, id } => {
            if s.proposals.contains_key(id) {
                lemma_contains_renamed(f, s.proposals[id].terms.approvers, caller);
            }
            law_delegation_does_not_depend_on_names(
                f,
                m,
                n,
                caller,
                caller,
                s.proposals[id].terms.approvers,
            );
            assert(t.approvals.contains((id, f(caller))) == s.approvals.contains((id, caller)));
            assert(t.refusal(now, op.renamed(f)) == s.refusal(now, op));
            if s.refusal(now, op) is None {
                lemma_insert_renamed(f, s, t, id, s2.proposals[id]);
                assert forall|i: u64, a: u64| #[trigger]
                    t2.approvals.contains((i, f(a))) <==> s2.approvals.contains((i, a)) by {
                    assert(t.approvals.contains((i, f(a))) == s.approvals.contains((i, a)));
                }
            }
        },
        Operation::Reject { caller, id } => {
            if s.proposals.contains_key(id) {
                lemma_contains_renamed(f, s.proposals[id].terms.approvers, caller);
            }
            if s.refusal(now, op) is None {
                lemma_insert_renamed(f, s, t, id, s2.proposals[id]);
            }
        },
        Operation::Cancel { caller, id } => {
            if s.refusal(now, op) is None {
                lemma_insert_renamed(f, s, t, id, s2.proposals[id]);
            }
        },
        Operation::Expire { id } => {
            if s.refusal(now, op) is None {
                lemma_insert_renamed(f, s, t, id, s2.proposals[id]);
            }
        },
        Operation::Execute { caller, id } => {
            if s.refusal(now, op) is None {
                lemma_insert_renamed(f, s, t, id, s2.proposals[id]);
            }
        },
        Operation::Close { caller, id } => {
            if s.refusal(now, op) is None {
                lemma_insert_renamed(f, s, t, id, s2.proposals[id]);
            }
        },
        Operation::Delegate { caller, delegatee } => {
            law_delegation_does_not_depend_on_names(f, m, n, caller, delegatee, Seq::empty());
            let m2 = m.insert(caller, delegatee);
            let n2 = n.insert(f(caller), f(delegatee));
            assert forall|a: u64| #[trigger] n2.get(f(a)) == renamed_option(f, m2.get(a)) by {
                assert(n.get(f(a)) == renamed_option(f, m.get(a)));
            }
            assert forall|b: u64| #[trigger] n2.contains_key(b) implies exists|a: u64|
                m2.contains_key(a) && f(a) == b by {
                if b == f(caller) {
                    assert(m2.contains_key(caller));
                } else {
                    assert(n.contains_key(b));
                    let a = choose|a: u64| m.contains_key(a) && f(a) == b;
                    assert(m2.contains_key(a));
                }
            }
        },
        Operation::RevokeDelegation { caller } => {
            assert(n.get(f(caller)) == renamed_option(f, m.get(caller)));
            let m2 = m.remove(caller);
            let n2 = n.remove(f(caller));
            assert forall|a: u64| #[trigger] n2.get(f(a)) == renamed_option(f, m2.get(a)) by {
                assert(n.get(f(a)) == renamed_option(f, m.get(a)));
            }
            assert forall|b: u64| #[trigger] n2.contains_key(b) implies exists|a: u64|
                m2.contains_key(a) && f(a) == b by {
                assert(n.contains_key(b));
                let a = choose|a: u64| m.contains_key(a) && f(a) == b;
                assert(m2.contains_key(a));
            }
        },
    }
}

} // verus!
