//! Delegation chains: where a forwarded vote goes, and how many votes arrive at an address.
use vstd::prelude::*;
use crate::collections::{Address, AddressList, DelegationMap};
use crate::error::Error;

verus! {

/// How long a delegation chain may get, and how far one is followed before the walk is given up.
pub const MAX_DELEGATION_DEPTH: u32 = 10;

/// Where the chain that starts at `from` stands after `n` delegations, if it is that long.
pub open spec fn hop(m: Map<u64, u64>, from: u64, n: nat) -> Option<u64>
    decreases n,
{
    if n == 0 {
        Some(from)
    } else {
        match hop(m, from, (n - 1) as nat) {
            Some(a) => m.get(a),
            None => None,
        }
    }
}

/// Whether the chain that starts at `from` stands at `to` after at least `least` and at most
/// `most` delegations.
pub open spec fn reaches(m: Map<u64, u64>, from: u64, to: u64, least: nat, most: nat) -> bool {
    exists|n: nat| least <= n <= most && #[trigger] hop(m, from, n) == Some(to)
}

/// Whether `delegator` would close a cycle by delegating to `delegatee`: whether the chain from
/// `delegatee` comes back to `delegator` within the maximum depth. A chain that does not and is
/// longer than that leaves the question open.
pub open spec fn cycle_verdict(m: Map<u64, u64>, delegator: u64, delegatee: u64) -> Result<
    bool,
    Error,
> {
    if reaches(m, delegatee, delegator, 1, MAX_DELEGATION_DEPTH as nat) {
        Ok(true)
    } else if hop(m, delegatee, MAX_DELEGATION_DEPTH as nat) is Some {
        Err(Error::DelegationDepthExceeded)
    } else {
        Ok(false)
    }
}

/// Whether a vote that was just forwarded to `current` arrives at `target`. The delegation that
/// brought it to `current` counts toward the maximum depth, so that at most eight more follow.
pub open spec fn arrival_verdict(m: Map<u64, u64>, current: u64, target: u64) -> Result<
    bool,
    Error,
> {
    if reaches(m, current, target, 0, (MAX_DELEGATION_DEPTH - 2) as nat) {
        Ok(true)
    } else if hop(m, current, (MAX_DELEGATION_DEPTH - 1) as nat) is Some {
        Err(Error::DelegationDepthExceeded)
    } else {
        Ok(false)
    }
}

/// Whether a delegation from `delegator` to `delegatee` would make a chain longer than the maximum
/// depth: a chain that comes to `delegator`, the new delegation, and the chain from `delegatee`.
pub open spec fn outgrows(m: Map<u64, u64>, delegator: u64, delegatee: u64) -> bool {
    exists|d: u64, i: nat, j: nat| #[trigger]
        hop(m, d, i) == Some(delegator) && (#[trigger] hop(m, delegatee, j)) is Some && i + 1 + j
            > MAX_DELEGATION_DEPTH
}

/// Everybody whose forwarded vote ends at `addr`. A vote that comes to somebody who delegates goes
/// on and does not end there.
pub open spec fn backers(m: Map<u64, u64>, addr: u64) -> Set<u64> {
    m.dom().filter(
        |d: u64|
            !m.contains_key(addr) && arrival_verdict(m, m[d], addr) == Ok::<bool, Error>(true),
    )
}

/// How many votes are forwarded to `addr`. One chain anywhere in the map that is too long to
/// follow and has not come to `addr` by then leaves the number open.
pub open spec fn delegated_power(m: Map<u64, u64>, addr: u64) -> Result<nat, Error> {
    if exists|d: u64| m.contains_key(d) && #[trigger] arrival_verdict(m, m[d], addr) is Err {
        Err(Error::DelegationDepthExceeded)
    } else {
        Ok(backers(m, addr).len())
    }
}

/// Those of the `voters` whose forwarded vote ends at `addr`.
pub open spec fn voting_backers(m: Map<u64, u64>, addr: u64, voters: Seq<u64>) -> Set<u64> {
    backers(m, addr).filter(|d: u64| voters.contains(d))
}

/// How many of the `voters` forward their vote to `addr`. The chain of one of them that is too
/// long to follow and has not come to `addr` by then leaves the number open.
pub open spec fn delegated_votes(m: Map<u64, u64>, addr: u64, voters: Seq<u64>) -> Result<
    nat,
    Error,
> {
    if exists|d: u64|
        m.contains_key(d) && voters.contains(d) && #[trigger] arrival_verdict(m, m[d], addr)
            is Err {
        Err(Error::DelegationDepthExceeded)
    } else {
        Ok(voting_backers(m, addr, voters).len())
    }
}

impl DelegationMap {
    /// Tells whether `delegator` would close a cycle by delegating to `delegatee`.
    pub fn would_create_cycle(&self, delegator: Address, delegatee: Address) -> (verdict: Result<
        bool,
        Error,
    >)
        ensures
            verdict == cycle_verdict(self@, delegator, delegatee),
    {
        let mut current: Address = delegatee;
        let mut depth: u32 = 0;
        while depth < MAX_DELEGATION_DEPTH
            invariant
                depth <= MAX_DELEGATION_DEPTH,
                hop(self@, delegatee, depth as nat) == Some(current),
                forall|n: nat|
                    1 <= n <= depth ==> #[trigger] hop(self@, delegatee, n) != Some(delegator),
            decreases MAX_DELEGATION_DEPTH - depth,
        {
            let next = self.get(current);
            assert(hop(self@, delegatee, (depth + 1) as nat) == next);
            match next {
                Some(next_addr) => {
                    if next_addr == delegator {
                        return Ok(true);
                    }
                    current = next_addr;
                },
                None => {
                    proof {
                        lemma_chain_stays_ended(
                            self@,
                            delegatee,
                            (depth + 1) as nat,
                            MAX_DELEGATION_DEPTH as nat,
                        );
                    }
                    return Ok(false);
                },
            }
            depth = depth + 1;
        }
        Err(Error::DelegationDepthExceeded)
    }

    /// Tells whether a vote that was just forwarded to `current` arrives at `target`.
    pub fn resolve_delegation(&self, current: Address, target: Address) -> (verdict: Result<
        bool,
        Error,
    >)
        ensures
            verdict == arrival_verdict(self@, current, target),
    {
        let mut at: Address = current;
        let mut depth: u32 = 1;
        while depth < MAX_DELEGATION_DEPTH
            invariant
                1 <= depth <= MAX_DELEGATION_DEPTH,
                hop(self@, current, (depth - 1) as nat) == Some(at),
                forall|n: nat| n + 1 < depth ==> #[trigger] hop(self@, current, n) != Some(target),
            decreases MAX_DELEGATION_DEPTH - depth,
        {
            if at == target {
                return Ok(true);
            }
            let next = self.get(at);
            assert(hop(self@, current, depth as nat) == next);
            match next {
                Some(next_addr) => {
                    at = next_addr;
                },
                None => {
                    proof {
                        lemma_chain_stays_ended(
                            self@,
                            current,
                            depth as nat,
                            (MAX_DELEGATION_DEPTH - 1) as nat,
                        );
                    }
                    return Ok(false);
                },
            }
            depth = depth + 1;
        }
        Err(Error::DelegationDepthExceeded)
    }

    /// Where the chain that starts at `from` stands after `hops` delegations, if it is that long.
    fn follow(&self, from: Address, hops: u32) -> (at: Option<Address>)
        ensures
            at == hop(self@, from, hops as nat),
    {
        let mut at: Address = from;
        let mut done: u32 = 0;
        while done < hops
            invariant
                done <= hops,
                hop(self@, from, done as nat) == Some(at),
            decreases hops - done,
        {
            let next = self.get(at);
            assert(hop(self@, from, (done + 1) as nat) == next);
            match next {
                Some(next_addr) => {
                    at = next_addr;
                },
                None => {
                    proof {
                        lemma_chain_stays_ended(self@, from, (done + 1) as nat, hops as nat);
                    }
                    return None;
                },
            }
            done = done + 1;
        }
        Some(at)
    }

    /// How many delegations follow one another from `from`, as far as the maximum depth.
    fn chain_length(&self, from: Address) -> (length: u32)
        ensures
            length <= MAX_DELEGATION_DEPTH,
            hop(self@, from, length as nat) is Some,
            length < MAX_DELEGATION_DEPTH ==> hop(self@, from, (length + 1) as nat) is None,
    {
        let mut at: Address = from;
        let mut length: u32 = 0;
        while length < MAX_DELEGATION_DEPTH
            invariant
                length <= MAX_DELEGATION_DEPTH,
                hop(self@, from, length as nat) == Some(at),
            decreases MAX_DELEGATION_DEPTH - length,
        {
            let next = self.get(at);
            assert(hop(self@, from, (length + 1) as nat) == next);
            match next {
                Some(next_addr) => {
                    at = next_addr;
                },
                None => {
                    return length;
                },
            }
            length = length + 1;
        }
        length
    }

    /// Tells whether a delegation from `delegator` to `delegatee` would make a chain longer than
    /// the maximum depth.
    pub fn would_outgrow_depth(&self, delegator: Address, delegatee: Address) -> (verdict: bool)
        ensures
            verdict == outgrows(self@, delegator, delegatee),
    {
        let length = self.chain_length(delegatee);
        if length == MAX_DELEGATION_DEPTH {
            assert(hop(self@, delegator, 0) == Some(delegator));
            assert(hop(self@, delegatee, length as nat) is Some);
            return true;
        }
        // The new delegation and the chain behind it leave room for fewer hops than these.
        let hops: u32 = MAX_DELEGATION_DEPTH - length;
        let delegators = self.keys();
        let len = delegators.len();
        let mut i: u32 = 0;
        while i < len
            invariant
                i <= len,
                len == delegators@.len(),
                1 <= hops,
                hops + length == MAX_DELEGATION_DEPTH,
                hop(self@, delegatee, length as nat) is Some,
                forall|k: int|
                    0 <= k < i ==> #[trigger] hop(self@, delegators@[k], hops as nat) != Some(
                        delegator,
                    ),
            decreases len - i,
        {
            let d: Address = delegators.get(i).unwrap();
            match self.follow(d, hops) {
                Some(at) => {
                    if at == delegator {
                        assert(hop(self@, d, hops as nat) == Some(delegator));
                        assert(hop(self@, delegatee, length as nat) is Some);
                        return true;
                    }
                },
                None => {},
            }
            i = i + 1;
        }
        proof {
            if outgrows(self@, delegator, delegatee) {
                let (d, n, j) = choose|d: u64, n: nat, j: nat| #[trigger]
                    hop(self@, d, n) == Some(delegator) && (#[trigger] hop(self@, delegatee, j))
                        is Some && n + 1 + j > MAX_DELEGATION_DEPTH;
                if j > length {
                    lemma_chain_stays_ended(self@, delegatee, (length + 1) as nat, j);
                }
                let skipped = (n - hops) as nat;
                if hop(self@, d, skipped) is None {
                    lemma_chain_stays_ended(self@, d, skipped, n);
                }
                let e = hop(self@, d, skipped)->0;
                lemma_hop_split(self@, d, skipped, hops as nat);
                assert(hop(self@, e, hops as nat) == Some(delegator));
                lemma_chain_starts_at_a_delegator(self@, e, hops as nat);
                assert(delegators@.to_set().contains(e));
                let k = choose|k: int| 0 <= k < delegators@.len() && delegators@[k] == e;
                assert(hop(self@, delegators@[k], hops as nat) != Some(delegator));
            }
        }
        false
    }

    /// Counts the votes that are forwarded to `addr`.
    pub fn count_delegated_power(&self, addr: Address) -> (power: Result<u32, Error>)
        ensures
            match power {
                Ok(count) => delegated_power(self@, addr) == Ok::<nat, Error>(count as nat),
                Err(e) => delegated_power(self@, addr) == Err::<nat, Error>(e),
            },
    {
        let ends_here = !self.contains_key(addr);
        let delegators = self.keys();
        let len = delegators.len();
        let mut count: u32 = 0;
        let mut i: u32 = 0;
        let ghost backs = |d: u64|
            !self@.contains_key(addr) && arrival_verdict(self@, self@[d], addr) == Ok::<
                bool,
                Error,
            >(true);
        assert(delegators@.take(0).to_set().filter(backs) =~= Set::<u64>::empty());
        while i < len
            invariant
                i <= len,
                len == delegators@.len(),
                ends_here == !self@.contains_key(addr),
                delegators@.no_duplicates(),
                delegators@.to_set() == self@.dom(),
                backs == (|d: u64|
                    !self@.contains_key(addr) && arrival_verdict(self@, self@[d], addr) == Ok::<
                        bool,
                        Error,
                    >(true)),
                count <= i,
                count == delegators@.take(i as int).to_set().filter(backs).len(),
                delegators@.take(i as int).to_set().finite(),
                forall|j: int|
                    0 <= j < i ==> (#[trigger] arrival_verdict(
                        self@,
                        self@[delegators@[j]],
                        addr,
                    )) is Ok,
            decreases len - i,
        {
            assert(delegators@.to_set().contains(delegators@[i as int]));
            let delegator: Address = delegators.get(i).unwrap();
            let delegatee: Address = self.get(delegator).unwrap();
            let verdict = self.resolve_delegation(delegatee, addr);
            proof {
                lemma_take_one_more(delegators@, i as int, backs);
            }
            match verdict {
                Ok(arrives) => {
                    if ends_here && arrives {
                        count = count + 1;
                    }
                },
                Err(e) => {
                    return Err(e);
                },
            }
            i = i + 1;
        }
        assert(delegators@.take(len as int) =~= delegators@);
        assert forall|d: u64| self@.contains_key(d) implies (#[trigger] arrival_verdict(
            self@,
            self@[d],
            addr,
        )) is Ok by {
            assert(delegators@.to_set().contains(d));
            let j = choose|j: int| 0 <= j < delegators@.len() && delegators@[j] == d;
            assert(arrival_verdict(self@, self@[delegators@[j]], addr) is Ok);
        }
        Ok(count)
    }

    /// Counts the votes that those on the list `voters` forward to `addr`.
    pub fn count_delegated_votes(&self, addr: Address, voters: &AddressList) -> (power: Result<
        u32,
        Error,
    >)
        ensures
            match power {
                Ok(count) => delegated_votes(self@, addr, voters@) == Ok::<nat, Error>(
                    count as nat,
                ),
                Err(e) => delegated_votes(self@, addr, voters@) == Err::<nat, Error>(e),
            },
    {
        let ends_here = !self.contains_key(addr);
        let delegators = self.keys();
        let len = delegators.len();
        let mut count: u32 = 0;
        let mut i: u32 = 0;
        let ghost backs = |d: u64|
            !self@.contains_key(addr) && arrival_verdict(self@, self@[d], addr) == Ok::<
                bool,
                Error,
            >(true) && voters@.contains(d);
        assert(delegators@.take(0).to_set().filter(backs) =~= Set::<u64>::empty());
        while i < len
            invariant
                i <= len,
                len == delegators@.len(),
                ends_here == !self@.contains_key(addr),
                delegators@.no_duplicates(),
                delegators@.to_set() == self@.dom(),
                backs == (|d: u64|
                    !self@.contains_key(addr) && arrival_verdict(self@, self@[d], addr) == Ok::<
                        bool,
                        Error,
                    >(true) && voters@.contains(d)),
                count <= i,
                count == delegators@.take(i as int).to_set().filter(backs).len(),
                delegators@.take(i as int).to_set().finite(),
                forall|j: int|
                    0 <= j < i && voters@.contains(delegators@[j]) ==> (
                    #[trigger] arrival_verdict(self@, self@[delegators@[j]], addr)) is Ok,
            decreases len - i,
        {
            assert(delegators@.to_set().contains(delegators@[i as int]));
            let delegator: Address = delegators.get(i).unwrap();
            proof {
                lemma_take_one_more(delegators@, i as int, backs);
            }
            if voters.contains(delegator) {
                let delegatee: Address = self.get(delegator).unwrap();
                match self.resolve_delegation(delegatee, addr) {
                    Ok(arrives) => {
                        if ends_here && arrives {
                            count = count + 1;
                        }
                    },
                    Err(e) => {
                        return Err(e);
                    },
                }
            }
            i = i + 1;
        }
        assert(delegators@.take(len as int) =~= delegators@);
        assert(self@.dom().filter(backs) =~= voting_backers(self@, addr, voters@));
        assert forall|d: u64| self@.contains_key(d) && voters@.contains(d) implies (
        #[trigger] arrival_verdict(self@, self@[d], addr)) is Ok by {
            assert(delegators@.to_set().contains(d));
            let j = choose|j: int| 0 <= j < delegators@.len() && delegators@[j] == d;
            assert(arrival_verdict(self@, self@[delegators@[j]], addr) is Ok);
        }
        Ok(count)
    }
}

/// A chain that has ended does not start again.
pub proof fn lemma_chain_stays_ended(m: Map<u64, u64>, from: u64, n: nat, later: nat)
    requires
        hop(m, from, n) is None,
        n <= later,
    ensures
        forall|k: nat| n <= k <= later ==> #[trigger] hop(m, from, k) is None,
    decreases later,
{
    if n < later {
        lemma_chain_stays_ended(m, from, n, (later - 1) as nat);
        assert(hop(m, from, (later - 1) as nat) is None);
    }
}

/// A chain of at least one delegation starts at somebody who delegates.
pub proof fn lemma_chain_starts_at_a_delegator(m: Map<u64, u64>, from: u64, n: nat)
    requires
        n >= 1,
        hop(m, from, n) is Some,
    ensures
        m.contains_key(from),
{
    assert(hop(m, from, 0) == Some(from));
    if !m.contains_key(from) {
        assert(hop(m, from, 1) is None);
        lemma_chain_stays_ended(m, from, 1, n);
    }
}

/// What one more item of a duplicate-free sequence adds to the set of the items before it.
proof fn lemma_take_one_more(s: Seq<u64>, i: int, p: spec_fn(u64) -> bool)
    requires
        0 <= i < s.len(),
        s.no_duplicates(),
        s.take(i).to_set().finite(),
    ensures
        s.take(i + 1).to_set().finite(),
        s.take(i + 1).to_set().filter(p).len() == s.take(i).to_set().filter(p).len() + if p(s[i]) {
            1nat
        } else {
            0
        },
{
    let shorter = s.take(i);
    let longer = s.take(i + 1);
    let before = shorter.to_set();
    let after = longer.to_set();
    assert(after =~= before.insert(s[i])) by {
        assert forall|x: u64| after.contains(x) implies before.insert(s[i]).contains(x) by {
            let j = choose|j: int| 0 <= j < longer.len() && longer[j] == x;
            if j < i {
                assert(shorter[j] == x);
            }
        }
        assert forall|x: u64| before.insert(s[i]).contains(x) implies after.contains(x) by {
            if x == s[i] {
                assert(longer[i] == x);
            } else {
                let j = choose|j: int| 0 <= j < shorter.len() && shorter[j] == x;
                assert(longer[j] == x);
            }
        }
    }
    assert(!before.contains(s[i])) by {
        if before.contains(s[i]) {
            let j = choose|j: int| 0 <= j < shorter.len() && shorter[j] == s[i];
            assert(s[j] == s[i]);
        }
    }
    before.lemma_len_filter(p);
    if p(s[i]) {
        assert(after.filter(p) =~= before.filter(p).insert(s[i]));
    } else {
        assert(after.filter(p) =~= before.filter(p));
    }
}

/// Whether no chain ever comes back to where it started.
pub open spec fn acyclic(m: Map<u64, u64>) -> bool {
    forall|a: u64, n: nat| n >= 1 ==> #[trigger] hop(m, a, n) != Some(a)
}

/// Following a chain for `i` delegations and then for `j` more follows it for `i + j`.
pub proof fn lemma_hop_split(m: Map<u64, u64>, from: u64, i: nat, j: nat)
    requires
        hop(m, from, i) is Some,
    ensures
        hop(m, from, i + j) == hop(
            m,
            hop(m, from, i)->0,
            j,
        ),
    decreases j,
{
    if j > 0 {
        lemma_hop_split(m, from, i, (j - 1) as nat);
    }
}

/// Two maps that differ at `skip` alone agree on a chain for as long as it has not left `skip`.
pub proof fn lemma_hop_agrees(
    m1: Map<u64, u64>,
    m2: Map<u64, u64>,
    skip: u64,
    from: u64,
    n: nat,
)
    requires
        forall|a: u64| a != skip ==> #[trigger] m1.get(a) == m2.get(a),
        forall|k: nat| k < n ==> #[trigger] hop(m1, from, k) != Some(skip),
    ensures
        hop(m2, from, n) == hop(m1, from, n),
    decreases n,
{
    if n > 0 {
        lemma_hop_agrees(m1, m2, skip, from, (n - 1) as nat);
        match hop(m1, from, (n - 1) as nat) {
            Some(a) => {
                assert(m1.get(a) == m2.get(a));
            },
            None => {},
        }
    }
}

/// A chain of a part of a map is a chain of the map.
pub proof fn lemma_hop_of_part(part: Map<u64, u64>, whole: Map<u64, u64>, from: u64, n: nat)
    requires
        part.submap_of(whole),
        hop(part, from, n) is Some,
    ensures
        hop(whole, from, n) == hop(part, from, n),
    decreases n,
{
    if n > 0 {
        lemma_hop_of_part(part, whole, from, (n - 1) as nat);
        let a = hop(part, from, (n - 1) as nat)->0;
        assert(part.dom().contains(a));
    }
}

/// Where the check for cycles lets a delegation pass, the chain from the delegatee never comes to
/// the delegator, at any length, and ends before the maximum depth.
pub proof fn lemma_cleared_chain(m: Map<u64, u64>, delegator: u64, delegatee: u64, n: nat)
    requires
        cycle_verdict(m, delegator, delegatee) == Ok::<bool, Error>(false),
        delegator != delegatee,
    ensures
        hop(m, delegatee, n) != Some(delegator),
        n >= MAX_DELEGATION_DEPTH ==> hop(m, delegatee, n)
            is None,
{
    let depth = MAX_DELEGATION_DEPTH as nat;
    assert(hop(m, delegatee, depth) is None);
    if n >= depth {
        lemma_chain_stays_ended(m, delegatee, depth, n);
    } else if n >= 1 {
        if hop(m, delegatee, n) == Some(delegator) {
            assert(reaches(m, delegatee, delegator, 1, depth));
        }
    }
}

/// Adding a delegation that the check for cycles lets pass does not touch the delegatee's chain.
pub proof fn lemma_cleared_chain_unchanged(
    m: Map<u64, u64>,
    delegator: u64,
    delegatee: u64,
    n: nat,
)
    requires
        cycle_verdict(m, delegator, delegatee) == Ok::<bool, Error>(false),
        delegator != delegatee,
    ensures
        hop(m.insert(delegator, delegatee), delegatee, n)
            == hop(m, delegatee, n),
{
    assert forall|k: nat| k < n implies #[trigger] hop(m, delegatee, k) != Some(
        delegator,
    ) by {
        lemma_cleared_chain(m, delegator, delegatee, k);
    }
    lemma_hop_agrees(m, m.insert(delegator, delegatee), delegator, delegatee, n);
}

/// Nobody delegates in a circle: a delegation that the check for cycles lets pass closes none.
pub proof fn law_delegating_closes_no_cycle(m: Map<u64, u64>, delegator: u64, delegatee: u64)
    requires
        acyclic(m),
        delegator != delegatee,
        cycle_verdict(m, delegator, delegatee) == Ok::<bool, Error>(false),
    ensures
        acyclic(m.insert(delegator, delegatee)),
{
    let m2 = m.insert(delegator, delegatee);
    assert forall|a: u64, n: nat| n >= 1 implies #[trigger] hop(m2, a, n)
        != Some(a) by {
        if hop(m2, a, n) == Some(a) {
            if forall|k: nat| k < n ==> #[trigger] hop(m2, a, k) != Some(
                delegator,
            ) {
                lemma_hop_agrees(m2, m, delegator, a, n);
                assert(hop(m, a, n) == Some(a));
            } else {
                let k = choose|k: nat|
                    k < n && #[trigger] hop(m2, a, k) == Some(delegator);
                lemma_hop_split(m2, a, n, k);
                lemma_hop_split(m2, a, k, n);
                assert(hop(m2, delegator, n) == Some(delegator));
                assert(hop(m2, delegator, 0) == Some(delegator));
                assert(hop(m2, delegator, 1) == Some(delegatee));
                lemma_hop_split(m2, delegator, 1, (n - 1) as nat);
                lemma_cleared_chain_unchanged(m, delegator, delegatee, (n - 1) as nat);
                lemma_cleared_chain(m, delegator, delegatee, (n - 1) as nat);
            }
        }
    }
}

/// Taking a delegation back closes no cycle.
pub proof fn law_revoking_closes_no_cycle(m: Map<u64, u64>, delegator: u64)
    requires
        acyclic(m),
    ensures
        acyclic(m.remove(delegator)),
{
    let m2 = m.remove(delegator);
    assert forall|a: u64, n: nat| n >= 1 implies #[trigger] hop(m2, a, n)
        != Some(a) by {
        if hop(m2, a, n) == Some(a) {
            lemma_hop_of_part(m2, m, a, n);
            assert(hop(m, a, n) == Some(a));
        }
    }
}

/// Circular delegations are refused at any length: where the chain from the delegatee comes back
/// to the delegator, however far away, the check does not let the delegation pass.
pub proof fn law_cycles_are_not_cleared(m: Map<u64, u64>, delegator: u64, delegatee: u64, n: nat)
    requires
        n >= 1,
        hop(m, delegatee, n) == Some(delegator),
    ensures
        cycle_verdict(m, delegator, delegatee) != Ok::<bool, Error>(false),
{
    if cycle_verdict(m, delegator, delegatee) == Ok::<bool, Error>(false) {
        let depth = MAX_DELEGATION_DEPTH as nat;
        if n <= depth {
            assert(reaches(m, delegatee, delegator, 1, depth));
        } else {
            lemma_chain_stays_ended(m, delegatee, depth, n);
        }
    }
}

/// Whether no chain is longer than the maximum depth.
pub open spec fn bounded(m: Map<u64, u64>) -> bool {
    forall|d: u64| #[trigger] hop(m, d, (MAX_DELEGATION_DEPTH + 1) as nat) is None
}

/// Where a chain comes to `a`, it does so for a first time.
proof fn lemma_first_arrival(m: Map<u64, u64>, from: u64, a: u64, n: nat) -> (first: nat)
    requires
        hop(m, from, n) == Some(a),
    ensures
        first <= n,
        hop(m, from, first) == Some(a),
        forall|k: nat| k < first ==> #[trigger] hop(m, from, k) != Some(a),
    decreases n,
{
    if exists|k: nat| k < n && #[trigger] hop(m, from, k) == Some(a) {
        let k = choose|k: nat| k < n && #[trigger] hop(m, from, k) == Some(a);
        lemma_first_arrival(m, from, a, k)
    } else {
        n
    }
}

/// The maximum chain depth is enforced: a delegation that passes the checks leaves no chain longer
/// than it, neither the delegator's own nor one that leads to the delegator.
pub proof fn law_delegating_keeps_chains_bounded(m: Map<u64, u64>, delegator: u64, delegatee: u64)
    requires
        bounded(m),
        delegator != delegatee,
        cycle_verdict(m, delegator, delegatee) == Ok::<bool, Error>(false),
        !outgrows(m, delegator, delegatee),
    ensures
        bounded(m.insert(delegator, delegatee)),
{
    let m2 = m.insert(delegator, delegatee);
    let most = (MAX_DELEGATION_DEPTH + 1) as nat;
    assert forall|d: u64| #[trigger] hop(m2, d, most) is None by {
        if hop(m2, d, most) is Some {
            if forall|k: nat| k < most ==> #[trigger] hop(m2, d, k) != Some(delegator) {
                lemma_hop_agrees(m2, m, delegator, d, most);
                assert(hop(m, d, most) is Some);
            } else {
                let k = choose|k: nat| k < most && #[trigger] hop(m2, d, k) == Some(delegator);
                let i = lemma_first_arrival(m2, d, delegator, k);
                lemma_hop_agrees(m2, m, delegator, d, i);
                assert(hop(m, d, i) == Some(delegator));
                let j = (most - i - 1) as nat;
                lemma_hop_split(m2, d, i, (1 + j) as nat);
                assert(hop(m2, delegator, 0) == Some(delegator));
                assert(hop(m2, delegator, 1) == Some(delegatee));
                lemma_hop_split(m2, delegator, 1, j);
                lemma_cleared_chain_unchanged(m, delegator, delegatee, j);
                assert(hop(m, delegatee, j) is Some);
            }
        }
    }
}

/// Taking a delegation back makes no chain longer.
pub proof fn law_revoking_keeps_chains_bounded(m: Map<u64, u64>, delegator: u64)
    requires
        bounded(m),
    ensures
        bounded(m.remove(delegator)),
{
    let m2 = m.remove(delegator);
    let most = (MAX_DELEGATION_DEPTH + 1) as nat;
    assert forall|d: u64| #[trigger] hop(m2, d, most) is None by {
        if hop(m2, d, most) is Some {
            lemma_hop_of_part(m2, m, d, most);
            assert(hop(m, d, most) is Some);
        }
    }
}

/// The votes that are forwarded to an address are those of the delegators whose chain ends at it,
/// after at most nine delegations.
pub proof fn law_backers_are_those_whose_chain_ends_there(m: Map<u64, u64>, addr: u64, d: u64)
    ensures
        backers(m, addr).contains(d) <==> exists|n: nat|
            1 <= n < MAX_DELEGATION_DEPTH && #[trigger] hop(m, d, n) == Some(addr) && hop(
                m,
                d,
                n + 1,
            ) is None,
{
    assert(hop(m, d, 0) == Some(d));
    assert(hop(m, d, 1) == m.get(d));
    if backers(m, addr).contains(d) {
        let n = choose|n: nat|
            0 <= n <= (MAX_DELEGATION_DEPTH - 2) as nat && #[trigger] hop(m, m[d], n) == Some(addr);
        lemma_hop_split(m, d, 1, n);
        assert(hop(m, d, 1 + n) == Some(addr));
        assert(hop(m, d, (1 + n) + 1) is None);
    }
    if exists|n: nat|
        1 <= n < MAX_DELEGATION_DEPTH && #[trigger] hop(m, d, n) == Some(addr) && hop(m, d, n + 1)
            is None {
        let n = choose|n: nat|
            1 <= n < MAX_DELEGATION_DEPTH && #[trigger] hop(m, d, n) == Some(addr) && hop(
                m,
                d,
                n + 1,
            ) is None;
        lemma_chain_starts_at_a_delegator(m, d, n);
        lemma_hop_split(m, d, 1, (n - 1) as nat);
        assert(hop(m, m[d], (n - 1) as nat) == Some(addr));
    }
}

/// A vote is forwarded to a delegatee who does not delegate, and one that was taken back is
/// forwarded to nobody.
pub proof fn law_vote_is_forwarded_until_taken_back(m: Map<u64, u64>, d: u64, addr: u64)
    requires
        d != addr,
        !m.contains_key(addr),
    ensures
        backers(m.insert(d, addr), addr).contains(d),
        forall|a: u64| !(#[trigger] backers(m.remove(d), a)).contains(d),
{
    let m2 = m.insert(d, addr);
    assert(hop(m2, m2[d], 0) == Some(addr));
    assert(reaches(m2, m2[d], addr, 0, (MAX_DELEGATION_DEPTH - 2) as nat));
}

/// There are finitely many addresses.
pub proof fn lemma_addresses_are_finite(s: Set<u64>)
    ensures
        s.finite(),
{
    let range = vstd::set_lib::set_int_range(0, u64::MAX + 1);
    let number = |i: int| i as u64;
    vstd::set_lib::lemma_int_range(0, u64::MAX + 1);
    range.lemma_map_finite(number);
    assert forall|a: u64| s.contains(a) implies range.map(number).contains(a) by {
        assert(range.contains(a as int) && number(a as int) == a);
    }
    vstd::set_lib::lemma_len_subset(s, range.map(number));
}

/// Each delegator adds at most one vote, nobody forwards a vote to themselves, and nothing is
/// forwarded to one who delegates.
pub proof fn law_each_vote_counts_once(m: Map<u64, u64>, addr: u64)
    ensures
        backers(m, addr).subset_of(m.dom()),
        backers(m, addr).len() <= m.len(),
        !backers(m, addr).contains(addr),
        m.contains_key(addr) ==> backers(m, addr) == Set::<u64>::empty(),
{
    lemma_addresses_are_finite(m.dom());
    vstd::set_lib::lemma_len_subset(backers(m, addr), m.dom());
    assert(m.contains_key(addr) ==> backers(m, addr) =~= Set::<u64>::empty());
}

/// The votes that are counted by a list come from others on it: no more of them than there are on
/// the list, and no more than are forwarded to the address. Where the list holds every delegator,
/// all are counted.
pub proof fn law_votes_come_from_other_voters(m: Map<u64, u64>, addr: u64, voters: Seq<u64>)
    ensures
        forall|d: u64| #[trigger]
            voting_backers(m, addr, voters).contains(d) ==> voters.contains(d) && d != addr,
        voting_backers(m, addr, voters).len() <= voters.len(),
        voters.contains(addr) ==> voting_backers(m, addr, voters).len() < voters.len(),
        voting_backers(m, addr, voters).len() <= backers(m, addr).len(),
        (forall|d: u64| #[trigger] m.contains_key(d) ==> voters.contains(d)) ==> delegated_votes(
            m,
            addr,
            voters,
        ) == delegated_power(m, addr),
{
    let votes = voting_backers(m, addr, voters);
    law_each_vote_counts_once(m, addr);
    lemma_addresses_are_finite(backers(m, addr));
    lemma_addresses_are_finite(voters.to_set());
    vstd::set_lib::lemma_len_subset(votes, backers(m, addr));
    vstd::set_lib::lemma_len_subset(votes, voters.to_set());
    voters.lemma_cardinality_of_set();
    if voters.contains(addr) {
        vstd::set_lib::lemma_len_subset(votes.insert(addr), voters.to_set());
    }
    if forall|d: u64| #[trigger] m.contains_key(d) ==> voters.contains(d) {
        assert(votes =~= backers(m, addr));
    }
}

/// Whether every chain is short enough for its vote to be counted: of at most nine delegations.
pub open spec fn countable(m: Map<u64, u64>) -> bool {
    forall|d: u64| #[trigger] hop(m, d, MAX_DELEGATION_DEPTH as nat) is None
}

/// Where the chain that starts at `from` ends, if it does.
pub open spec fn chain_end(m: Map<u64, u64>, from: u64) -> u64 {
    let last = choose|n: nat| (#[trigger] hop(m, from, n)) is Some && hop(m, from, n + 1) is None;
    hop(m, from, last)->0
}

/// The votes that are forwarded to a set of addresses, taken together.
pub open spec fn total_power(m: Map<u64, u64>, addrs: Set<u64>) -> nat
    decreases addrs.len(),
{
    if addrs.finite() && addrs.len() > 0 {
        let a = addrs.choose();
        delegated_power(m, a)->Ok_0 + total_power(m, addrs.remove(a))
    } else {
        0
    }
}

/// A chain ends in one place.
proof fn lemma_one_end(m: Map<u64, u64>, from: u64, n: nat)
    requires
        hop(m, from, n) is Some,
        hop(m, from, n + 1) is None,
    ensures
        hop(m, from, n) == Some(chain_end(m, from)),
        !m.contains_key(chain_end(m, from)),
{
    let k = choose|k: nat| (#[trigger] hop(m, from, k)) is Some && hop(m, from, k + 1) is None;
    if k < n {
        lemma_chain_stays_ended(m, from, k + 1, n);
    }
    if n < k {
        lemma_chain_stays_ended(m, from, n + 1, k);
    }
}

/// A chain that is short enough to be counted ends within nine delegations.
proof fn lemma_short_chain_ends(m: Map<u64, u64>, from: u64) -> (n: nat)
    requires
        countable(m),
    ensures
        n < MAX_DELEGATION_DEPTH,
        hop(m, from, n) == Some(chain_end(m, from)),
        hop(m, from, n + 1) is None,
        !m.contains_key(chain_end(m, from)),
        n == 0 <==> !m.contains_key(from),
{
    let n = lemma_last_hop(m, from, MAX_DELEGATION_DEPTH as nat);
    lemma_one_end(m, from, n);
    assert(hop(m, from, 0) == Some(from));
    assert(hop(m, from, 1) == m.get(from));
    if n >= 1 {
        lemma_chain_starts_at_a_delegator(m, from, n);
    }
    n
}

/// The last delegation of a chain that has ended by `bound`.
proof fn lemma_last_hop(m: Map<u64, u64>, from: u64, bound: nat) -> (n: nat)
    requires
        hop(m, from, bound) is None,
    ensures
        n < bound,
        hop(m, from, n) is Some,
        hop(m, from, n + 1) is None,
    decreases bound,
{
    assert(hop(m, from, 0) == Some(from));
    let before = (bound - 1) as nat;
    if hop(m, from, before) is Some {
        assert(before + 1 == bound);
        before
    } else {
        lemma_last_hop(m, from, before)
    }
}

/// Where every chain is short enough, the power of an address is known, and is the number of
/// delegators whose chain ends at it.
proof fn lemma_power_of_short_chains(m: Map<u64, u64>, addr: u64)
    requires
        countable(m),
    ensures
        delegated_power(m, addr) == Ok::<nat, Error>(backers(m, addr).len()),
        backers(m, addr) == m.dom().filter(|d: u64| chain_end(m, d) == addr),
{
    assert forall|d: u64| m.contains_key(d) implies (#[trigger] arrival_verdict(m, m[d], addr))
        is Ok by {
        assert(hop(m, d, 0) == Some(d));
        assert(hop(m, d, 1) == m.get(d));
        lemma_hop_split(m, d, 1, (MAX_DELEGATION_DEPTH - 1) as nat);
        assert(hop(m, d, MAX_DELEGATION_DEPTH as nat) is None);
    }
    assert forall|d: u64| m.contains_key(d) implies (backers(m, addr).contains(d) <==> chain_end(m, d)
        == addr) by {
        law_backers_are_those_whose_chain_ends_there(m, addr, d);
        let n = lemma_short_chain_ends(m, d);
        if backers(m, addr).contains(d) {
            let k = choose|k: nat|
                1 <= k < MAX_DELEGATION_DEPTH && #[trigger] hop(m, d, k) == Some(addr) && hop(
                    m,
                    d,
                    k + 1,
                ) is None;
            lemma_one_end(m, d, k);
        }
    }
    assert(backers(m, addr) =~= m.dom().filter(|d: u64| chain_end(m, d) == addr));
}

/// The votes that end at one of `addrs` are those of the delegators whose chain ends there.
proof fn lemma_total_power(m: Map<u64, u64>, addrs: Set<u64>)
    requires
        countable(m),
    ensures
        total_power(m, addrs) == m.dom().filter(
            |d: u64| addrs.contains(chain_end(m, d)),
        ).len(),
    decreases addrs.len(),
{
    lemma_addresses_are_finite(addrs);
    let all = m.dom().filter(|d: u64| addrs.contains(chain_end(m, d)));
    if addrs.len() == 0 {
        assert(all =~= Set::<u64>::empty());
    } else {
        let a = addrs.choose();
        let others = addrs.remove(a);
        let rest = m.dom().filter(|d: u64| others.contains(chain_end(m, d)));
        lemma_total_power(m, others);
        lemma_power_of_short_chains(m, a);
        assert(all =~= rest + backers(m, a));
        lemma_addresses_are_finite(rest);
        lemma_addresses_are_finite(backers(m, a));
        vstd::set_lib::lemma_set_disjoint_lens(rest, backers(m, a));
    }
}

/// No vote is lost and none is counted twice: the powers of all addresses that do not delegate add
/// up to the number of delegators.
pub proof fn law_powers_add_up(m: Map<u64, u64>)
    requires
        countable(m),
    ensures
        total_power(m, Set::new(|a: u64| !m.contains_key(a))) == m.len(),
{
    let ends = Set::new(|a: u64| !m.contains_key(a));
    lemma_total_power(m, ends);
    assert(m.dom().filter(|d: u64| ends.contains(chain_end(m, d))) =~= m.dom()) by {
        assert forall|d: u64| m.contains_key(d) implies ends.contains(#[trigger] chain_end(m, d)) by {
            let n = lemma_short_chain_ends(m, d);
        }
    }
}

/// Where a first delegation takes the chains.
proof fn lemma_first_delegation_moves_ends(m: Map<u64, u64>, caller: u64, delegatee: u64, d: u64)
    requires
        !m.contains_key(caller),
        countable(m),
        countable(m.insert(caller, delegatee)),
    ensures
        chain_end(m.insert(caller, delegatee), d) == if chain_end(m, d) == caller {
            chain_end(m, delegatee)
        } else {
            chain_end(m, d)
        },
        chain_end(m, delegatee) != caller,
{
    let m2 = m.insert(caller, delegatee);
    let end = chain_end(m, delegatee);
    let l = lemma_short_chain_ends(m, delegatee);
    assert forall|k: nat| k < l implies #[trigger] hop(m, delegatee, k) != Some(caller) by {
        lemma_only_the_end_does_not_delegate(m, delegatee, k, l);
    }
    lemma_hop_agrees(m, m2, caller, delegatee, l);
    assert(hop(m2, caller, 0) == Some(caller));
    assert(hop(m2, caller, 1) == Some(delegatee));
    if end == caller {
        // The chain from the delegatee would come back to it, and never end.
        lemma_hop_split(m2, delegatee, l, 1);
        lemma_cycle_never_ends(m2, delegatee, l + 1, MAX_DELEGATION_DEPTH as nat);
    }
    assert(hop(m2, delegatee, l + 1) is None);
    let n = lemma_short_chain_ends(m, d);
    assert forall|k: nat| k < n implies #[trigger] hop(m, d, k) != Some(caller) by {
        lemma_only_the_end_does_not_delegate(m, d, k, n);
    }
    lemma_hop_agrees(m, m2, caller, d, n);
    if chain_end(m, d) == caller {
        lemma_hop_split(m2, caller, 1, l);
        lemma_hop_split(m2, caller, 1, l + 1);
        lemma_hop_split(m2, d, n, 1 + l);
        lemma_hop_split(m2, d, n, 1 + (l + 1));
        assert(n + (1 + l) + 1 == n + (1 + (l + 1)));
        lemma_one_end(m2, d, n + (1 + l));
    } else {
        assert(hop(m2, d, n + 1) is None);
        lemma_one_end(m2, d, n);
    }
}

/// Before its end a chain stands at those who delegate.
proof fn lemma_only_the_end_does_not_delegate(m: Map<u64, u64>, from: u64, k: nat, n: nat)
    requires
        k < n,
        hop(m, from, n) is Some,
    ensures
        hop(m, from, k) is Some,
        m.contains_key(hop(m, from, k)->0),
{
    if hop(m, from, k) is None {
        lemma_chain_stays_ended(m, from, k, n);
    }
    if hop(m, from, k + 1) is None {
        lemma_chain_stays_ended(m, from, k + 1, n);
    }
}

/// A chain that comes back to its start goes on for as long as one likes.
proof fn lemma_cycle_never_ends(m: Map<u64, u64>, a: u64, n: nat, bound: nat)
    requires
        n >= 1,
        hop(m, a, n) == Some(a),
    ensures
        hop(m, a, bound) is Some,
    decreases bound,
{
    if bound >= n {
        lemma_cycle_never_ends(m, a, n, (bound - n) as nat);
        lemma_hop_split(m, a, n, (bound - n) as nat);
        assert(n + (bound - n) as nat == bound);
    } else if hop(m, a, bound) is None {
        lemma_chain_stays_ended(m, a, bound, n);
    }
}

/// A first delegation moves the caller's vote, and all votes that ended at the caller, to the end
/// of the delegatee's chain. Every other address that does not delegate keeps its power.
pub proof fn law_first_delegation_moves_the_votes(m: Map<u64, u64>, caller: u64, delegatee: u64)
    requires
        !m.contains_key(caller),
        countable(m.insert(caller, delegatee)),
    ensures
        ({
            let m2 = m.insert(caller, delegatee);
            let end = chain_end(m, delegatee);
            &&& !m2.contains_key(end)
            &&& delegated_power(m2, end) == Ok::<nat, Error>(
                delegated_power(m, end)->Ok_0 + delegated_power(m, caller)->Ok_0 + 1,
            )
            &&& delegated_power(m2, caller) == Ok::<nat, Error>(0)
            &&& forall|a: u64|
                a != end && !m2.contains_key(a) ==> #[trigger] delegated_power(m2, a)
                    == delegated_power(m, a)
        }),
{
    let m2 = m.insert(caller, delegatee);
    assert forall|d: u64| #[trigger] hop(m, d, MAX_DELEGATION_DEPTH as nat) is None by {
        if hop(m, d, MAX_DELEGATION_DEPTH as nat) is Some {
            lemma_hop_of_part(m, m2, d, MAX_DELEGATION_DEPTH as nat);
            assert(hop(m2, d, MAX_DELEGATION_DEPTH as nat) is Some);
        }
    }
    let end = chain_end(m, delegatee);
    let l = lemma_short_chain_ends(m, delegatee);
    lemma_first_delegation_moves_ends(m, caller, delegatee, delegatee);
    assert forall|d: u64| #[trigger] chain_end(m2, d) == if chain_end(m, d) == caller {
        end
    } else {
        chain_end(m, d)
    } by {
        lemma_first_delegation_moves_ends(m, caller, delegatee, d);
    }
    assert(chain_end(m, caller) == caller) by {
        let n = lemma_short_chain_ends(m, caller);
        assert(hop(m, caller, 0) == Some(caller));
    }
    lemma_power_of_short_chains(m, end);
    lemma_power_of_short_chains(m, caller);
    lemma_power_of_short_chains(m2, end);
    lemma_power_of_short_chains(m2, caller);
    let joined = backers(m, end) + backers(m, caller);
    assert(backers(m2, end) =~= joined.insert(caller));
    lemma_addresses_are_finite(backers(m, end));
    lemma_addresses_are_finite(backers(m, caller));
    vstd::set_lib::lemma_set_disjoint_lens(backers(m, end), backers(m, caller));
    assert(!joined.contains(caller));
    assert(backers(m2, caller) =~= Set::<u64>::empty());
    assert forall|a: u64| a != end && !m2.contains_key(a) implies #[trigger] delegated_power(m2, a)
        == delegated_power(m, a) by {
        lemma_power_of_short_chains(m, a);
        lemma_power_of_short_chains(m2, a);
        assert(backers(m2, a) =~= backers(m, a));
    }
}

/// A chain starts where it starts, and is the first delegation followed by the chain from the
/// delegatee. It is followed for ten delegations at most.
pub proof fn law_chain_goes_on_from_the_delegatee(m: Map<u64, u64>, from: u64, n: nat)
    ensures
        hop(m, from, 0) == Some(from),
        m.contains_key(from) ==> hop(m, from, n + 1) == hop(m, m[from], n),
        !m.contains_key(from) ==> hop(m, from, n + 1) is None,
        MAX_DELEGATION_DEPTH == 10,
{
    assert(hop(m, from, 0) == Some(from));
    assert(hop(m, from, 1) == m.get(from));
    if m.contains_key(from) {
        lemma_hop_split(m, from, 1, n);
        assert(1 + n == n + 1);
    } else {
        lemma_chain_stays_ended(m, from, 1, n + 1);
    }
}

/// Delegating is judged circular exactly where the chain from the delegatee comes to the delegator
/// within the maximum depth; only a chain that is as long as that and does not is left undecided.
pub proof fn law_cycle_is_where_the_chain_comes_back(
    m: Map<u64, u64>,
    delegator: u64,
    delegatee: u64,
)
    ensures
        cycle_verdict(m, delegator, delegatee) == Ok::<bool, Error>(true) <==> exists|n: nat|
            1 <= n <= MAX_DELEGATION_DEPTH && #[trigger] hop(m, delegatee, n) == Some(delegator),
        cycle_verdict(m, delegator, delegatee) == Ok::<bool, Error>(false) <==> hop(
            m,
            delegatee,
            MAX_DELEGATION_DEPTH as nat,
        ) is None && forall|n: nat|
            1 <= n <= MAX_DELEGATION_DEPTH ==> #[trigger] hop(m, delegatee, n) != Some(delegator),
        cycle_verdict(m, delegator, delegatee) is Err ==> cycle_verdict(m, delegator, delegatee)
            == Err::<bool, Error>(Error::DelegationDepthExceeded),
{
}

/// A vote at `current` arrives at `target` exactly where the chain from there comes to it within
/// eight delegations; only a chain that goes on for longer and does not is left undecided.
pub proof fn law_vote_arrives_where_its_chain_comes(m: Map<u64, u64>, current: u64, target: u64)
    ensures
        arrival_verdict(m, current, target) == Ok::<bool, Error>(true) <==> exists|n: nat|
            n + 2 <= MAX_DELEGATION_DEPTH && #[trigger] hop(m, current, n) == Some(target),
        arrival_verdict(m, current, target) == Ok::<bool, Error>(false) <==> hop(
            m,
            current,
            (MAX_DELEGATION_DEPTH - 1) as nat,
        ) is None && forall|n: nat|
            n + 2 <= MAX_DELEGATION_DEPTH ==> #[trigger] hop(m, current, n) != Some(target),
        arrival_verdict(m, current, target) is Err ==> arrival_verdict(m, current, target)
            == Err::<bool, Error>(Error::DelegationDepthExceeded),
{
}

/// A delegation would make a chain too long exactly where a chain to the delegator, the delegation
/// and the chain from the delegatee are together longer than the maximum depth.
pub proof fn law_depth_counts_both_sides(m: Map<u64, u64>, delegator: u64, delegatee: u64)
    ensures
        outgrows(m, delegator, delegatee) <==> exists|d: u64, i: nat, j: nat|
            (#[trigger] hop(m, d, i)) == Some(delegator) && (#[trigger] hop(m, delegatee, j)) is Some
                && i + j >= MAX_DELEGATION_DEPTH,
{
    if outgrows(m, delegator, delegatee) {
        let (d, i, j) = choose|d: u64, i: nat, j: nat| #[trigger]
            hop(m, d, i) == Some(delegator) && (#[trigger] hop(m, delegatee, j)) is Some && i + 1 + j
                > MAX_DELEGATION_DEPTH;
        assert(hop(m, d, i) == Some(delegator) && hop(m, delegatee, j) is Some && i + j
            >= MAX_DELEGATION_DEPTH);
    }
    if exists|d: u64, i: nat, j: nat|
        (#[trigger] hop(m, d, i)) == Some(delegator) && (#[trigger] hop(m, delegatee, j)) is Some && i
            + j >= MAX_DELEGATION_DEPTH {
        let (d, i, j) = choose|d: u64, i: nat, j: nat|
            (#[trigger] hop(m, d, i)) == Some(delegator) && (#[trigger] hop(m, delegatee, j)) is Some
                && i + j >= MAX_DELEGATION_DEPTH;
        assert(hop(m, d, i) == Some(delegator) && hop(m, delegatee, j) is Some && i + 1 + j
            > MAX_DELEGATION_DEPTH);
    }
}

/// Where the vote of a delegator is left undecided: on a chain of ten delegations or more that has
/// not come to `addr` within nine.
proof fn lemma_undecided_vote(m: Map<u64, u64>, d: u64, addr: u64)
    requires
        m.contains_key(d),
    ensures
        arrival_verdict(m, m[d], addr) is Err <==> hop(m, d, MAX_DELEGATION_DEPTH as nat) is Some
            && forall|n: nat|
            1 <= n < MAX_DELEGATION_DEPTH ==> #[trigger] hop(m, d, n) != Some(addr),
{
    let last = (MAX_DELEGATION_DEPTH - 2) as nat;
    assert forall|n: nat| #[trigger] hop(m, d, n + 1) == hop(m, m[d], n) by {
        law_chain_goes_on_from_the_delegatee(m, d, n);
    }
    assert((MAX_DELEGATION_DEPTH - 1) as nat + 1 == MAX_DELEGATION_DEPTH as nat);
    assert(hop(m, d, MAX_DELEGATION_DEPTH as nat) == hop(
        m,
        m[d],
        (MAX_DELEGATION_DEPTH - 1) as nat,
    )) by {
        law_chain_goes_on_from_the_delegatee(m, d, (MAX_DELEGATION_DEPTH - 1) as nat);
    }
    if reaches(m, m[d], addr, 0, last) {
        let n = choose|n: nat| 0 <= n <= last && #[trigger] hop(m, m[d], n) == Some(addr);
        law_chain_goes_on_from_the_delegatee(m, d, n);
        assert(hop(m, d, n + 1) == Some(addr));
    } else {
        assert forall|n: nat| 1 <= n < MAX_DELEGATION_DEPTH implies #[trigger] hop(m, d, n) != Some(
            addr,
        ) by {
            let before = (n - 1) as nat;
            law_chain_goes_on_from_the_delegatee(m, d, before);
            assert(before + 1 == n);
            assert(hop(m, m[d], before) != Some(addr));
        }
    }
}

/// The power of an address is the number of addresses whose chain ends at it after one to nine
/// delegations. It is open exactly where a chain of ten delegations or more has not come to the
/// address within nine.
pub proof fn law_power_is_the_number_of_chains(m: Map<u64, u64>, addr: u64, counted: Set<u64>)
    requires
        forall|d: u64| #[trigger]
            counted.contains(d) <==> exists|n: nat|
                1 <= n < MAX_DELEGATION_DEPTH && #[trigger] hop(m, d, n) == Some(addr) && hop(
                    m,
                    d,
                    n + 1,
                ) is None,
    ensures
        delegated_power(m, addr) is Err <==> exists|d: u64|
            (#[trigger] hop(m, d, MAX_DELEGATION_DEPTH as nat)) is Some && forall|n: nat|
                1 <= n < MAX_DELEGATION_DEPTH ==> #[trigger] hop(m, d, n) != Some(addr),
        delegated_power(m, addr) is Err ==> delegated_power(m, addr) == Err::<nat, Error>(
            Error::DelegationDepthExceeded,
        ),
        delegated_power(m, addr) is Ok ==> delegated_power(m, addr) == Ok::<nat, Error>(
            counted.len(),
        ),
{
    if delegated_power(m, addr) is Err {
        let d = choose|d: u64|
            m.contains_key(d) && #[trigger] arrival_verdict(m, m[d], addr) is Err;
        lemma_undecided_vote(m, d, addr);
        assert(hop(m, d, MAX_DELEGATION_DEPTH as nat) is Some);
    }
    if exists|d: u64|
        (#[trigger] hop(m, d, MAX_DELEGATION_DEPTH as nat)) is Some && forall|n: nat|
            1 <= n < MAX_DELEGATION_DEPTH ==> #[trigger] hop(m, d, n) != Some(addr) {
        let d = choose|d: u64|
            (#[trigger] hop(m, d, MAX_DELEGATION_DEPTH as nat)) is Some && forall|n: nat|
                1 <= n < MAX_DELEGATION_DEPTH ==> #[trigger] hop(m, d, n) != Some(addr);
        lemma_chain_starts_at_a_delegator(m, d, MAX_DELEGATION_DEPTH as nat);
        lemma_undecided_vote(m, d, addr);
    }
    assert(backers(m, addr) =~= counted) by {
        assert forall|d: u64| backers(m, addr).contains(d) <==> counted.contains(d) by {
            law_backers_are_those_whose_chain_ends_there(m, addr, d);
        }
    }
}

/// A vote is counted by a list exactly where its owner is on the list and its chain ends at the
/// address after one to nine delegations, whoever else delegates.
pub proof fn law_listed_votes_are_counted(m: Map<u64, u64>, addr: u64, voters: Seq<u64>, d: u64)
    ensures
        voting_backers(m, addr, voters).contains(d) <==> voters.contains(d) && exists|n: nat|
            1 <= n < MAX_DELEGATION_DEPTH && #[trigger] hop(m, d, n) == Some(addr) && hop(
                m,
                d,
                n + 1,
            ) is None,
{
    law_backers_are_those_whose_chain_ends_there(m, addr, d);
}

/// The votes that a list forwards to an address are as many as there are on it whose chain ends at
/// the address after one to nine delegations. Their number is open exactly where somebody on the
/// list has a chain of ten delegations or more that has not come to the address within nine.
pub proof fn law_votes_are_the_number_of_listed_chains(
    m: Map<u64, u64>,
    addr: u64,
    voters: Seq<u64>,
    counted: Set<u64>,
)
    requires
        forall|d: u64| #[trigger]
            counted.contains(d) <==> voters.contains(d) && exists|n: nat|
                1 <= n < MAX_DELEGATION_DEPTH && #[trigger] hop(m, d, n) == Some(addr) && hop(
                    m,
                    d,
                    n + 1,
                ) is None,
    ensures
        delegated_votes(m, addr, voters) is Err <==> exists|d: u64|
            voters.contains(d) && (#[trigger] hop(m, d, MAX_DELEGATION_DEPTH as nat)) is Some
                && forall|n: nat|
                1 <= n < MAX_DELEGATION_DEPTH ==> #[trigger] hop(m, d, n) != Some(addr),
        delegated_votes(m, addr, voters) is Err ==> delegated_votes(m, addr, voters) == Err::<
            nat,
            Error,
        >(Error::DelegationDepthExceeded),
        delegated_votes(m, addr, voters) is Ok ==> delegated_votes(m, addr, voters) == Ok::<
            nat,
            Error,
        >(counted.len()),
{
    if delegated_votes(m, addr, voters) is Err {
        let d = choose|d: u64|
            m.contains_key(d) && voters.contains(d) && #[trigger] arrival_verdict(m, m[d], addr)
                is Err;
        lemma_undecided_vote(m, d, addr);
        assert(hop(m, d, MAX_DELEGATION_DEPTH as nat) is Some);
    }
    if exists|d: u64|
        voters.contains(d) && (#[trigger] hop(m, d, MAX_DELEGATION_DEPTH as nat)) is Some && forall|
            n: nat,
        |
            1 <= n < MAX_DELEGATION_DEPTH ==> #[trigger] hop(m, d, n) != Some(addr) {
        let d = choose|d: u64|
            voters.contains(d) && (#[trigger] hop(m, d, MAX_DELEGATION_DEPTH as nat)) is Some
                && forall|n: nat|
                1 <= n < MAX_DELEGATION_DEPTH ==> #[trigger] hop(m, d, n) != Some(addr);
        lemma_chain_starts_at_a_delegator(m, d, MAX_DELEGATION_DEPTH as nat);
        lemma_undecided_vote(m, d, addr);
    }
    assert(voting_backers(m, addr, voters) =~= counted) by {
        assert forall|d: u64|
            voting_backers(m, addr, voters).contains(d) <==> counted.contains(d) by {
            law_listed_votes_are_counted(m, addr, voters, d);
        }
    }
}

/// A delegation between others leaves the votes as they are: one that no chain from the list comes
/// to can be given, changed or taken back without a vote of the list counting more or less.
pub proof fn law_delegations_off_the_way_do_not_matter(
    m: Map<u64, u64>,
    x: u64,
    y: u64,
    addr: u64,
    voters: Seq<u64>,
)
    requires
        forall|d: u64, n: nat|
            voters.contains(d) && n < MAX_DELEGATION_DEPTH ==> #[trigger] hop(m, d, n) != Some(x),
    ensures
        delegated_votes(m.insert(x, y), addr, voters) == delegated_votes(m, addr, voters),
        delegated_votes(m.remove(x), addr, voters) == delegated_votes(m, addr, voters),
{
    lemma_votes_of_agreeing_chains(m, m.insert(x, y), x, addr, voters);
    lemma_votes_of_agreeing_chains(m, m.remove(x), x, addr, voters);
}

/// Maps that differ only where no chain from the list comes give the same votes.
proof fn lemma_votes_of_agreeing_chains(
    m: Map<u64, u64>,
    m2: Map<u64, u64>,
    x: u64,
    addr: u64,
    voters: Seq<u64>,
)
    requires
        forall|a: u64| a != x ==> #[trigger] m.get(a) == m2.get(a),
        forall|d: u64, n: nat|
            voters.contains(d) && n < MAX_DELEGATION_DEPTH ==> #[trigger] hop(m, d, n) != Some(x),
    ensures
        delegated_votes(m2, addr, voters) == delegated_votes(m, addr, voters),
{
    assert forall|d: u64, n: nat|
        voters.contains(d) && n <= MAX_DELEGATION_DEPTH implies #[trigger] hop(m2, d, n) == hop(
        m,
        d,
        n,
    ) by {
        assert forall|k: nat| k < n implies #[trigger] hop(m, d, k) != Some(x) by {
            assert(voters.contains(d) && k < MAX_DELEGATION_DEPTH);
        }
        lemma_hop_agrees(m, m2, x, d, n);
    }
    let counted = voting_backers(m, addr, voters);
    assert forall|d: u64| #[trigger] counted.contains(d) <==> voters.contains(d) && exists|n: nat|
        1 <= n < MAX_DELEGATION_DEPTH && #[trigger] hop(m, d, n) == Some(addr) && hop(m, d, n + 1)
            is None by {
        law_listed_votes_are_counted(m, addr, voters, d);
    }
    assert forall|d: u64| #[trigger] counted.contains(d) <==> voters.contains(d) && exists|n: nat|
        1 <= n < MAX_DELEGATION_DEPTH && #[trigger] hop(m2, d, n) == Some(addr) && hop(m2, d, n + 1)
            is None by {
        if voters.contains(d) {
            assert forall|n: nat| 1 <= n < MAX_DELEGATION_DEPTH implies hop(m2, d, n) == hop(m, d, n)
                && #[trigger] hop(m2, d, n + 1) == hop(m, d, n + 1) by {
                assert(n + 1 <= MAX_DELEGATION_DEPTH);
            }
            if counted.contains(d) {
                let n = choose|n: nat|
                    1 <= n < MAX_DELEGATION_DEPTH && #[trigger] hop(m, d, n) == Some(addr) && hop(
                        m,
                        d,
                        n + 1,
                    ) is None;
                assert(hop(m2, d, n + 1) == hop(m, d, n + 1));
                assert(hop(m2, d, n) == Some(addr));
            }
            if exists|n: nat|
                1 <= n < MAX_DELEGATION_DEPTH && #[trigger] hop(m2, d, n) == Some(addr) && hop(
                    m2,
                    d,
                    n + 1,
                ) is None {
                let n = choose|n: nat|
                    1 <= n < MAX_DELEGATION_DEPTH && #[trigger] hop(m2, d, n) == Some(addr) && hop(
                        m2,
                        d,
                        n + 1,
                    ) is None;
                assert(hop(m2, d, n + 1) == hop(m, d, n + 1));
                assert(hop(m, d, n) == Some(addr));
            }
        }
    }
    law_votes_are_the_number_of_listed_chains(m, addr, voters, counted);
    law_votes_are_the_number_of_listed_chains(m2, addr, voters, counted);
    if delegated_votes(m, addr, voters) is Err {
        let d = choose|d: u64|
            voters.contains(d) && (#[trigger] hop(m, d, MAX_DELEGATION_DEPTH as nat)) is Some
                && forall|n: nat|
                1 <= n < MAX_DELEGATION_DEPTH ==> #[trigger] hop(m, d, n) != Some(addr);
        assert(hop(m2, d, MAX_DELEGATION_DEPTH as nat) is Some);
    }
    if delegated_votes(m2, addr, voters) is Err {
        let d = choose|d: u64|
            voters.contains(d) && (#[trigger] hop(m2, d, MAX_DELEGATION_DEPTH as nat)) is Some
                && forall|n: nat|
                1 <= n < MAX_DELEGATION_DEPTH ==> #[trigger] hop(m2, d, n) != Some(addr);
        assert(hop(m, d, MAX_DELEGATION_DEPTH as nat) is Some);
        assert forall|n: nat| 1 <= n < MAX_DELEGATION_DEPTH implies #[trigger] hop(m, d, n) != Some(
            addr,
        ) by {
            assert(hop(m2, d, n) == hop(m, d, n));
        }
    }
}

} // verus!
