use astroid_proposal::collections::{AddressList, DelegationMap};
use astroid_proposal::contract::ProposalContract;
use astroid_proposal::error::Error;
use astroid_proposal::proposal::{Invocation, ProposalState};
use soroban_sdk::Env;

/// The chain 1, 2, .. up to `last`, each delegating to the next.
fn chain(env: &Env, last: u64) -> DelegationMap {
    let mut m = DelegationMap::new(env);
    let mut a = 1;
    while a < last {
        m.set(a, a + 1);
        a += 1;
    }
    m
}

fn by(env: &Env, caller: u64) -> Invocation {
    Invocation { host: env.clone(), timestamp: 1_000, authorized: vec![caller] }
}

#[test]
fn map_reads_back_what_was_set() {
    let env = Env::default();
    let mut m = DelegationMap::new(&env);
    assert_eq!(m.get(1), None);
    assert!(!m.contains_key(1));
    m.set(1, 2);
    m.set(3, u64::MAX);
    m.set(u64::MAX, 4);
    assert_eq!(m.get(1), Some(2));
    assert_eq!(m.get(3), Some(u64::MAX));
    assert_eq!(m.get(u64::MAX), Some(4));
    assert_eq!(m.get(2), None);
    assert!(m.contains_key(1));
    m.set(1, 5);
    assert_eq!(m.get(1), Some(5));
    assert!(m.remove(1));
    assert!(!m.remove(1));
    assert_eq!(m.get(1), None);
    assert_eq!(m.get(3), Some(u64::MAX));
}

#[test]
fn map_copies_are_apart() {
    let env = Env::default();
    let mut m = DelegationMap::new(&env);
    m.set(1, 2);
    let copy = m.clone();
    m.set(1, 3);
    m.set(4, 5);
    assert_eq!(copy.get(1), Some(2));
    assert_eq!(copy.get(4), None);
    assert_eq!(m.get(1), Some(3));
}

#[test]
fn map_keys_are_the_delegators() {
    let env = Env::default();
    let mut m = DelegationMap::new(&env);
    assert_eq!(m.keys().len(), 0);
    m.set(30, 1);
    m.set(10, 2);
    m.set(20, 3);
    m.set(10, 4);
    let keys = m.keys();
    assert_eq!(keys.len(), 3);
    assert!(keys.contains(10));
    assert!(keys.contains(20));
    assert!(keys.contains(30));
    assert!(!keys.contains(1));
}

#[test]
fn list_reads_back_what_it_was_made_of() {
    let env = Env::default();
    let list = AddressList::from_slice(&env, &[7, 8, 7, u64::MAX]);
    assert_eq!(list.len(), 4);
    assert_eq!(list.get(0), Some(7));
    assert_eq!(list.get(1), Some(8));
    assert_eq!(list.get(2), Some(7));
    assert_eq!(list.get(3), Some(u64::MAX));
    assert_eq!(list.get(4), None);
    assert!(list.contains(u64::MAX));
    assert!(!list.contains(9));
    assert_eq!(list.clone(), list);
    assert_eq!(AddressList::from_slice(&env, &[]).len(), 0);
}

#[test]
fn cycle_is_found_up_to_the_depth() {
    let env = Env::default();
    // From 1 it takes ten delegations to 11.
    assert_eq!(chain(&env, 11).would_create_cycle(11, 1), Ok(true));
    // From 1 it takes eleven to 12, one too many to see.
    assert_eq!(chain(&env, 12).would_create_cycle(12, 1), Err(Error::DelegationDepthExceeded));
}

#[test]
fn cycle_check_ends_with_the_chain() {
    let env = Env::default();
    // Nine delegations, and the tenth look finds the end.
    assert_eq!(chain(&env, 10).would_create_cycle(99, 1), Ok(false));
    assert_eq!(chain(&env, 11).would_create_cycle(99, 1), Err(Error::DelegationDepthExceeded));
    assert_eq!(chain(&env, 11).would_create_cycle(99, 2), Ok(false));
    assert_eq!(DelegationMap::new(&env).would_create_cycle(1, 2), Ok(false));
}

#[test]
fn vote_arrives_within_the_depth() {
    let env = Env::default();
    let m = chain(&env, 20);
    assert_eq!(m.resolve_delegation(2, 2), Ok(true));
    assert_eq!(m.resolve_delegation(2, 10), Ok(true));
    assert_eq!(m.resolve_delegation(2, 11), Err(Error::DelegationDepthExceeded));
    assert_eq!(m.resolve_delegation(2, 99), Err(Error::DelegationDepthExceeded));
    assert_eq!(m.resolve_delegation(12, 99), Ok(false));
    assert_eq!(m.resolve_delegation(11, 99), Err(Error::DelegationDepthExceeded));
}

#[test]
fn power_counts_the_whole_chain() {
    let env = Env::default();
    let m = chain(&env, 10);
    assert_eq!(m.count_delegated_power(10), Ok(9));
    // Votes that pass through an address do not count there.
    assert_eq!(m.count_delegated_power(5), Ok(0));
    assert_eq!(m.count_delegated_power(1), Ok(0));
    assert_eq!(m.count_delegated_power(99), Ok(0));
}

#[test]
fn power_is_open_with_a_chain_too_long() {
    let env = Env::default();
    let m = chain(&env, 11);
    assert_eq!(m.count_delegated_power(11), Err(Error::DelegationDepthExceeded));
    assert_eq!(m.count_delegated_power(99), Err(Error::DelegationDepthExceeded));
    // Every chain that is that long passes 10 in time, and does not end there.
    assert_eq!(m.count_delegated_power(10), Ok(0));
}

#[test]
fn votes_are_counted_by_the_list() {
    let env = Env::default();
    let m = chain(&env, 10);
    let some = AddressList::from_slice(&env, &[10, 3, 5, 5, 99]);
    assert_eq!(m.count_delegated_votes(10, &some), Ok(2));
    assert_eq!(m.count_delegated_votes(5, &some), Ok(0));
    assert_eq!(m.count_delegated_votes(99, &some), Ok(0));
    let nobody = AddressList::from_slice(&env, &[]);
    assert_eq!(m.count_delegated_votes(10, &nobody), Ok(0));
    let everybody = AddressList::from_slice(&env, &[1, 2, 3, 4, 5, 6, 7, 8, 9, 10]);
    assert_eq!(m.count_delegated_votes(10, &everybody), Ok(9));
}

#[test]
fn votes_are_open_with_a_listed_chain_too_long() {
    let env = Env::default();
    let m = chain(&env, 11);
    let without = AddressList::from_slice(&env, &[2, 3]);
    assert_eq!(m.count_delegated_votes(11, &without), Ok(2));
    let with = AddressList::from_slice(&env, &[2, 1]);
    assert_eq!(m.count_delegated_votes(11, &with), Err(Error::DelegationDepthExceeded));
}

#[test]
fn long_chain_stands_in_the_way_of_approvals() {
    let env = Env::default();
    let mut c = ProposalContract::new(20);
    let inv = by(&env, 11);
    c.initialize(&inv).unwrap();
    let text = "x".as_bytes().to_vec();
    let mut create = |approvers: &[u64]| {
        let list = AddressList::from_slice(&env, approvers);
        let id = c.create(
            &inv,
            11,
            text.clone(),
            text.clone(),
            text.clone(),
            text.clone(),
            list,
            3,
            0,
        );
        id.unwrap()
    };
    let with = create(&[1, 5, 11]);
    let without = create(&[2, 5, 11]);
    c.restore_delegations(chain(&env, 11));
    assert_eq!(c.get_delegated_power(&inv, 11), 0);
    assert_eq!(c.approve(&inv, 11, with), Err(Error::DelegationDepthExceeded));
    // The refused approval is not on record.
    assert_eq!(c.get(with).unwrap().approvals, 0);
    // The chain that is too long starts at nobody on this list.
    assert_eq!(c.approve(&inv, 11, without), Ok(3));
    assert_eq!(c.state(without), Ok(ProposalState::Approved));
}

#[test]
fn delegating_to_a_long_chain_is_refused() {
    let env = Env::default();
    let mut c = ProposalContract::new(20);
    c.restore_delegations(chain(&env, 11));
    let inv = by(&env, 50);
    assert_eq!(c.delegate(&inv, 50, 1), Err(Error::DelegationDepthExceeded));
    assert_eq!(c.get_delegation(&inv, 50), None);
    assert_eq!(c.delegate(&inv, 50, 2), Ok(()));
    assert_eq!(c.get_delegation(&inv, 50), Some(2));
}

#[test]
fn chain_cannot_outgrow_the_depth_at_its_far_end() {
    let env = Env::default();
    let mut c = ProposalContract::new(20);
    for a in 1..11 {
        assert_eq!(c.delegate(&by(&env, a), a, a + 1), Ok(()));
    }
    // Ten delegations in a row, and one more would be too many.
    let inv = by(&env, 11);
    assert_eq!(c.delegate(&inv, 11, 12), Err(Error::DelegationDepthExceeded));
    assert_eq!(c.get_delegation(&inv, 11), None);
    assert_eq!(c.delegate(&inv, 11, 1), Err(Error::CircularDelegation));
    // From the middle it is as long, but elsewhere it is not.
    assert_eq!(c.delegate(&by(&env, 10), 10, 12), Ok(()));
    assert_eq!(c.delegate(&inv, 11, 12), Ok(()));
}

#[test]
fn chains_are_joined_within_the_depth() {
    let env = Env::default();
    let join = |first: u64, second: u64| {
        let mut m = chain(&env, first);
        let mut a = 101;
        while a < 100 + second {
            m.set(a, a + 1);
            a += 1;
        }
        let mut c = ProposalContract::new(20);
        c.restore_delegations(m);
        c.delegate(&by(&env, first), first, 101)
    };
    // Four delegations, the new one, and five more.
    assert_eq!(join(5, 6), Ok(()));
    assert_eq!(join(6, 6), Err(Error::DelegationDepthExceeded));
    assert_eq!(join(5, 7), Err(Error::DelegationDepthExceeded));
    assert_eq!(join(10, 1), Ok(()));
    assert_eq!(join(11, 1), Err(Error::DelegationDepthExceeded));
    assert_eq!(join(1, 10), Ok(()));
    assert_eq!(join(1, 11), Err(Error::DelegationDepthExceeded));
}

#[test]
fn depth_is_judged_both_ways() {
    let env = Env::default();
    assert!(!chain(&env, 10).would_outgrow_depth(10, 99));
    assert!(chain(&env, 11).would_outgrow_depth(11, 99));
    assert!(!chain(&env, 11).would_outgrow_depth(10, 99));
    assert!(!chain(&env, 11).would_outgrow_depth(99, 2));
    assert!(chain(&env, 11).would_outgrow_depth(99, 1));
    assert!(!DelegationMap::new(&env).would_outgrow_depth(1, 2));
}

#[test]
fn first_delegation_moves_the_votes_to_the_end() {
    let env = Env::default();
    let mut m = DelegationMap::new(&env);
    m.set(1, 2);
    m.set(3, 4);
    m.set(4, 5);
    m.set(6, 7);
    assert_eq!(m.count_delegated_power(2), Ok(1));
    assert_eq!(m.count_delegated_power(5), Ok(2));
    m.set(2, 4);
    assert_eq!(m.count_delegated_power(5), Ok(4));
    assert_eq!(m.count_delegated_power(2), Ok(0));
    assert_eq!(m.count_delegated_power(4), Ok(0));
    assert_eq!(m.count_delegated_power(7), Ok(1));
}

#[test]
fn powers_add_up_to_the_delegators() {
    let env = Env::default();
    let mut m = chain(&env, 6);
    m.set(20, 3);
    m.set(21, 30);
    m.set(22, 31);
    m.set(30, 31);
    let mut total = 0;
    for a in 0..40 {
        total += m.count_delegated_power(a).unwrap();
    }
    assert_eq!(total, m.keys().len());
    assert_eq!(m.keys().len(), 9);
}

#[test]
fn refusals_are_told_beforehand() {
    let env = Env::default();
    let mut c = ProposalContract::new(20);
    c.restore_delegations(chain(&env, 11));
    let inv = by(&env, 11);
    assert_eq!(c.delegation_refusal(&inv, 11, 11), Some(Error::InvalidInput));
    assert_eq!(c.delegation_refusal(&inv, 11, 1), Some(Error::CircularDelegation));
    assert_eq!(c.delegation_refusal(&inv, 11, 12), Some(Error::DelegationDepthExceeded));
    assert_eq!(c.delegation_refusal(&inv, 50, 1), Some(Error::DelegationDepthExceeded));
    assert_eq!(c.delegation_refusal(&inv, 50, 2), None);
    assert_eq!(c.get_delegation(&inv, 50), None);
    assert_eq!(c.delegate(&inv, 11, 11), Err(Error::InvalidInput));
}

#[test]
fn delegation_needs_no_initialization() {
    let env = Env::default();
    let mut c = ProposalContract::new(20);
    let inv = by(&env, 1);
    assert_eq!(c.get_delegation(&inv, 1), None);
    assert_eq!(c.get_delegated_power(&inv, 2), 0);
    assert_eq!(c.revoke_delegation(&inv, 1), Err(Error::NotFound));
    assert_eq!(c.delegate(&inv, 1, 2), Ok(()));
    assert_eq!(c.get_delegated_power(&inv, 2), 1);
}

#[test]
fn replacing_a_delegation_checks_the_new_chain() {
    let env = Env::default();
    let mut c = ProposalContract::new(20);
    c.delegate(&by(&env, 1), 1, 2).unwrap();
    c.delegate(&by(&env, 2), 2, 3).unwrap();
    assert_eq!(c.delegate(&by(&env, 2), 2, 1), Err(Error::CircularDelegation));
    assert_eq!(c.get_delegation(&by(&env, 2), 2), Some(3));
    c.delegate(&by(&env, 1), 1, 4).unwrap();
    assert_eq!(c.delegate(&by(&env, 2), 2, 1), Ok(()));
    assert_eq!(c.get_delegated_power(&by(&env, 4), 4), 2);
}

/// What comes of a delegation, two approvals and a circular delegation, each address renamed.
fn outcome(name: fn(u64) -> u64) -> (Result<u32, Error>, Result<u32, Error>, Result<(), Error>) {
    let env = Env::default();
    let mut c = ProposalContract::new(20);
    let (a, b, d) = (name(1), name(2), name(3));
    c.initialize(&by(&env, a)).unwrap();
    let approvers = AddressList::from_slice(&env, &[a, b]);
    let text = "x".as_bytes().to_vec();
    let id = c
        .create(&by(&env, d), d, text.clone(), text.clone(), text.clone(), text, approvers, 2, 0)
        .unwrap();
    c.delegate(&by(&env, a), a, b).unwrap();
    let circular = c.delegate(&by(&env, b), b, a);
    let stranger = c.approve(&by(&env, d), d, id);
    let approved = c.approve(&by(&env, b), b, id);
    (stranger, approved, circular)
}

#[test]
fn numbers_are_names() {
    let expected = (Err(Error::NotAnApprover), Ok(2), Err(Error::CircularDelegation));
    assert_eq!(outcome(|a| a), expected);
    assert_eq!(outcome(|a| u64::MAX - a), expected);
    assert_eq!(outcome(|a| 3 - a), expected);
}
