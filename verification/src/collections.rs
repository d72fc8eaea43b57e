//! The two host collections of the contract: who forwards a vote to whom, and who may approve.
use vstd::prelude::*;
use crate::host::{
    map_clone, map_contains_key, map_get, map_keys, map_new, map_remove, map_set, vec_clone,
    vec_contains, vec_from_slice, vec_get, vec_len,
};

verus! {

/// A participant, by number. The side that talks to the ledger keeps the table from numbers to
/// ledger addresses; two participants are the same exactly when their numbers are.
pub type Address = u64;

/// Who forwards a vote to whom: a host map from delegator to delegatee.
pub struct DelegationMap {
    entries: soroban_sdk::Map<u64, u64>,
}

impl View for DelegationMap {
    type V = Map<u64, u64>;

    closed spec fn view(&self) -> Map<u64, u64> {
        crate::host::map_entries(self.entries)
    }
}

impl DelegationMap {
    #[verifier::type_invariant]
    spec fn typed(self) -> bool {
        crate::host::map_typed(self.entries)
    }

    /// A map in which nobody delegates.
    pub fn new(host: &soroban_sdk::Env) -> (m: DelegationMap)
        ensures
            m@ == Map::<u64, u64>::empty(),
    {
        DelegationMap { entries: map_new(host) }
    }

    /// The delegatee of `delegator`, if there is one.
    pub fn get(&self, delegator: Address) -> (delegatee: Option<Address>)
        ensures
            delegatee == self@.get(delegator),
    {
        proof {
            use_type_invariant(self);
        }
        map_get(&self.entries, delegator)
    }

    /// Whether `delegator` delegates at all.
    pub fn contains_key(&self, delegator: Address) -> (found: bool)
        ensures
            found == self@.contains_key(delegator),
    {
        proof {
            use_type_invariant(self);
        }
        map_contains_key(&self.entries, delegator)
    }

    /// Makes `delegatee` the delegatee of `delegator`, in place of any other.
    pub fn set(&mut self, delegator: Address, delegatee: Address)
        requires
            old(self)@.contains_key(delegator) || old(self)@.len() < u32::MAX,
        ensures
            final(self)@ == old(self)@.insert(delegator, delegatee),
    {
        proof {
            use_type_invariant(&*self);
        }
        let mut entries = map_clone(&self.entries);
        map_set(&mut entries, delegator, delegatee);
        self.entries = entries;
    }

    /// Takes the delegation of `delegator` out; says whether there was one.
    pub fn remove(&mut self, delegator: Address) -> (removed: bool)
        ensures
            removed == old(self)@.contains_key(delegator),
            final(self)@ == old(self)@.remove(delegator),
    {
        proof {
            use_type_invariant(&*self);
        }
        let mut entries = map_clone(&self.entries);
        let removed = map_remove(&mut entries, delegator);
        self.entries = entries;
        removed.is_some()
    }

    /// Everybody who delegates, each once.
    pub fn keys(&self) -> (delegators: AddressList)
        ensures
            delegators@.no_duplicates(),
            delegators@.to_set() == self@.dom(),
    {
        proof {
            use_type_invariant(self);
        }
        AddressList { items: map_keys(&self.entries) }
    }
}

impl Clone for DelegationMap {
    fn clone(&self) -> (copy: DelegationMap)
        ensures
            copy@ == self@,
    {
        proof {
            use_type_invariant(self);
        }
        DelegationMap { entries: map_clone(&self.entries) }
    }
}

/// A list of participants: a host vector of addresses.
#[derive(Debug, PartialEq, Eq)]
pub struct AddressList {
    items: soroban_sdk::Vec<u64>,
}

impl View for AddressList {
    type V = Seq<u64>;

    closed spec fn view(&self) -> Seq<u64> {
        crate::host::vec_items(self.items)
    }
}

impl AddressList {
    #[verifier::type_invariant]
    spec fn typed(self) -> bool {
        crate::host::vec_typed(self.items)
    }

    /// The list of the given addresses, in their order.
    pub fn from_slice(host: &soroban_sdk::Env, addresses: &[Address]) -> (list: AddressList)
        requires
            addresses@.len() <= u32::MAX,
        ensures
            list@ == addresses@,
    {
        AddressList { items: vec_from_slice(host, addresses) }
    }

    /// How many addresses the list holds.
    pub fn len(&self) -> (len: u32)
        ensures
            len == self@.len(),
    {
        proof {
            use_type_invariant(self);
        }
        vec_len(&self.items)
    }

    /// The address at position `i`, if the list is that long.
    pub fn get(&self, i: u32) -> (address: Option<Address>)
        ensures
            address == (if i < self@.len() {
                Some(self@[i as int])
            } else {
                None
            }),
    {
        proof {
            use_type_invariant(self);
        }
        vec_get(&self.items, i)
    }

    /// Whether `address` is on the list.
    pub fn contains(&self, address: Address) -> (found: bool)
        ensures
            found == self@.contains(address),
    {
        proof {
            use_type_invariant(self);
        }
        vec_contains(&self.items, address)
    }
}

impl Clone for AddressList {
    fn clone(&self) -> (copy: AddressList)
        ensures
            copy@ == self@,
    {
        proof {
            use_type_invariant(self);
        }
        AddressList { items: vec_clone(&self.items) }
    }
}

} // verus!
