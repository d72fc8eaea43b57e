//! The part of the Soroban host that the contract computes with: its map and its vector, holding
//! address numbers. Everything here is taken on trust from `soroban_sdk`; nothing else is.
//!
//! The host meters every one of these calls. A call that finds the budget of the invocation used
//! up traps and takes the whole invocation with it; the contracts below speak of the calls that
//! come back.
use vstd::prelude::*;

verus! {

/// `soroban_sdk::Env`, the handle to the host.
#[verifier::external_type_specification]
#[verifier::external_body]
pub struct ExEnv(soroban_sdk::Env);

/// `soroban_sdk::Map`, a host object that maps keys to values, each key once.
#[verifier::external_type_specification]
#[verifier::external_body]
#[verifier::reject_recursive_types(K)]
#[verifier::reject_recursive_types(V)]
pub struct ExMap<K, V>(soroban_sdk::Map<K, V>);

/// `soroban_sdk::Vec`, a host object that holds a sequence of values.
#[verifier::external_type_specification]
#[verifier::external_body]
#[verifier::reject_recursive_types(T)]
pub struct ExVec<T>(soroban_sdk::Vec<T>);

/// The key-value pairs that a host map holds.
pub uninterp spec fn map_entries(m: soroban_sdk::Map<u64, u64>) -> Map<u64, u64>;

/// Whether every key and every value of a host map is a `u64`. The host itself lets a map hold
/// values of any type, whatever the type parameters say.
pub uninterp spec fn map_typed(m: soroban_sdk::Map<u64, u64>) -> bool;

/// The items that a host vector holds, first to last.
pub uninterp spec fn vec_items(v: soroban_sdk::Vec<u64>) -> Seq<u64>;

/// Whether every item of a host vector is a `u64`. As with maps, the host does not see to it.
pub uninterp spec fn vec_typed(v: soroban_sdk::Vec<u64>) -> bool;

/// `soroban_sdk::Map::new`: a map without entries.
#[verifier::external_body]
pub(crate) fn map_new(env: &soroban_sdk::Env) -> (m: soroban_sdk::Map<u64, u64>)
    ensures
        map_typed(m),
        map_entries(m) == (Map::<u64, u64>::empty()),
{
    soroban_sdk::Map::new(env)
}

/// `soroban_sdk::Map::clone`: another handle to the same entries. A host map is never changed in
/// place, so a later change of either handle does not show in the other.
#[verifier::external_body]
pub(crate) fn map_clone(m: &soroban_sdk::Map<u64, u64>) -> (copy: soroban_sdk::Map<u64, u64>)
    requires
        map_typed(*m),
    ensures
        map_typed(copy),
        map_entries(copy) == map_entries(*m),
{
    m.clone()
}

/// `soroban_sdk::Map::get`: the value at a key, or `None` where the key has none.
#[verifier::external_body]
pub(crate) fn map_get(m: &soroban_sdk::Map<u64, u64>, k: u64) -> (value: Option<u64>)
    requires
        map_typed(*m),
    ensures
        value == map_entries(*m).get(k),
{
    m.get(k)
}

/// `soroban_sdk::Map::contains_key`: whether a key has a value.
#[verifier::external_body]
pub(crate) fn map_contains_key(m: &soroban_sdk::Map<u64, u64>, k: u64) -> (found: bool)
    requires
        map_typed(*m),
    ensures
        found == map_entries(*m).contains_key(k),
{
    m.contains_key(k)
}

/// `soroban_sdk::Map::set`: gives a key a value in place of any it had. The host refuses a new
/// key once it counts `u32::MAX` of them.
#[verifier::external_body]
pub(crate) fn map_set(m: &mut soroban_sdk::Map<u64, u64>, k: u64, v: u64)
    requires
        map_typed(*old(m)),
        map_entries(*old(m)).contains_key(k) || map_entries(*old(m)).len() < u32::MAX,
    ensures
        map_typed(*final(m)),
        map_entries(*final(m)) == map_entries(*old(m)).insert(k, v),
{
    m.set(k, v)
}

/// `soroban_sdk::Map::remove`: takes a key and its value out, and says whether there was one.
#[verifier::external_body]
pub(crate) fn map_remove(m: &mut soroban_sdk::Map<u64, u64>, k: u64) -> (removed: Option<()>)
    requires
        map_typed(*old(m)),
    ensures
        map_typed(*final(m)),
        map_entries(*final(m)) == map_entries(*old(m)).remove(k),
        removed is Some <==> map_entries(*old(m)).contains_key(k),
{
    m.remove(k)
}

/// `soroban_sdk::Map::keys`: every key of the map, each once.
#[verifier::external_body]
pub(crate) fn map_keys(m: &soroban_sdk::Map<u64, u64>) -> (keys: soroban_sdk::Vec<u64>)
    requires
        map_typed(*m),
    ensures
        vec_typed(keys),
        vec_items(keys).no_duplicates(),
        vec_items(keys).to_set() == map_entries(*m).dom(),
{
    m.keys()
}

/// `soroban_sdk::Vec::from_slice`: a vector of the items of a slice. The host counts items in 32
/// bits.
#[verifier::external_body]
pub(crate) fn vec_from_slice(env: &soroban_sdk::Env, items: &[u64]) -> (v: soroban_sdk::Vec<u64>)
    requires
        items@.len() <= u32::MAX,
    ensures
        vec_typed(v),
        vec_items(v) == items@,
{
    soroban_sdk::Vec::from_slice(env, items)
}

/// `soroban_sdk::Vec::clone`: another handle to the same items, which are never changed in place.
#[verifier::external_body]
pub(crate) fn vec_clone(v: &soroban_sdk::Vec<u64>) -> (copy: soroban_sdk::Vec<u64>)
    requires
        vec_typed(*v),
    ensures
        vec_typed(copy),
        vec_items(copy) == vec_items(*v),
{
    v.clone()
}

/// `soroban_sdk::Vec::len`: how many items the vector holds, which the host counts in 32 bits.
#[verifier::external_body]
pub(crate) fn vec_len(v: &soroban_sdk::Vec<u64>) -> (len: u32)
    requires
        vec_typed(*v),
    ensures
        len == vec_items(*v).len(),
{
    v.len()
}

/// `soroban_sdk::Vec::get`: the item at a position, or `None` past the end.
#[verifier::external_body]
pub(crate) fn vec_get(v: &soroban_sdk::Vec<u64>, i: u32) -> (item: Option<u64>)
    requires
        vec_typed(*v),
    ensures
        item == (if i < vec_items(*v).len() {
            Some(vec_items(*v)[i as int])
        } else {
            None
        }),
{
    v.get(i)
}

/// `soroban_sdk::Vec::contains`: whether some item of the vector is the given one.
#[verifier::external_body]
pub(crate) fn vec_contains(v: &soroban_sdk::Vec<u64>, item: u64) -> (found: bool)
    requires
        vec_typed(*v),
    ensures
        found == vec_items(*v).contains(item),
{
    v.contains(item)
}

} // verus!
