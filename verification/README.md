# Astroid proposal contract

A verified proposal contract for the Soroban platform: an action that awaits approval, its way
through the lifecycle, and votes that can be forwarded to others.

- `src/` is the verified library. `contract.rs` holds the operations; each is stated against the
  mathematical model in `model.rs`: when it is refused and with which error, and what it does
  otherwise. `delegation.rs` follows the chains of forwarded votes. `laws.rs` and `renaming.rs` say
  what holds of the contract as a whole. `host.rs` lists what is taken on trust from
  `soroban_sdk`: its map and its vector.
- `app/` is the contract as it is deployed: entry points, storage, authorization and events.
- `tests/` runs the library against the real host objects.

An invocation works on the ledger entries it concerns. `app/` reads them, hands them to the library
with a number for each address in them, and then performs, in order, the effects that the library
leaves: entries to write, lifetimes to extend, events to publish. A refused operation leaves none.
