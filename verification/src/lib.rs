//! The Astroid proposal contract: an action that awaits approval and its way through the
//! lifecycle, with votes that can be forwarded to others.
//!
//! A proposal names who may approve it and how many approvals it takes. It starts out pending;
//! enough approvals make it approved, after which its proposer executes and then closes it. An
//! approver can reject it while it is pending, its proposer can cancel it while it is pending or
//! approved, and it expires at its deadline.
//!
//! [`contract`] holds the operations, stated against the mathematical [`model`]; [`delegation`]
//! follows the chains of forwarded votes; [`behaviour`] says what each operation is for, [`laws`]
//! what holds of the contract as a whole, and [`renaming`] that the numbers which stand for
//! addresses are names and nothing more. [`host`] is what is taken on trust from the Soroban host.
pub mod behaviour;
pub mod collections;
pub mod contract;
pub mod delegation;
pub mod error;
pub mod host;
pub mod laws;
pub mod model;
pub mod proposal;
pub mod renaming;
