//! A token vesting / timelock engine.
//!
//! Principal locked for a beneficiary is released gradually according to a
//! parameterized schedule: a cliff delay, an initial unlock portion in basis
//! points, and a periodic linear release thereafter. The account record that
//! owns all schedules and timelocks has a deterministic, length-prefixed
//! binary encoding so that independent parties can reproduce its state
//! bit-for-bit.

pub mod calculator;
pub mod codec;
pub mod instruction;
pub mod processor;
pub mod types;
