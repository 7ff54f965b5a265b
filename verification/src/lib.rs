//! The rules of a small Solana program for events with a betting pot: users
//! stake on one another, hosts create events and invite guests, guests bet,
//! the host declares who attended, the attendees agree, and then each one
//! claims an equal share of the pot.
//!
//! Each instruction is a function from the accounts it reads, as plain
//! values, to the accounts it writes and the transfer it asks the runtime to
//! make; `model` states the same rules over the accounts' views, and `laws`
//! proves what holds across instructions.
use vstd::prelude::*;

pub mod accounts;
pub mod keys;
pub mod laws;
pub mod model;
pub mod program;
pub mod sizes;
pub mod system;

verus! {
} // verus!
