//! A single-threaded cooperative task runtime: a scheduler kernel that keeps
//! ready tasks in a seeded, reproducibly shuffled queue and hands suspended
//! tasks back through one-shot wake signals, and a model of a one-shot
//! readiness reactor that decides registrations and translates kernel events.

mod rng;

pub mod cell;
pub mod connection;
pub mod executor;
pub mod laws;
pub mod reactor;

pub use cell::{ResultCell, Slot};
pub use executor::{resolve_seed, spawn, Executor, RunState, SpawnError};
pub use reactor::{Interest, ReactorError, Registry};
