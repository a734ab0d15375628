//! Deterministic fixed-step simulation core for a small two-paddle arena game.
//!
//! The crate is organised around a shared mutable [`world::World`] of typed
//! components, a set of per-tick gameplay systems over it, and a
//! [`scheduler::Scheduler`] that validates the systems' declared execution-order
//! dependencies once at startup and then invokes them each tick in a stable
//! topological order.  Rendering, windowing and input capture are external
//! collaborators: the core consumes a per-tick input snapshot and a delta time,
//! and exposes the world state afterwards for presentation.

pub mod game_loop;
pub mod numbers;
pub mod scheduler;
pub mod systems;
pub mod world;
