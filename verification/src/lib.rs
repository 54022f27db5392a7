//! `lowbulls` is a small in-process message-dispatch core.
//!
//! It offers a registry that binds one handler to each key of a dense key
//! domain and runs the bound handler against a single application state,
//! and a bounded recorder that remembers the most recently observed keys
//! with the instant at which each was seen.
//!
//! - [`logic`] holds the registry, [`logic::LowBullMaster`], with the key
//!   trait [`logic::LogicKey`] and the error type [`logic::LogicError`].
//! - [`master`] holds the trait [`master::LowBullMaster`] for types that
//!   handle keys themselves, one at a time or in a batch.
//! - [`value`] holds the values of the registry's scratch store.
//! - [`watch`] holds the bounded recorder, [`watch::LowBullWatcher`].
//!
//! Every function in this crate is verified with Verus against the contract
//! written on it, but for the one call that reads the clock, of which
//! nothing is claimed. Two things are taken from outside and carried
//! through unopened: the instant at which a key was observed
//! (`std::time::Instant`) and the error a handler reports
//! (`anyhow::Error`).

pub mod logic;
pub mod master;
pub mod value;
pub mod watch;

pub use anyhow;
