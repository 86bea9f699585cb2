//! Reading and writing the local Git identity (`user.name`, `user.email`,
//! `user.signingkey`, `commit.gpgsign`) behind a numbered menu.
//!
//! The library holds the decisions: which command a selection picks, how an
//! identity is read, merged with typed input and written back, and how the
//! output of `git config` becomes a value. Reading and writing a key are
//! handed in as functions, so that a real `git` process or the in-memory
//! [`memory::MemoryConfig`] can stand behind them.
use vstd::prelude::*;

pub mod bridge;
pub mod identity;
pub mod memory;
pub mod menu;
pub mod session;
pub mod store;

verus! {

} // verus!
