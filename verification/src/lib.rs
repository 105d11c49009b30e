//! Route search over constant-product liquidity pools.
//!
//! Given a snapshot of pools, each an edge between two assets, the library
//! finds a sequence of pools that turns a fixed amount of one asset into as
//! much as it can of another, within a bound on the number of pools crossed.
//!
//! - [`pricing`] and [`state`] hold the pricing rule of a single pool.
//! - [`route`] says what a route is; [`search`] states the best-first search
//!   on mathematical values; [`pathfinding`] runs it.
//! - [`soundness`] and [`guarantees`] state what holds of every result.
//! - [`frontier`], [`token_set`] and [`route_table`] are the working sets of
//!   a running search.
//! - [`processor`] holds the transitions of a route record and [`lifecycle`]
//!   what holds of them.
//! - [`instruction`] decodes the operations a caller can ask for, and
//!   [`error`] names the refusals.

pub mod error;
pub mod frontier;
pub mod guarantees;
pub mod instruction;
pub mod lifecycle;
pub mod pathfinding;
pub mod pricing;
pub mod processor;
pub mod pubkey;
pub mod route;
pub mod route_table;
pub mod search;
pub mod soundness;
pub mod state;
pub mod token_set;

pub use pubkey::Pubkey;
