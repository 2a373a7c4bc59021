//! The two cores of a distributed analytical database, with their contracts proved.
//!
//! The metadata consensus store: `state_machine` (the replicated key-value tree and its
//! replay), `store` (the persisted log and snapshots), `election` (votes and quorums),
//! `raft` (proposals, commit and apply), `node` (request routing and the meta node's
//! decisions) and `keyspace` (the ordered key encoding of the physical store).
//!
//! The cost-based optimizer: `memo` (the deduplicated group arena), `rules`, `tasks` (the
//! exploration scheduler), `cost` (winner selection), `optimizer` (the whole pass),
//! `plans` and `subquery` (rewriting subqueries into joins), `format` and `number`
//! (numeric type rules). `stage` holds the path rules of uploads into stages.

pub mod cost;
pub mod election;
pub mod format;
pub mod keyspace;
pub mod memo;
pub mod node;
pub mod number;
pub mod optimizer;
pub mod plans;
pub mod raft;
pub mod rules;
pub mod sled_tree;
pub mod stage;
pub mod state_machine;
pub mod store;
pub mod subquery;
pub mod tasks;
