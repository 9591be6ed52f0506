//! Consensus core of a client-side-validated smart-contract system
//! anchored to Bitcoin or Liquid transactions.
//!
//! The crate models contract operations (genesis, state transitions and
//! state extensions), the strict deterministic encoding that gives every
//! operation a content-addressed identity, single-use seals binding owned
//! state to transaction outputs, and the schema-driven validation engine.

use vstd::prelude::*;

pub mod assignments;
pub mod commit;
pub mod encoding;
pub mod ids;
pub mod operations;
pub mod schema;
pub mod seal;
pub mod state;
pub mod validation;

verus! {

/// The layer-1 blockchain a seal or witness transaction lives on.
#[derive(Clone, Copy, PartialEq, Eq, Structural, Debug, Hash)]
pub enum Layer1 {
    Bitcoin,
    Liquid,
}

} // verus!
