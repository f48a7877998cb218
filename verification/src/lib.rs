//! The verified core of a pipeline engine.
pub mod agentgraph;
pub mod controls;
pub mod crossdag;
pub mod cycle;
pub mod error;
pub mod event;
pub mod executor;
pub mod filter;
pub mod findings;
pub mod freespace;
pub mod glob;
pub mod graph;
pub mod hooks;
pub mod instruction;
pub mod journal;
pub mod json;
pub mod land;
pub mod ledger;
pub mod lifecycle;
pub mod loopstats;
pub mod maintenance;
pub mod merge;
pub mod names;
pub mod note;
pub mod plan;
pub mod record;
pub mod schedule;
pub mod status;
pub mod steps;
pub mod text;
pub mod validate;

use vstd::prelude::*;

verus! {

/// The release of this crate a consumer is linking.
pub const VERSION: &'static str = "0.1.0";

} // verus!
