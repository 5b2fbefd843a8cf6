//! The decision core of a workflow-orchestration command-line client:
//! resolving a human-typed query to exactly one deployment or flow run,
//! paginating a log stream into one bounded ordered result, composing
//! typed parameter overrides over deployment defaults, and driving a
//! polling loop until a launched run reaches a terminal outcome.
//!
//! Everything here is verified; transport, configuration files, argument
//! parsing and rendering live outside and hand in plain values.
use vstd::prelude::*;

pub mod config;
pub mod error;
pub mod listing;
pub mod models;
pub mod monitor;
pub mod numtext;
pub mod pager;
pub mod params;
pub mod resolve;
pub mod strutil;

verus! {

} // verus!
