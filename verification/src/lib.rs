//! The verified core of the `cargo-cgp-driver` rustc wrapper: the argument handling, the
//! expand-mode request, and the decisions and wording behind its CGP diagnostic rewriting,
//! each stated over plain values.

use vstd::prelude::*;

pub mod anchor;
pub mod args;
pub mod cache;
pub mod callbacks;
pub mod capability;
pub mod coalesce;
pub mod config;
pub mod conflict;
pub mod diag;
pub mod dispatch;
pub mod emitter;
pub mod expand;
pub mod footer;
pub mod help;
pub mod leaf;
pub mod misuse;
pub mod orphan;
pub mod predicate;
pub mod report;
pub mod resolve;
pub mod text;
pub mod ty_model;
pub mod walk;
pub mod written;

verus! {

} // verus!
