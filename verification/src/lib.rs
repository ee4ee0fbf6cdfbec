//! Core of a package-oriented build orchestrator: dependency and
//! feature resolution over a registry of package summaries, lowering
//! to a graph of compilation units, per-unit fingerprints deciding
//! freshness, the build-script output protocol, and a job scheduler
//! with bounded concurrency — each stated and checked as contracts.
//!
//! Reading and writing files, spawning compilers and talking to the
//! network stay with the surrounding program; this crate takes plain
//! values in and hands plain values back.

use vstd::prelude::*;

pub mod assembly;
pub mod buildout;
pub mod compile;
pub mod config;
pub mod dependency;
pub mod errors;
pub mod fingerprint;
pub mod ident;
pub mod registry;
pub mod req;
pub mod resolver;
pub mod schedule;
pub mod scripts;
pub mod summary;
pub mod text;
pub mod unit;
pub mod version;

pub use version::Version;

verus! {

} // verus!
