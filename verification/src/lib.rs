//! oci-sync: sync local files or directories to OCI-compatible registries.
//!
//! This crate holds the verified core of the tool: reference parsing,
//! configuration and shortcut rules, the activity history, artifact
//! metadata and filtering, the encryption envelope, archive path safety
//! and the interactive terminal state machine.
use vstd::prelude::*;

pub mod app;
pub mod archive;
pub mod cache;
pub mod cli;
pub mod config;
pub mod crypto;
pub mod oci;
pub mod output;
pub mod registry;
pub mod sorting;
pub mod strmap;
pub mod text;
pub mod tui;

verus! {

/// The tool's version.
pub const VERSION: &'static str = "0.7.0";

/// The tool's version, as written into manifest annotations and the
/// User-Agent.
pub fn version() -> (r: &'static str)
    ensures
        r@ == VERSION@,
{
    VERSION
}

} // verus!
