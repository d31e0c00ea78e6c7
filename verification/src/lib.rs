//! Rebuilding a compilable local project from the verified source bundle a
//! block explorer holds for an on-chain contract.
//!
//! The crate models the pipeline's data as plain values: a fetched source
//! bundle is a list of relative paths with file contents, a remapping is an
//! alias bound to a project-relative path, and the project's persisted build
//! configuration is a tree of keyed values.  Every decision the pipeline
//! makes -- how the fetched tree is laid out on disk, which remappings
//! survive, which configuration keys are overwritten, which compiled
//! artifact holds the target contract -- is computed here and proved against
//! its contract.  Reading the bundle from the network, moving files, and
//! invoking the compiler are left to the surrounding binary.

pub mod artifact;
pub mod config_doc;
pub mod errors;
pub mod materialize;
pub mod metadata;
pub mod materialize_laws;
pub mod pathseg;
pub mod pipeline;
pub mod reconcile;
pub mod remapping;
pub mod source_tree;
pub mod synthesize;

use vstd::prelude::*;

verus! {

} // verus!
