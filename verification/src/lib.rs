//! Verified core of a release tool for large multi-crate workspaces.
//!
//! The library covers package selection, version bumping with cascading
//! requirement updates, package renames, dead-dependency cleanup,
//! release planning over the workspace dependency graph, pre-flight
//! checks and publish pacing.  Manifest edits are format preserving:
//! they go through a structure-preserving TOML editor that is reached
//! only through a small set of trusted wrappers.

pub mod cascade;
pub mod checks;
pub mod clean;
pub mod editor;
pub mod errors;
pub mod inject;
pub mod matcher;
pub mod planner;
pub mod publish;
pub mod readme;
pub mod rename;
pub mod search;
pub mod selection;
pub mod semver_io;
pub mod strutil;
pub mod toml_doc;
pub mod version;
pub mod workspace;
