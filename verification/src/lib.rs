//! A content-addressed record store for research-experiment workspaces:
//! it records which version of a shared toolchain, which collection
//! script and which workload files were in effect when an experiment ran,
//! deduplicates those snapshots by content hash, resolves "the current
//! version of an experiment" deterministically among its historical
//! snapshots, and answers queries along two independently implemented
//! paths — a typed resolver over the records and a generic resolver over
//! the store serialized as one JSON document — that are proved to agree.
//!
//! The store is persisted as indented JSON text through the crate's own
//! verified codec, whose print/parse round trip is proved exact.  Raw
//! filter expressions speak a deliberately small sublanguage: field
//! access, array splicing and pipes.  Content hashing, the clock and the
//! home directory are outside collaborators, reached through a handful
//! of trusted declarations; everything else is verified.

pub mod cli;
pub mod codec;
pub mod commands;
pub mod config;
pub mod errors;
pub mod experiment;
pub mod filter;
pub mod generic;
pub mod git_driver;
pub mod json;
pub mod paths;
pub mod query;
pub mod snapshot;
pub mod store;
pub mod text;
pub mod workload;
