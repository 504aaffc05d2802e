//! Incremental build-and-optimize pipeline for workspaces of WebAssembly
//! contracts: member partitioning, compilation planning, checksum ledgers,
//! skip-or-optimize decisions and artifact naming.

pub mod cache;
pub mod compilation;
pub mod context;
pub mod ext;
pub mod hashing;
pub mod ledger;
pub mod optimization;
pub mod paths;
pub mod text;
pub mod workspace;
