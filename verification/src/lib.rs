//! Semantic analysis of source code: structural fingerprinting of syntax
//! trees, hybrid semantic/content-defined chunking of byte buffers, and
//! reconciliation of symbol lists across snapshots.

pub mod chunker;
pub mod diff;
pub mod error;
pub mod extract;
pub mod fingerprint;
pub mod grammar;
pub mod models;
pub mod protocol;
pub mod registry;
pub mod strutil;
pub mod syntax;
