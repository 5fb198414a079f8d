//! Error kinds surfaced by the analysis pipeline.

use vstd::prelude::*;

verus! {

/// The error kinds of the pipeline. `Internal` covers grammar loading and
/// query compilation failures; `Io` and `Serialization` are surfaced from
/// collaborators at the boundary; `Parse` reports grammar-level failures;
/// `Analysis` is reserved for higher-level analyzers.
#[derive(Clone, Debug)]
pub enum SrpError {
    Internal(String),
    Io(String),
    Parse(String),
    Serialization(String),
    Analysis(String),
}

pub type SrpResult<T> = Result<T, SrpError>;

} // verus!
