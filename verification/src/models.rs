//! Data model: symbols, references, deltas and chunks.

use vstd::prelude::*;

verus! {

/// A named code entity found in one snapshot of a source file.
#[derive(Clone, Debug, PartialEq)]
pub struct SemanticSymbol {
    pub id: i64,
    pub name: String,
    pub kind: String,
    pub scope: Option<String>,
    pub snapshot_id: i64,
    pub chunk_hash: String,
    pub structural_hash: String,
    pub start_line: usize,
    pub end_line: usize,
    pub start_byte: usize,
    pub end_byte: usize,
    pub parent_id: Option<i64>,
}

/// A call site mentioning a symbol name.
#[derive(Clone, Debug, PartialEq)]
pub struct SymbolReference {
    pub symbol_name: String,
    pub snapshot_id: i64,
    pub start_line: usize,
    pub start_byte: usize,
}

/// The transition a symbol underwent between two snapshots.
#[derive(Clone, Copy, Debug, PartialEq, Eq, Structural)]
pub enum DeltaKind {
    Added,
    Modified,
    Deleted,
    Renamed,
}

/// One delta record: how `symbol_name` changed from one snapshot to another.
/// For `Renamed`, `symbol_name` is the old name and `new_name` the new one.
#[derive(Clone, Debug, PartialEq)]
pub struct SemanticDelta {
    pub id: i64,
    pub project_id: Option<String>,
    pub from_snapshot_id: Option<i64>,
    pub to_snapshot_id: i64,
    pub symbol_name: String,
    pub new_name: Option<String>,
    pub kind: DeltaKind,
    pub structural_hash: String,
}

/// A contiguous byte window of the input, addressed for deduplicated storage.
#[derive(Clone, Debug, PartialEq)]
pub struct Chunk {
    pub hash: String,
    pub content: Vec<u8>,
    pub kind: String,
}

} // verus!
