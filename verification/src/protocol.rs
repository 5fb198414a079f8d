//! The JSON-RPC wire shape the analyzer sits behind: request and response
//! envelopes (their payloads are opaque JSON values) and the typed parameter
//! and result shapes of the analyze and diff methods.

use vstd::prelude::*;

use crate::models::{SemanticDelta, SemanticSymbol, SymbolReference};

verus! {

#[verifier::external_type_specification]
#[verifier::external_body]
pub struct ExValue(serde_json::Value);

/// One JSON-RPC request: the protocol tag, an optional id, the method name,
/// and its parameters as an opaque JSON value.
pub struct SrpRequest {
    pub jsonrpc: String,
    pub id: Option<u64>,
    pub method: String,
    pub params: serde_json::Value,
}

/// One JSON-RPC response: a result or an error, never meaningfully both.
pub struct SrpResponse {
    pub jsonrpc: String,
    pub id: Option<u64>,
    pub result: Option<serde_json::Value>,
    pub error: Option<SrpRpcError>,
}

/// The error member of a response.
#[derive(Clone, Debug, PartialEq)]
pub struct SrpRpcError {
    pub code: i32,
    pub message: String,
}

/// Parameters of the analyze method.
#[derive(Clone, Debug)]
pub struct AnalyzeParams {
    pub content: String,
    pub extension: String,
}

/// Result of the analyze method.
#[derive(Clone, Debug)]
pub struct AnalyzeResult {
    pub symbols: Vec<SemanticSymbol>,
    pub references: Vec<SymbolReference>,
}

/// Parameters of the diff method.
#[derive(Clone, Debug)]
pub struct DiffParams {
    pub base_symbols: Vec<SemanticSymbol>,
    pub target_symbols: Vec<SemanticSymbol>,
}

/// Result of the diff method.
#[derive(Clone, Debug)]
pub struct DiffResult {
    pub deltas: Vec<SemanticDelta>,
}

/// The protocol version tag carried by the envelope.
pub fn srp_version() -> (s: &'static str)
    ensures
        s@ == "0.1.0"@,
{
    "0.1.0"
}

} // verus!
