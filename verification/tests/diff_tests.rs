use srp_core::diff::SemanticDiffer;
use srp_core::models::{DeltaKind, SemanticSymbol};

fn create_mock_symbol(name: &str, hash: &str) -> SemanticSymbol {
    SemanticSymbol {
        id: 0,
        name: name.to_string(),
        kind: "function".to_string(),
        scope: None,
        snapshot_id: 0,
        chunk_hash: "".to_string(),
        structural_hash: hash.to_string(),
        start_line: 0,
        end_line: 0,
        start_byte: 0,
        end_byte: 0,
        parent_id: None,
    }
}

#[test]
fn test_diff_modified() {
    let prev = vec![create_mock_symbol("func1", "hash1")];
    let curr = vec![create_mock_symbol("func1", "hash2")];

    let deltas = SemanticDiffer::compare(&prev, &curr, Some(1), 2);

    assert_eq!(deltas.len(), 1);
    assert!(matches!(deltas[0].kind, DeltaKind::Modified));
    assert_eq!(deltas[0].symbol_name, "func1");
}

#[test]
fn test_diff_renamed() {
    // Same hash, different name
    let prev = vec![create_mock_symbol("old_name", "same_hash")];
    let curr = vec![create_mock_symbol("new_name", "same_hash")];

    let deltas = SemanticDiffer::compare(&prev, &curr, Some(1), 2);

    assert_eq!(deltas.len(), 1);
    assert!(matches!(deltas[0].kind, DeltaKind::Renamed));
    assert_eq!(deltas[0].symbol_name, "old_name");
    assert_eq!(deltas[0].new_name, Some("new_name".to_string()));
}

#[test]
fn test_diff_added_deleted() {
    let prev = vec![create_mock_symbol("deleted_func", "h1")];
    let curr = vec![create_mock_symbol("added_func", "h2")];

    let deltas = SemanticDiffer::compare(&prev, &curr, Some(1), 2);

    assert_eq!(deltas.len(), 2);
    let has_added = deltas
        .iter()
        .any(|d| matches!(d.kind, DeltaKind::Added) && d.symbol_name == "added_func");
    let has_deleted = deltas
        .iter()
        .any(|d| matches!(d.kind, DeltaKind::Deleted) && d.symbol_name == "deleted_func");

    assert!(has_added);
    assert!(has_deleted);
}

#[test]
fn test_diff_unchanged_pair_emits_nothing() {
    let prev = vec![create_mock_symbol("f", "same")];
    let curr = vec![create_mock_symbol("f", "same")];
    let deltas = SemanticDiffer::compare(&prev, &curr, Some(1), 2);
    assert_eq!(deltas.len(), 0);
}

#[test]
fn test_diff_snapshot_ids_carried() {
    let prev = vec![create_mock_symbol("a", "h1")];
    let curr = vec![create_mock_symbol("a", "h2")];
    let deltas = SemanticDiffer::compare(&prev, &curr, Some(7), 9);
    assert_eq!(deltas.len(), 1);
    assert_eq!(deltas[0].from_snapshot_id, Some(7));
    assert_eq!(deltas[0].to_snapshot_id, 9);
    assert_eq!(deltas[0].structural_hash, "h2");
}

#[test]
fn test_diff_first_added_wins_rename() {
    // Two additions share the deleted symbol's hash: the earliest tentative
    // Added entry is promoted, the other stays Added.
    let prev = vec![create_mock_symbol("old", "h")];
    let curr = vec![create_mock_symbol("new_a", "h"), create_mock_symbol("new_b", "h")];
    let deltas = SemanticDiffer::compare(&prev, &curr, None, 2);
    assert_eq!(deltas.len(), 2);
    assert!(matches!(deltas[0].kind, DeltaKind::Renamed));
    assert_eq!(deltas[0].symbol_name, "old");
    assert_eq!(deltas[0].new_name, Some("new_a".to_string()));
    assert!(matches!(deltas[1].kind, DeltaKind::Added));
    assert_eq!(deltas[1].symbol_name, "new_b");
}

#[test]
fn test_diff_empty_both_sides() {
    let prev: Vec<SemanticSymbol> = Vec::new();
    let curr: Vec<SemanticSymbol> = Vec::new();
    let deltas = SemanticDiffer::compare(&prev, &curr, None, 1);
    assert_eq!(deltas.len(), 0);
}

#[test]
fn protocol_version_tag() {
    assert_eq!(srp_core::protocol::srp_version(), "0.1.0");
    let err = srp_core::protocol::SrpRpcError { code: -32000, message: "boom".to_string() };
    assert_eq!(err.code, -32000);
    let params = srp_core::protocol::DiffParams {
        base_symbols: vec![create_mock_symbol("a", "h1")],
        target_symbols: vec![create_mock_symbol("b", "h2")],
    };
    let deltas = SemanticDiffer::compare(&params.base_symbols, &params.target_symbols, None, 1);
    let result = srp_core::protocol::DiffResult { deltas };
    assert_eq!(result.deltas.len(), 2);
}
