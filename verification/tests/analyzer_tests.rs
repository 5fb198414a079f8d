use srp_core::diff::SemanticDiffer;
use srp_core::extract::SemanticParser;
use srp_core::models::{DeltaKind, SemanticSymbol};
use srp_core::syntax::{FlatNode, RawCapture, RawMatch};

fn analyze(parser: &mut SemanticParser, src: &str, ext: &str, snap: i64) -> Vec<SemanticSymbol> {
    let content: Vec<u8> = src.as_bytes().to_vec();
    parser
        .parse_symbols(&content, ext, snap, None)
        .expect("analysis should succeed for a supported extension")
}

#[test]
fn rust_function_rename_yields_renamed_delta() {
    let mut parser = SemanticParser::new().unwrap();
    let prev = analyze(&mut parser, "fn old_name(x:i32)->i32{x+1}", "rs", 1);
    let curr = analyze(&mut parser, "fn new_name(x:i32)->i32{x+1}", "rs", 2);

    assert_eq!(prev.len(), 1);
    assert_eq!(curr.len(), 1);
    assert_eq!(prev[0].name, "old_name");
    assert_eq!(curr[0].name, "new_name");
    assert_eq!(prev[0].kind, "function");
    // Rename invariance: identical structure, identical hash.
    assert_eq!(prev[0].structural_hash, curr[0].structural_hash);
    assert_eq!(prev[0].structural_hash.len(), 64);

    let deltas = SemanticDiffer::compare(&prev, &curr, Some(1), 2);
    assert_eq!(deltas.len(), 1);
    assert!(matches!(deltas[0].kind, DeltaKind::Renamed));
    assert_eq!(deltas[0].symbol_name, "old_name");
    assert_eq!(deltas[0].new_name, Some("new_name".to_string()));
}

#[test]
fn literal_change_keeps_hash_structure_change_does_not() {
    let mut parser = SemanticParser::new().unwrap();
    let a = analyze(&mut parser, "fn f(){1}", "rs", 1);
    let b = analyze(&mut parser, "fn f(){2}", "rs", 2);
    assert_eq!(a.len(), 1);
    assert_eq!(b.len(), 1);
    // Literal invariance: changing a literal's value leaves the hash alone,
    // so the unchanged pair produces no delta at all.
    assert_eq!(a[0].structural_hash, b[0].structural_hash);
    let deltas = SemanticDiffer::compare(&a, &b, Some(1), 2);
    assert_eq!(deltas.len(), 0);

    // Sensitivity: a body change that alters structure changes the hash and
    // yields Modified.
    let c = analyze(&mut parser, "fn f(){}", "rs", 3);
    let d = analyze(&mut parser, "fn f(){return 1;}", "rs", 4);
    assert_eq!(c.len(), 1);
    assert_eq!(d.len(), 1);
    assert_ne!(c[0].structural_hash, d[0].structural_hash);
    let deltas2 = SemanticDiffer::compare(&c, &d, Some(3), 4);
    assert_eq!(deltas2.len(), 1);
    assert!(matches!(deltas2[0].kind, DeltaKind::Modified));
    assert_eq!(deltas2[0].symbol_name, "f");
}

#[test]
fn comment_only_change_keeps_hash() {
    let mut parser = SemanticParser::new().unwrap();
    let a = analyze(&mut parser, "fn f(){1}", "rs", 1);
    let b = analyze(&mut parser, "// says nothing\nfn f(){1}", "rs", 2);
    assert_eq!(a.len(), 1);
    assert_eq!(b.len(), 1);
    assert_eq!(a[0].structural_hash, b[0].structural_hash);
}

#[test]
fn unknown_extension_yields_empty_result() {
    let mut parser = SemanticParser::new().unwrap();
    let content: Vec<u8> = b"fn f(){}".to_vec();
    let (symbols, references) = parser
        .parse_semantic_data(&content, "nope", 1, None)
        .unwrap();
    assert_eq!(symbols.len(), 0);
    assert_eq!(references.len(), 0);
}

#[test]
fn references_are_collected_for_calls() {
    let mut parser = SemanticParser::new().unwrap();
    let content: Vec<u8> = b"fn f(){ g(); }".to_vec();
    let (symbols, references) = parser.parse_semantic_data(&content, "rs", 1, None).unwrap();
    assert_eq!(symbols.len(), 1);
    assert_eq!(symbols[0].name, "f");
    assert!(references.iter().any(|r| r.symbol_name == "g()"));
    assert!(references.iter().all(|r| r.snapshot_id == 1));
}

#[test]
fn scope_is_collected_from_containers() {
    let mut parser = SemanticParser::new().unwrap();
    let content: Vec<u8> = b"mod outer { fn inner() {} }".to_vec();
    let (symbols, _) = parser.parse_semantic_data(&content, "rs", 1, None).unwrap();
    let inner = symbols.iter().find(|s| s.name == "inner").expect("inner found");
    assert_eq!(inner.scope, Some("outer".to_string()));
    let outer = symbols.iter().find(|s| s.name == "outer").expect("outer found");
    assert_eq!(outer.kind, "module");
}

#[test]
fn symbols_are_sorted_outer_before_inner() {
    let mut parser = SemanticParser::new().unwrap();
    let content: Vec<u8> = b"mod m { fn a() {} fn b() {} }".to_vec();
    let (symbols, _) = parser.parse_semantic_data(&content, "rs", 1, None).unwrap();
    assert!(symbols.len() >= 3);
    for w in symbols.windows(2) {
        let ordered = w[0].start_byte < w[1].start_byte
            || (w[0].start_byte == w[1].start_byte && w[0].end_byte >= w[1].end_byte);
        assert!(ordered, "symbols must be sorted by (start_byte up, end_byte down)");
    }
    // The module starts where its first symbol starts and encloses the fns.
    assert_eq!(symbols[0].name, "m");
}

#[test]
fn incremental_reparse_is_stable() {
    let mut parser = SemanticParser::new().unwrap();
    let content: Vec<u8> = b"fn alpha(){1} fn beta(){2}".to_vec();
    let first = parser
        .parse_semantic_data(&content, "rs", 1, Some("src/alpha.rs"))
        .unwrap();
    assert_eq!(parser.cached_tree_count(), 1);
    let second = parser
        .parse_semantic_data(&content, "rs", 1, Some("src/alpha.rs"))
        .unwrap();
    // The cached tree was reused in place, not duplicated.
    assert_eq!(parser.cached_tree_count(), 1);
    assert_eq!(first.0, second.0);
    assert_eq!(first.1, second.1);
    assert_eq!(first.0.len(), 2);

    parser.clear_cache();
    assert_eq!(parser.cached_tree_count(), 0);
}

#[test]
fn anonymous_fallback_name() {
    let mut parser = SemanticParser::new().unwrap();
    // The impl capture has no name capture of its own; its type identifier
    // child supplies the name through the fallback scan.
    let content: Vec<u8> = b"struct S; impl S { }".to_vec();
    let (symbols, _) = parser.parse_semantic_data(&content, "rs", 1, None).unwrap();
    assert!(symbols.iter().any(|s| s.kind == "struct" && s.name == "S"));
}

#[test]
fn build_symbols_applies_the_capture_rules() {
    let content: Vec<u8> = b"fn f(){ g(); }".to_vec();
    let mk_node = |kind: &str, named: bool, depth: usize, sb: usize, eb: usize| FlatNode {
        kind: kind.to_string(),
        named,
        depth,
        start_byte: sb,
        end_byte: eb,
        start_row: 0,
        end_row: 0,
    };
    let flat = vec![
        mk_node("source_file", true, 0, 0, 14),
        mk_node("function_item", true, 1, 0, 14),
        mk_node("identifier", true, 2, 3, 4),
    ];
    let mk_cap = |name: &str, kind: &str, sb: usize, eb: usize| RawCapture {
        name: name.to_string(),
        kind: kind.to_string(),
        start_byte: sb,
        end_byte: eb,
        start_row: 0,
        end_row: 0,
    };
    let raw = vec![
        RawMatch {
            captures: vec![
                mk_cap("function.name", "identifier", 3, 4),
                mk_cap("function", "function_item", 0, 14),
            ],
        },
        RawMatch { captures: vec![mk_cap("call", "call_expression", 8, 11)] },
    ];

    let (symbols, references) =
        srp_core::extract::SemanticParser::build_symbols(&flat, &raw, &content, 5);
    assert_eq!(symbols.len(), 1);
    assert_eq!(symbols[0].name, "f");
    assert_eq!(symbols[0].kind, "function");
    assert_eq!(symbols[0].scope, None);
    assert_eq!(symbols[0].snapshot_id, 5);
    assert_eq!(symbols[0].structural_hash.len(), 64);
    assert_eq!((symbols[0].start_byte, symbols[0].end_byte), (0, 14));
    assert_eq!(references.len(), 1);
    assert_eq!(references[0].symbol_name, "g()");
    assert_eq!(references[0].start_byte, 8);
    assert_eq!(references[0].snapshot_id, 5);
}
