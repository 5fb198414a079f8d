//! The trusted boundary to the grammar provider: opaque parser, tree and
//! query handles, one handle function per grammar crate, and the two
//! conversions that copy a tree's nodes and a query's captures out into
//! plain values. Everything the library proves about trees is stated over
//! those plain values; these items are believed, not verified.

use streaming_iterator::StreamingIterator;
use vstd::prelude::*;

use crate::registry::LangId;
use crate::syntax::{FlatNode, RawCapture, RawMatch};

verus! {

#[verifier::external_type_specification]
#[verifier::external_body]
pub struct ExLanguage(tree_sitter::Language);

#[verifier::external_type_specification]
#[verifier::external_body]
pub struct ExParser(tree_sitter::Parser);

#[verifier::external_type_specification]
#[verifier::external_body]
pub struct ExTree(tree_sitter::Tree);

#[verifier::external_type_specification]
#[verifier::external_body]
pub struct ExQuery(tree_sitter::Query);

/// Relies on tree_sitter_rust::LANGUAGE for the Rust grammar handle.
#[verifier::external_body]
fn grammar_rust() -> tree_sitter::Language {
    tree_sitter::Language::new(tree_sitter_rust::LANGUAGE)
}

/// Relies on tree_sitter_python::LANGUAGE for the Python grammar handle.
#[verifier::external_body]
fn grammar_python() -> tree_sitter::Language {
    tree_sitter::Language::new(tree_sitter_python::LANGUAGE)
}

/// Relies on tree_sitter_javascript::LANGUAGE for the JavaScript grammar handle.
#[verifier::external_body]
fn grammar_javascript() -> tree_sitter::Language {
    tree_sitter::Language::new(tree_sitter_javascript::LANGUAGE)
}

/// Relies on tree_sitter_typescript::LANGUAGE_TYPESCRIPT for the TypeScript grammar handle.
#[verifier::external_body]
fn grammar_typescript() -> tree_sitter::Language {
    tree_sitter::Language::new(tree_sitter_typescript::LANGUAGE_TYPESCRIPT)
}

/// Relies on tree_sitter_typescript::LANGUAGE_TSX for the TSX grammar handle.
#[verifier::external_body]
fn grammar_tsx() -> tree_sitter::Language {
    tree_sitter::Language::new(tree_sitter_typescript::LANGUAGE_TSX)
}

/// Relies on tree_sitter_go::LANGUAGE for the Go grammar handle.
#[verifier::external_body]
fn grammar_go() -> tree_sitter::Language {
    tree_sitter::Language::new(tree_sitter_go::LANGUAGE)
}

/// Relies on tree_sitter_c::LANGUAGE for the C grammar handle.
#[verifier::external_body]
fn grammar_c() -> tree_sitter::Language {
    tree_sitter::Language::new(tree_sitter_c::LANGUAGE)
}

/// Relies on tree_sitter_cpp::LANGUAGE for the C++ grammar handle.
#[verifier::external_body]
fn grammar_cpp() -> tree_sitter::Language {
    tree_sitter::Language::new(tree_sitter_cpp::LANGUAGE)
}

/// Relies on tree_sitter_java::LANGUAGE for the Java grammar handle.
#[verifier::external_body]
fn grammar_java() -> tree_sitter::Language {
    tree_sitter::Language::new(tree_sitter_java::LANGUAGE)
}

/// Relies on tree_sitter_ruby::LANGUAGE for the Ruby grammar handle.
#[verifier::external_body]
fn grammar_ruby() -> tree_sitter::Language {
    tree_sitter::Language::new(tree_sitter_ruby::LANGUAGE)
}

/// Relies on tree_sitter_c_sharp::LANGUAGE for the C# grammar handle.
#[verifier::external_body]
fn grammar_c_sharp() -> tree_sitter::Language {
    tree_sitter::Language::new(tree_sitter_c_sharp::LANGUAGE)
}

/// Relies on tree_sitter_php::LANGUAGE_PHP for the PHP grammar handle.
#[verifier::external_body]
fn grammar_php() -> tree_sitter::Language {
    tree_sitter::Language::new(tree_sitter_php::LANGUAGE_PHP)
}

/// Relies on tree_sitter_json::LANGUAGE for the JSON grammar handle.
#[verifier::external_body]
fn grammar_json() -> tree_sitter::Language {
    tree_sitter::Language::new(tree_sitter_json::LANGUAGE)
}

/// Relies on tree_sitter_html::LANGUAGE for the HTML grammar handle.
#[verifier::external_body]
fn grammar_html() -> tree_sitter::Language {
    tree_sitter::Language::new(tree_sitter_html::LANGUAGE)
}

/// Relies on tree_sitter_css::LANGUAGE for the CSS grammar handle.
#[verifier::external_body]
fn grammar_css() -> tree_sitter::Language {
    tree_sitter::Language::new(tree_sitter_css::LANGUAGE)
}

/// Relies on tree_sitter_md::LANGUAGE for the Markdown grammar handle.
#[verifier::external_body]
fn grammar_markdown() -> tree_sitter::Language {
    tree_sitter::Language::new(tree_sitter_md::LANGUAGE)
}

/// The grammar handle for each language the registry knows.
pub fn grammar_of(lang: LangId) -> tree_sitter::Language {
    match lang {
        LangId::Rust => grammar_rust(),
        LangId::Python => grammar_python(),
        LangId::Javascript => grammar_javascript(),
        LangId::Typescript => grammar_typescript(),
        LangId::Tsx => grammar_tsx(),
        LangId::Go => grammar_go(),
        LangId::C => grammar_c(),
        LangId::Cpp => grammar_cpp(),
        LangId::Java => grammar_java(),
        LangId::Ruby => grammar_ruby(),
        LangId::CSharp => grammar_c_sharp(),
        LangId::Php => grammar_php(),
        LangId::Json => grammar_json(),
        LangId::Html => grammar_html(),
        LangId::Css => grammar_css(),
        LangId::Markdown => grammar_markdown(),
    }
}

/// Relies on tree_sitter::Parser::new.
#[verifier::external_body]
pub fn parser_new() -> tree_sitter::Parser {
    tree_sitter::Parser::new()
}

/// Relies on tree_sitter::Parser::set_language: returns whether the parser
/// accepted the grammar.
#[verifier::external_body]
pub fn parser_set_language(parser: &mut tree_sitter::Parser, lang: &tree_sitter::Language) -> bool {
    parser.set_language(lang).is_ok()
}

/// Relies on tree_sitter::Parser::parse: `None` when parsing was not
/// possible; `old_tree` is only a hint for incremental reparsing.
#[verifier::external_body]
pub fn parser_parse(
    parser: &mut tree_sitter::Parser,
    content: &Vec<u8>,
    old_tree: Option<&tree_sitter::Tree>,
) -> Option<tree_sitter::Tree> {
    parser.parse(content.as_slice(), old_tree)
}

/// Relies on tree_sitter::Query::new: `None` when the query source does not
/// compile against the grammar.
#[verifier::external_body]
pub fn query_new(lang: &tree_sitter::Language, source: &str) -> Option<tree_sitter::Query> {
    tree_sitter::Query::new(lang, source).ok()
}

/// Relies on tree_sitter::TreeCursor (goto_first_child, goto_next_sibling,
/// goto_parent) and the node accessors kind, is_named, start_byte, end_byte,
/// start_position and end_position: copies the tree's nodes out in pre-order
/// with their depths, the root first at depth zero.
#[verifier::external_body]
pub fn tree_to_flat(tree: &tree_sitter::Tree) -> (r: Vec<FlatNode>)
    ensures
        r@.len() >= 1,
        r@[0].depth == 0,
{
    let mut out: Vec<FlatNode> = Vec::new();
    let mut cursor = tree.walk();
    let mut depth: usize = 0;
    loop {
        let n = cursor.node();
        out.push(FlatNode { kind: n.kind().to_string(), named: n.is_named(), depth,
            start_byte: n.start_byte(), end_byte: n.end_byte(),
            start_row: n.start_position().row, end_row: n.end_position().row });
        if cursor.goto_first_child() { depth += 1; continue; }
        loop {
            if cursor.goto_next_sibling() { break; }
            if !cursor.goto_parent() { return out; }
            depth -= 1;
        }
    }
}

/// Relies on tree_sitter::QueryCursor::matches (driven through
/// streaming_iterator) and Query::capture_names: copies each match's
/// captures out as the capture's name with the captured node's kind and
/// position, matches in cursor order, captures in declaration order.
#[verifier::external_body]
pub fn run_query(
    query: &tree_sitter::Query,
    tree: &tree_sitter::Tree,
    content: &Vec<u8>,
) -> Vec<RawMatch> {
    let mut out: Vec<RawMatch> = Vec::new();
    let mut cursor = tree_sitter::QueryCursor::new();
    let mut matches = cursor.matches(query, tree.root_node(), content.as_slice());
    while let Some(m) = matches.next() {
        let mut caps: Vec<RawCapture> = Vec::new();
        for c in m.captures() {
            caps.push(RawCapture { name: query.capture_names()[c.index as usize].to_string(),
                kind: c.node.kind().to_string(), start_byte: c.node.start_byte(),
                end_byte: c.node.end_byte(), start_row: c.node.start_position().row,
                end_row: c.node.end_position().row });
        }
        out.push(RawMatch { captures: caps });
    }
    out
}

} // verus!
