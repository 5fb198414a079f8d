//! Symbol extraction: runs the registry's capture query over a parse tree
//! and turns the captures into named symbols (with structural hashes and
//! scopes) and call references. The turning itself — `build_symbols` — is a
//! verified function of plain values with an exact model; the surrounding
//! pipeline degrades unknown extensions and unparseable input to empty
//! results and returns symbols sorted by (start_byte ascending, end_byte
//! descending).

use vstd::prelude::*;
use vstd::string::StringSliceAdditionalSpecFns;
use vstd::utf8::{decode_utf8, encode_utf8, valid_utf8};

use crate::error::{SrpError, SrpResult};
use crate::fingerprint::{blake3_hex_of, token_stream, StructuralFingerprinter};
use crate::grammar::{
    grammar_of, parser_new, parser_parse, parser_set_language, query_new, run_query, tree_to_flat,
};
use crate::models::{SemanticSymbol, SymbolReference};
use crate::registry::{get_language_info, spec_language_for};
use crate::strutil::{
    bytes_to_string, contains_bytes, copy_range, ends_with_bytes, has_prefix, has_sub, has_suffix,
    starts_with_bytes, str_eq,
};
use crate::syntax::{spec_subtree_end, subtree_end, FlatNode, RawCapture, RawMatch};

verus! {

/// The symbol order of the output: by start byte ascending, then end byte
/// descending, so that for one start the outer symbol comes first.
pub open spec fn symbol_lt(a: SemanticSymbol, b: SemanticSymbol) -> bool {
    a.start_byte < b.start_byte || (a.start_byte == b.start_byte && a.end_byte > b.end_byte)
}

/// No later symbol orders strictly before an earlier one.
pub open spec fn symbols_sorted(s: Seq<SemanticSymbol>) -> bool {
    forall|i: int, j: int| 0 <= i < j < s.len() ==> !symbol_lt(#[trigger] s[j], #[trigger] s[i])
}

/// The decoded text of `content[s..e]`: `None` when the window is out of
/// range or not valid UTF-8.
pub open spec fn spec_text(content: Seq<u8>, s: usize, e: usize) -> Option<Seq<char>> {
    if s <= e && e <= content.len() && valid_utf8(content.subrange(s as int, e as int)) {
        Some(decode_utf8(content.subrange(s as int, e as int)))
    } else {
        None
    }
}

/// The first node at or after `j` with this window and kind.
pub open spec fn spec_find_node(
    nodes: Seq<FlatNode>,
    sb: usize,
    eb: usize,
    kind: Seq<char>,
    j: int,
) -> Option<int>
    decreases nodes.len() - j,
{
    if j < 0 || j >= nodes.len() {
        None
    } else if nodes[j].start_byte == sb && nodes[j].end_byte == eb && nodes[j].kind@ == kind {
        Some(j)
    } else {
        spec_find_node(nodes, sb, eb, kind, j + 1)
    }
}

/// The decoded text of the first direct child of `j`, scanning from `m` to
/// `end`, whose kind mentions an identifier and whose text decodes.
pub open spec fn spec_child_ident(
    nodes: Seq<FlatNode>,
    j: int,
    content: Seq<u8>,
    m: int,
    end: int,
) -> Option<Seq<char>>
    decreases end - m,
{
    if m >= end {
        None
    } else if nodes[m].depth == nodes[j].depth + 1 && has_sub(
        encode_utf8(nodes[m].kind@),
        encode_utf8("identifier"@),
    ) && spec_text(content, nodes[m].start_byte, nodes[m].end_byte) is Some {
        spec_text(content, nodes[m].start_byte, nodes[m].end_byte)
    } else {
        spec_child_ident(nodes, j, content, m + 1, end)
    }
}

/// The name fallback of a node: the text of its first direct child whose
/// kind mentions an identifier.
pub open spec fn child_ident_of(nodes: Seq<FlatNode>, j: int, content: Seq<u8>) -> Option<
    Seq<char>,
> {
    spec_child_ident(nodes, j, content, j + 1, spec_subtree_end(nodes, j, j + 1))
}

/// The container kinds whose names contribute to a symbol's scope.
pub open spec fn is_container_kind(k: Seq<char>) -> bool {
    k == "impl_item"@ || k == "struct_item"@ || k == "class_definition"@ || k == "mod_item"@
}

/// The scope names collected walking backward from position `j` while the
/// nearest-ancestor depth is below `want`: each container ancestor
/// contributes its first identifier child's text. The result is ordered
/// innermost first, as the walk finds them.
pub open spec fn spec_scope_parts(
    nodes: Seq<FlatNode>,
    content: Seq<u8>,
    j: int,
    want: int,
) -> Seq<Seq<char>>
    decreases j,
{
    if j <= 0 {
        Seq::empty()
    } else if nodes[j - 1].depth < want {
        let entry: Seq<Seq<char>> = if is_container_kind(nodes[j - 1].kind@) {
            match child_ident_of(nodes, j - 1, content) {
                Some(t) => seq![t],
                None => Seq::empty(),
            }
        } else {
            Seq::empty()
        };
        entry + spec_scope_parts(nodes, content, j - 1, nodes[j - 1].depth as int)
    } else {
        spec_scope_parts(nodes, content, j - 1, want)
    }
}

/// The UTF-8 bytes of the first `k` scope parts joined outermost first with
/// a double colon: parts are innermost-first, so the join walks them from
/// the back.
pub open spec fn spec_join_down(parts: Seq<Seq<char>>, k: int) -> Seq<u8>
    decreases k,
{
    if k <= 0 {
        Seq::empty()
    } else if k == 1 {
        encode_utf8(parts[0])
    } else {
        encode_utf8(parts[k - 1]) + encode_utf8("::"@) + spec_join_down(parts, k - 1)
    }
}

/// The dotted scope of the node at `i`: its container ancestors' names
/// joined outermost first, `None` when no container contributes (or the
/// joined bytes fail to decode, which valid UTF-8 parts never do).
pub open spec fn spec_scope_of(nodes: Seq<FlatNode>, content: Seq<u8>, i: int) -> Option<
    Seq<char>,
> {
    let parts = spec_scope_parts(nodes, content, i, nodes[i].depth as int);
    if parts.len() == 0 {
        None
    } else {
        let joined = spec_join_down(parts, parts.len() as int);
        if valid_utf8(joined) {
            Some(decode_utf8(joined))
        } else {
            None
        }
    }
}

/// A capture whose name ends in ".name": its text becomes the pending name
/// override.
pub open spec fn cap_is_name(c: RawCapture) -> bool {
    has_suffix(encode_utf8(c.name@), encode_utf8(".name"@))
}

/// A capture whose name starts with "call": a reference site.
pub open spec fn cap_is_call(c: RawCapture) -> bool {
    has_prefix(encode_utf8(c.name@), encode_utf8("call"@))
}

/// The extraction-relevant view of one symbol.
pub struct SymbolV {
    pub name: Seq<char>,
    pub kind: Seq<char>,
    pub scope: Option<Seq<char>>,
    pub hash: Seq<char>,
    pub start_line: usize,
    pub end_line: usize,
    pub start_byte: usize,
    pub end_byte: usize,
}

/// The view of one reference.
pub struct RefV {
    pub name: Seq<char>,
    pub start_line: usize,
    pub start_byte: usize,
}

/// The state the capture walk threads: the pending name override and the
/// symbols and references collected so far.
pub struct ExtractState {
    pub ov: Option<Seq<char>>,
    pub syms: Seq<SymbolV>,
    pub refs: Seq<RefV>,
}

pub open spec fn symbol_v(s: SemanticSymbol) -> SymbolV {
    SymbolV {
        name: s.name@,
        kind: s.kind@,
        scope: match s.scope {
            Some(sc) => Some(sc@),
            None => None,
        },
        hash: s.structural_hash@,
        start_line: s.start_line,
        end_line: s.end_line,
        start_byte: s.start_byte,
        end_byte: s.end_byte,
    }
}

pub open spec fn ref_v(r: SymbolReference) -> RefV {
    RefV { name: r.symbol_name@, start_line: r.start_line, start_byte: r.start_byte }
}

pub open spec fn sym_views(v: Seq<SemanticSymbol>) -> Seq<SymbolV> {
    v.map_values(|s: SemanticSymbol| symbol_v(s))
}

pub open spec fn ref_views(v: Seq<SymbolReference>) -> Seq<RefV> {
    v.map_values(|r: SymbolReference| ref_v(r))
}

pub open spec fn str_views(v: Seq<String>) -> Seq<Seq<char>> {
    v.map_values(|s: String| s@)
}

pub open spec fn ov_view(o: Option<String>) -> Option<Seq<char>> {
    match o {
        Some(s) => Some(s@),
        None => None,
    }
}

/// One capture's effect, exactly the rule of the extractor: a ".name"
/// capture whose text decodes sets the override; a "call" capture whose
/// text decodes appends a reference; any other capture with ordered
/// positions consumes the override and appends a symbol whose kind is the
/// capture name, whose hash is the structural hash of the capture's node
/// (located by window and kind in the pre-order listing; the empty stream's
/// digest when no node matches), whose scope is the container walk of that
/// node, and whose name falls back to the first identifier child's text and
/// then to "anonymous".
pub open spec fn capture_step(
    flat: Seq<FlatNode>,
    content: Seq<u8>,
    st: ExtractState,
    c: RawCapture,
) -> ExtractState {
    if cap_is_name(c) {
        match spec_text(content, c.start_byte, c.end_byte) {
            Some(t) => ExtractState { ov: Some(t), syms: st.syms, refs: st.refs },
            None => st,
        }
    } else if cap_is_call(c) {
        match spec_text(content, c.start_byte, c.end_byte) {
            Some(t) => ExtractState {
                ov: st.ov,
                syms: st.syms,
                refs: st.refs.push(
                    RefV { name: t, start_line: c.start_row, start_byte: c.start_byte },
                ),
            },
            None => st,
        }
    } else if c.start_byte <= c.end_byte && c.start_row <= c.end_row {
        let located = spec_find_node(flat, c.start_byte, c.end_byte, c.kind@, 0);
        let hash = match located {
            Some(ni) => blake3_hex_of(
                token_stream(flat.subrange(ni, spec_subtree_end(flat, ni, ni + 1))),
            ),
            None => blake3_hex_of(token_stream(flat.subrange(0, 0))),
        };
        let scope = match located {
            Some(ni) => spec_scope_of(flat, content, ni),
            None => None,
        };
        let name = match st.ov {
            Some(n) => n,
            None => match located {
                Some(ni) => match child_ident_of(flat, ni, content) {
                    Some(t) => t,
                    None => "anonymous"@,
                },
                None => "anonymous"@,
            },
        };
        ExtractState {
            ov: None,
            syms: st.syms.push(
                SymbolV {
                    name,
                    kind: c.name@,
                    scope,
                    hash,
                    start_line: c.start_row,
                    end_line: c.end_row,
                    start_byte: c.start_byte,
                    end_byte: c.end_byte,
                },
            ),
            refs: st.refs,
        }
    } else {
        st
    }
}

/// The capture walk of one match from position `k` on.
pub open spec fn fold_captures_from(
    flat: Seq<FlatNode>,
    content: Seq<u8>,
    st: ExtractState,
    caps: Seq<RawCapture>,
    k: int,
) -> ExtractState
    decreases caps.len() - k,
{
    if k < 0 || k >= caps.len() {
        st
    } else {
        fold_captures_from(flat, content, capture_step(flat, content, st, caps[k]), caps, k + 1)
    }
}

/// The match walk from position `k` on: each match starts with a cleared
/// override and folds its captures in declaration order.
pub open spec fn fold_matches_from(
    flat: Seq<FlatNode>,
    content: Seq<u8>,
    st: ExtractState,
    ms: Seq<RawMatch>,
    k: int,
) -> ExtractState
    decreases ms.len() - k,
{
    if k < 0 || k >= ms.len() {
        st
    } else {
        let st1 = ExtractState { ov: None, syms: st.syms, refs: st.refs };
        fold_matches_from(
            flat,
            content,
            fold_captures_from(flat, content, st1, ms[k].captures@, 0),
            ms,
            k + 1,
        )
    }
}

/// The symbols and references the capture walk produces, as a function of
/// the flat tree, the content bytes and the raw matches.
pub open spec fn extract_model(
    flat: Seq<FlatNode>,
    content: Seq<u8>,
    raw: Seq<RawMatch>,
) -> ExtractState {
    fold_matches_from(
        flat,
        content,
        ExtractState { ov: None, syms: Seq::empty(), refs: Seq::empty() },
        raw,
        0,
    )
}

/// The walks ignore the incoming override, so only the collected symbols
/// and references matter across matches.
proof fn lemma_fold_matches_ov(
    flat: Seq<FlatNode>,
    content: Seq<u8>,
    st1: ExtractState,
    st2: ExtractState,
    ms: Seq<RawMatch>,
    k: int,
)
    requires
        st1.syms == st2.syms,
        st1.refs == st2.refs,
    ensures
        fold_matches_from(flat, content, st1, ms, k).syms == fold_matches_from(
            flat,
            content,
            st2,
            ms,
            k,
        ).syms,
        fold_matches_from(flat, content, st1, ms, k).refs == fold_matches_from(
            flat,
            content,
            st2,
            ms,
            k,
        ).refs,
    decreases ms.len() - k,
{
    if k < 0 || k >= ms.len() {
    } else {
        assert(ExtractState { ov: None, syms: st1.syms, refs: st1.refs } == ExtractState {
            ov: None,
            syms: st2.syms,
            refs: st2.refs,
        });
    }
}

/// A parser instance with its per-instance caches: compiled queries by
/// extension, and the last syntax tree by file path for incremental
/// reparsing.
pub struct SemanticParser {
    parser: tree_sitter::Parser,
    query_cache: Vec<(String, tree_sitter::Query)>,
    tree_cache: Vec<(String, tree_sitter::Tree)>,
}

impl SemanticParser {
    /// How many file paths hold a cached tree.
    pub closed spec fn spec_cached_trees(&self) -> nat {
        self.tree_cache@.len()
    }

    /// How many extensions hold a compiled query.
    pub closed spec fn spec_cached_queries(&self) -> nat {
        self.query_cache@.len()
    }

    /// A fresh parser with empty caches; construction never fails.
    pub fn new() -> (r: SrpResult<SemanticParser>)
        ensures
            r is Ok,
            r matches Ok(p) ==> p.spec_cached_trees() == 0 && p.spec_cached_queries() == 0,
    {
        Ok(
            SemanticParser {
                parser: parser_new(),
                query_cache: Vec::new(),
                tree_cache: Vec::new(),
            },
        )
    }

    /// The number of cached trees, so callers can watch the cache.
    pub fn cached_tree_count(&self) -> (n: usize)
        ensures
            n == self.spec_cached_trees(),
    {
        self.tree_cache.len()
    }

    /// Clears the tree cache; the query cache is kept.
    pub fn clear_cache(&mut self)
        ensures
            final(self).spec_cached_trees() == 0,
            final(self).spec_cached_queries() == old(self).spec_cached_queries(),
    {
        self.tree_cache.clear();
    }

    /// The cache slot of the compiled query for `extension`, if any.
    fn find_query(&self, extension: &str) -> (r: Option<usize>)
        ensures
            r matches Some(i) ==> i < self.query_cache@.len(),
    {
        let mut i: usize = 0;
        while i < self.query_cache.len()
            invariant
                i <= self.query_cache@.len(),
            decreases self.query_cache@.len() - i,
        {
            if str_eq(self.query_cache[i].0.as_str(), extension) {
                return Some(i);
            }
            i = i + 1;
        }
        None
    }

    /// The cache slot of the tree last parsed for `path`, if any.
    fn find_tree(&self, path: &str) -> (r: Option<usize>)
        ensures
            r matches Some(i) ==> i < self.tree_cache@.len(),
    {
        let mut i: usize = 0;
        while i < self.tree_cache.len()
            invariant
                i <= self.tree_cache@.len(),
            decreases self.tree_cache@.len() - i,
        {
            if str_eq(self.tree_cache[i].0.as_str(), path) {
                return Some(i);
            }
            i = i + 1;
        }
        None
    }

    /// The decoded text of a byte window, when it is in range and valid.
    fn text_of(content: &Vec<u8>, s: usize, e: usize) -> (r: Option<String>)
        ensures
            match r {
                Some(t) => spec_text(content@, s, e) == Some(t@),
                None => spec_text(content@, s, e) is None,
            },
    {
        if s <= e && e <= content.len() {
            let txt = copy_range(content, s, e);
            bytes_to_string(txt.as_slice())
        } else {
            None
        }
    }

    /// The first node with this window and kind, in pre-order.
    fn find_node(nodes: &Vec<FlatNode>, start_byte: usize, end_byte: usize, kind: &String) -> (r:
        Option<usize>)
        ensures
            match r {
                Some(i) => spec_find_node(nodes@, start_byte, end_byte, kind@, 0) == Some(i as int)
                    && i < nodes@.len(),
                None => spec_find_node(nodes@, start_byte, end_byte, kind@, 0) is None,
            },
    {
        let mut i: usize = 0;
        while i < nodes.len()
            invariant
                i <= nodes@.len(),
                spec_find_node(nodes@, start_byte, end_byte, kind@, 0) == spec_find_node(
                    nodes@,
                    start_byte,
                    end_byte,
                    kind@,
                    i as int,
                ),
            decreases nodes@.len() - i,
        {
            if nodes[i].start_byte == start_byte && nodes[i].end_byte == end_byte && str_eq(
                nodes[i].kind.as_str(),
                kind.as_str(),
            ) {
                return Some(i);
            }
            i = i + 1;
        }
        None
    }

    /// The text of the first direct child of `j` whose kind mentions an
    /// identifier: the name fallback when no name capture fired.
    fn child_identifier_text(nodes: &Vec<FlatNode>, j: usize, content: &Vec<u8>) -> (r: Option<
        String,
    >)
        requires
            j < nodes@.len(),
        ensures
            match r {
                Some(t) => child_ident_of(nodes@, j as int, content@) == Some(t@),
                None => child_ident_of(nodes@, j as int, content@) is None,
            },
    {
        let end = subtree_end(nodes, j);
        let mut m: usize = j + 1;
        while m < end
            invariant
                j < m <= end <= nodes@.len(),
                end == spec_subtree_end(nodes@, j as int, j + 1),
                forall|k: int| j < k < end ==> (#[trigger] nodes@[k]).depth > nodes@[j as int].depth,
                child_ident_of(nodes@, j as int, content@) == spec_child_ident(
                    nodes@,
                    j as int,
                    content@,
                    m as int,
                    end as int,
                ),
            decreases end - m,
        {
            let direct = nodes[m].depth - 1 == nodes[j].depth;
            let ident = contains_bytes(nodes[m].kind.as_str().as_bytes(), "identifier".as_bytes());
            if direct && ident {
                match Self::text_of(content, nodes[m].start_byte, nodes[m].end_byte) {
                    Some(t) => {
                        return Some(t);
                    },
                    None => {},
                }
            }
            m = m + 1;
        }
        None
    }

    /// The dotted scope of the node at `i`: the names of its enclosing
    /// container nodes (impl, struct, class and module items), outermost
    /// first, joined by a double colon; `None` when no container contributes.
    fn get_scope(nodes: &Vec<FlatNode>, i: usize, content: &Vec<u8>) -> (r: Option<String>)
        requires
            i < nodes@.len(),
        ensures
            match r {
                Some(s) => spec_scope_of(nodes@, content@, i as int) == Some(s@),
                None => spec_scope_of(nodes@, content@, i as int) is None,
            },
    {
        let ghost all_parts = spec_scope_parts(
            nodes@,
            content@,
            i as int,
            nodes@[i as int].depth as int,
        );
        let mut parts: Vec<String> = Vec::new();
        let mut want: usize = nodes[i].depth;
        let mut j: usize = i;
        while j > 0
            invariant
                j <= i < nodes@.len(),
                all_parts == spec_scope_parts(
                    nodes@,
                    content@,
                    i as int,
                    nodes@[i as int].depth as int,
                ),
                all_parts == str_views(parts@) + spec_scope_parts(
                    nodes@,
                    content@,
                    j as int,
                    want as int,
                ),
            decreases j,
        {
            j = j - 1;
            let ghost old_parts = parts@;
            if nodes[j].depth < want {
                want = nodes[j].depth;
                let container = str_eq(nodes[j].kind.as_str(), "impl_item") || str_eq(
                    nodes[j].kind.as_str(),
                    "struct_item",
                ) || str_eq(nodes[j].kind.as_str(), "class_definition") || str_eq(
                    nodes[j].kind.as_str(),
                    "mod_item",
                );
                if container {
                    match Self::child_identifier_text(nodes, j, content) {
                        Some(name) => {
                            parts.push(name);
                            proof {
                                assert(str_views(parts@) =~= str_views(old_parts).push(name@));
                                assert(str_views(old_parts).push(name@) + spec_scope_parts(
                                    nodes@,
                                    content@,
                                    j as int,
                                    nodes@[j as int].depth as int,
                                ) =~= str_views(old_parts) + (seq![name@] + spec_scope_parts(
                                    nodes@,
                                    content@,
                                    j as int,
                                    nodes@[j as int].depth as int,
                                )));
                            }
                        },
                        None => {},
                    }
                }
            }
        }
        proof {
            assert(spec_scope_parts(nodes@, content@, 0, want as int) =~= Seq::<Seq<char>>::empty());
            assert(all_parts =~= str_views(parts@));
        }
        if parts.len() == 0 {
            return None;
        }
        let mut joined: Vec<u8> = Vec::new();
        let mut k: usize = parts.len();
        while k > 0
            invariant
                k <= parts@.len(),
                all_parts == str_views(parts@),
                spec_join_down(all_parts, all_parts.len() as int) == joined@ + spec_join_down(
                    all_parts,
                    k as int,
                ),
            decreases k,
        {
            k = k - 1;
            let ghost old_joined = joined@;
            crate::strutil::append_bytes(&mut joined, parts[k].as_str().as_bytes());
            if k > 0 {
                crate::strutil::append_bytes(&mut joined, "::".as_bytes());
                proof {
                    assert(all_parts[k as int] == parts@[k as int]@);
                    assert(old_joined + (encode_utf8(all_parts[k as int]) + encode_utf8("::"@)
                        + spec_join_down(all_parts, k as int)) =~= joined@ + spec_join_down(
                        all_parts,
                        k as int,
                    ));
                }
            } else {
                proof {
                    assert(all_parts[0] == parts@[0]@);
                    assert(old_joined + (encode_utf8(all_parts[0]) + spec_join_down(all_parts, 0))
                        =~= joined@ + spec_join_down(all_parts, 0));
                    assert(joined@ + Seq::<u8>::empty() =~= joined@);
                }
            }
        }
        proof {
            assert(joined@ + spec_join_down(all_parts, 0) =~= joined@);
            assert(joined@ == spec_join_down(all_parts, all_parts.len() as int));
        }
        bytes_to_string(joined.as_slice())
    }

    /// Turns the raw query captures into symbols and references: exactly the
    /// capture walk of `extract_model` over the given flat tree, content and
    /// matches. Every symbol carries the given snapshot id, a zero id, no
    /// parent, an empty chunk hash and ordered positions; every reference
    /// carries the snapshot id.
    pub fn build_symbols(
        flat: &Vec<FlatNode>,
        raw: &Vec<RawMatch>,
        content: &Vec<u8>,
        snapshot_id: i64,
    ) -> (r: (Vec<SemanticSymbol>, Vec<SymbolReference>))
        ensures
            sym_views(r.0@) == extract_model(flat@, content@, raw@).syms,
            ref_views(r.1@) == extract_model(flat@, content@, raw@).refs,
            forall|k: int| 0 <= k < r.0@.len() ==> {
                let sym = #[trigger] r.0@[k];
                &&& sym.snapshot_id == snapshot_id
                &&& sym.id == 0i64
                &&& sym.parent_id is None
                &&& sym.chunk_hash@.len() == 0
                &&& sym.start_byte <= sym.end_byte
                &&& sym.start_line <= sym.end_line
            },
            forall|k: int| 0 <= k < r.1@.len() ==> (#[trigger] r.1@[k]).snapshot_id == snapshot_id,
    {
        let ghost model = extract_model(flat@, content@, raw@);
        let mut symbols: Vec<SemanticSymbol> = Vec::new();
        let mut references: Vec<SymbolReference> = Vec::new();
        proof {
            assert(sym_views(symbols@) =~= Seq::<SymbolV>::empty());
            assert(ref_views(references@) =~= Seq::<RefV>::empty());
            assert(ExtractState {
                ov: None,
                syms: sym_views(symbols@),
                refs: ref_views(references@),
            } == ExtractState { ov: None, syms: Seq::<SymbolV>::empty(), refs: Seq::<RefV>::empty() });
        }
        let mut mi: usize = 0;
        while mi < raw.len()
            invariant
                mi <= raw@.len(),
                model == extract_model(flat@, content@, raw@),
                fold_matches_from(
                    flat@,
                    content@,
                    ExtractState {
                        ov: None,
                        syms: sym_views(symbols@),
                        refs: ref_views(references@),
                    },
                    raw@,
                    mi as int,
                ).syms == model.syms,
                fold_matches_from(
                    flat@,
                    content@,
                    ExtractState {
                        ov: None,
                        syms: sym_views(symbols@),
                        refs: ref_views(references@),
                    },
                    raw@,
                    mi as int,
                ).refs == model.refs,
                forall|k: int| 0 <= k < symbols@.len() ==> {
                    let sym = #[trigger] symbols@[k];
                    &&& sym.snapshot_id == snapshot_id
                    &&& sym.id == 0i64
                    &&& sym.parent_id is None
                    &&& sym.chunk_hash@.len() == 0
                    &&& sym.start_byte <= sym.end_byte
                    &&& sym.start_line <= sym.end_line
                },
                forall|k: int| 0 <= k < references@.len() ==> (#[trigger] references@[
                    k]).snapshot_id == snapshot_id,
            decreases raw@.len() - mi,
        {
            let mut name_override: Option<String> = None;
            let mut ci: usize = 0;
            while ci < raw[mi].captures.len()
                invariant
                    mi < raw@.len(),
                    ci <= raw@[mi as int].captures@.len(),
                    model == extract_model(flat@, content@, raw@),
                    fold_matches_from(
                        flat@,
                        content@,
                        fold_captures_from(
                            flat@,
                            content@,
                            ExtractState {
                                ov: ov_view(name_override),
                                syms: sym_views(symbols@),
                                refs: ref_views(references@),
                            },
                            raw@[mi as int].captures@,
                            ci as int,
                        ),
                        raw@,
                        mi + 1,
                    ).syms == model.syms,
                    fold_matches_from(
                        flat@,
                        content@,
                        fold_captures_from(
                            flat@,
                            content@,
                            ExtractState {
                                ov: ov_view(name_override),
                                syms: sym_views(symbols@),
                                refs: ref_views(references@),
                            },
                            raw@[mi as int].captures@,
                            ci as int,
                        ),
                        raw@,
                        mi + 1,
                    ).refs == model.refs,
                    forall|k: int| 0 <= k < symbols@.len() ==> {
                        let sym = #[trigger] symbols@[k];
                        &&& sym.snapshot_id == snapshot_id
                        &&& sym.id == 0i64
                        &&& sym.parent_id is None
                        &&& sym.chunk_hash@.len() == 0
                        &&& sym.start_byte <= sym.end_byte
                        &&& sym.start_line <= sym.end_line
                    },
                    forall|k: int| 0 <= k < references@.len() ==> (#[trigger] references@[
                        k]).snapshot_id == snapshot_id,
                decreases raw@[mi as int].captures@.len() - ci,
            {
                let cap = &raw[mi].captures[ci];
                let ghost st_before = ExtractState {
                    ov: ov_view(name_override),
                    syms: sym_views(symbols@),
                    refs: ref_views(references@),
                };
                proof {
                    assert(raw@[mi as int].captures@[ci as int] == *cap);
                }
                if ends_with_bytes(cap.name.as_str().as_bytes(), ".name".as_bytes()) {
                    match Self::text_of(content, cap.start_byte, cap.end_byte) {
                        Some(t) => {
                            name_override = Some(t);
                        },
                        None => {},
                    }
                    proof {
                        assert(ExtractState {
                            ov: ov_view(name_override),
                            syms: sym_views(symbols@),
                            refs: ref_views(references@),
                        } == capture_step(flat@, content@, st_before, *cap));
                    }
                } else if starts_with_bytes(cap.name.as_str().as_bytes(), "call".as_bytes()) {
                    match Self::text_of(content, cap.start_byte, cap.end_byte) {
                        Some(t) => {
                            let ghost old_refs = references@;
                            references.push(
                                SymbolReference {
                                    symbol_name: t,
                                    snapshot_id,
                                    start_line: cap.start_row,
                                    start_byte: cap.start_byte,
                                },
                            );
                            proof {
                                assert(ref_views(references@) =~= ref_views(old_refs).push(
                                    ref_v(references@.last()),
                                ));
                            }
                        },
                        None => {},
                    }
                    proof {
                        assert(ExtractState {
                            ov: ov_view(name_override),
                            syms: sym_views(symbols@),
                            refs: ref_views(references@),
                        } == capture_step(flat@, content@, st_before, *cap));
                    }
                } else if cap.start_byte <= cap.end_byte && cap.start_row <= cap.end_row {
                    let kind = cap.name.clone();
                    let taken = name_override;
                    name_override = None;
                    let located = Self::find_node(&flat, cap.start_byte, cap.end_byte, &cap.kind);
                    let structural_hash = match located {
                        Some(ni) => {
                            let send = subtree_end(&flat, ni);
                            StructuralFingerprinter::compute(&flat, ni, send)
                        },
                        None => StructuralFingerprinter::compute(&flat, 0, 0),
                    };
                    let scope = match located {
                        Some(ni) => Self::get_scope(&flat, ni, content),
                        None => None,
                    };
                    let name = match taken {
                        Some(n) => n,
                        None => {
                            let fallback = match located {
                                Some(ni) => Self::child_identifier_text(&flat, ni, content),
                                None => None,
                            };
                            match fallback {
                                Some(t) => t,
                                None => "anonymous".to_owned(),
                            }
                        },
                    };
                    let ghost old_syms = symbols@;
                    symbols.push(
                        SemanticSymbol {
                            id: 0,
                            name,
                            kind,
                            scope,
                            snapshot_id,
                            chunk_hash: String::new(),
                            structural_hash,
                            start_line: cap.start_row,
                            end_line: cap.end_row,
                            start_byte: cap.start_byte,
                            end_byte: cap.end_byte,
                            parent_id: None,
                        },
                    );
                    proof {
                        assert(sym_views(symbols@) =~= sym_views(old_syms).push(
                            symbol_v(symbols@.last()),
                        ));
                        assert(ExtractState {
                            ov: ov_view(name_override),
                            syms: sym_views(symbols@),
                            refs: ref_views(references@),
                        } == capture_step(flat@, content@, st_before, *cap));
                    }
                } else {
                    proof {
                        assert(ExtractState {
                            ov: ov_view(name_override),
                            syms: sym_views(symbols@),
                            refs: ref_views(references@),
                        } == capture_step(flat@, content@, st_before, *cap));
                    }
                }
                ci = ci + 1;
            }
            proof {
                let st_end = ExtractState {
                    ov: ov_view(name_override),
                    syms: sym_views(symbols@),
                    refs: ref_views(references@),
                };
                lemma_fold_matches_ov(
                    flat@,
                    content@,
                    st_end,
                    ExtractState { ov: None, syms: st_end.syms, refs: st_end.refs },
                    raw@,
                    mi + 1,
                );
            }
            mi = mi + 1;
        }
        (symbols, references)
    }

    /// Sorts symbols by (start_byte ascending, end_byte descending); the
    /// result is a permutation of the input.
    fn sort_symbols(input: Vec<SemanticSymbol>) -> (r: Vec<SemanticSymbol>)
        ensures
            symbols_sorted(r@),
            r@.to_multiset() == input@.to_multiset(),
            forall|x: SemanticSymbol| r@.contains(x) ==> input@.contains(x),
    {
        broadcast use vstd::seq_lib::group_to_multiset_ensures;
        broadcast use vstd::multiset::group_multiset_axioms;

        let mut v = input;
        let mut out: Vec<SemanticSymbol> = Vec::new();
        while v.len() > 0
            invariant
                symbols_sorted(out@),
                out@.to_multiset().add(v@.to_multiset()) == input@.to_multiset(),
                forall|a: int, b: int|
                    0 <= a < out@.len() && 0 <= b < v@.len() ==> !symbol_lt(
                        #[trigger] v@[b],
                        #[trigger] out@[a],
                    ),
            decreases v@.len(),
        {
            let mut mi: usize = 0;
            let mut mj: usize = 1;
            while mj < v.len()
                invariant
                    mi < v@.len(),
                    mj <= v@.len(),
                    forall|k: int| 0 <= k < mj ==> !symbol_lt(#[trigger] v@[k], v@[mi as int]),
                decreases v@.len() - mj,
            {
                let better = v[mj].start_byte < v[mi].start_byte || (v[mj].start_byte
                    == v[mi].start_byte && v[mj].end_byte > v[mi].end_byte);
                if better {
                    mi = mj;
                }
                mj = mj + 1;
            }
            let ghost old_v = v@;
            let ghost old_out = out@;
            let x = v.remove(mi);
            proof {
                vstd::seq_lib::to_multiset_remove::<SemanticSymbol>(old_v, mi as int);
                assert(old_v.remove(mi as int).to_multiset() =~= old_v.to_multiset().remove(x));
                assert(forall|b: int|
                    0 <= b < v@.len() ==> v@[b] == old_v[b] || v@[b] == old_v[b + 1]);
            }
            out.push(x);
            proof {
                vstd::seq_lib::to_multiset_build::<SemanticSymbol>(old_out, x);
                assert(out@.to_multiset() =~= old_out.to_multiset().insert(x));
                assert(old_v.contains(x));
                vstd::seq_lib::to_multiset_contains::<SemanticSymbol>(old_v, x);
                assert(old_v.to_multiset().count(x) > 0);
                assert forall|e: SemanticSymbol|
                    out@.to_multiset().add(v@.to_multiset()).count(e) == input@.to_multiset().count(
                    e) by {
                    assert(out@.to_multiset().count(e) == old_out.to_multiset().insert(x).count(e));
                    assert(v@.to_multiset().count(e) == old_v.to_multiset().remove(x).count(e));
                    assert(old_out.to_multiset().add(old_v.to_multiset()).count(e)
                        == input@.to_multiset().count(e));
                }
                assert(out@.to_multiset().add(v@.to_multiset()) =~= input@.to_multiset());
                assert forall|a: int, b: int|
                    0 <= a < out@.len() && 0 <= b < v@.len() implies !symbol_lt(
                    #[trigger] v@[b],
                    #[trigger] out@[a],
                ) by {
                    if a < old_out.len() {
                        assert(out@[a] == old_out[a]);
                    } else {
                        assert(out@[a] == x);
                    }
                }
                assert forall|i: int, j: int|
                    0 <= i < j < out@.len() implies !symbol_lt(
                    #[trigger] out@[j],
                    #[trigger] out@[i],
                ) by {
                    if j < old_out.len() {
                        assert(out@[i] == old_out[i] && out@[j] == old_out[j]);
                    } else {
                        assert(out@[j] == x);
                        assert(out@[i] == old_out[i]);
                        assert(!symbol_lt(old_v[mi as int], old_out[i]));
                    }
                }
            }
        }
        proof {
            assert(v@.to_multiset() =~= vstd::multiset::Multiset::<SemanticSymbol>::empty());
            assert(out@.to_multiset() =~= input@.to_multiset());
            assert forall|x: SemanticSymbol| out@.contains(x) implies input@.contains(x) by {
                assert(out@.to_multiset().count(x) > 0);
            }
        }
        out
    }

    /// Analyzes one file: looks up the grammar and query for the extension,
    /// parses (reusing a cached tree for `file_path` as a reparse hint),
    /// runs the capture query, and builds symbols and references through
    /// `build_symbols`, whose contract fixes the result for every value the
    /// grammar provider hands back. An unknown extension or a failed parse
    /// yields empty lists, never an error, and an unknown extension leaves
    /// the parser untouched; an error is only possible for a recognized
    /// extension, when the grammar or its query is refused. Symbols come
    /// back sorted by (start_byte ascending, end_byte descending) with
    /// ordered positions, and every symbol and reference carries the given
    /// snapshot id.
    pub fn parse_semantic_data(
        &mut self,
        content: &Vec<u8>,
        extension: &str,
        snapshot_id: i64,
        file_path: Option<&str>,
    ) -> (r: SrpResult<(Vec<SemanticSymbol>, Vec<SymbolReference>)>)
        ensures
            spec_language_for(extension@) is None ==> (r matches Ok(p) && p.0@.len() == 0
                && p.1@.len() == 0 && *final(self) == *old(self)),
            r is Err ==> spec_language_for(extension@) is Some,
            final(self).spec_cached_queries() >= old(self).spec_cached_queries(),
            file_path is None ==> final(self).spec_cached_trees() == old(
                self,
            ).spec_cached_trees(),
            r matches Ok(p) ==> symbols_sorted(p.0@) && (forall|k: int|
                0 <= k < p.0@.len() ==> {
                    let sym = #[trigger] p.0@[k];
                    &&& sym.snapshot_id == snapshot_id
                    &&& sym.id == 0i64
                    &&& sym.parent_id is None
                    &&& sym.chunk_hash@.len() == 0
                    &&& sym.start_byte <= sym.end_byte
                    &&& sym.start_line <= sym.end_line
                }) && (forall|k: int|
                0 <= k < p.1@.len() ==> (#[trigger] p.1@[k]).snapshot_id == snapshot_id),
    {
        let info = match get_language_info(extension) {
            Some(i) => i,
            None => {
                return Ok((Vec::new(), Vec::new()));
            },
        };
        let lang = grammar_of(info.language);
        if !parser_set_language(&mut self.parser, &lang) {
            return Err(SrpError::Internal("failed to set the grammar on the parser".to_owned()));
        }
        let qi: usize = match self.find_query(extension) {
            Some(q) => q,
            None => {
                match query_new(&lang, info.query) {
                    Some(q) => {
                        self.query_cache.push((extension.to_owned(), q));
                        self.query_cache.len() - 1
                    },
                    None => {
                        return Err(
                            SrpError::Internal("query compilation failed for extension".to_owned()),
                        );
                    },
                }
            },
        };
        let old_idx: Option<usize> = match file_path {
            Some(p) => self.find_tree(p),
            None => None,
        };
        let tree_opt = match old_idx {
            Some(ti) => parser_parse(&mut self.parser, content, Some(&self.tree_cache[ti].1)),
            None => parser_parse(&mut self.parser, content, None),
        };
        let tree = match tree_opt {
            Some(t) => t,
            None => {
                return Ok((Vec::new(), Vec::new()));
            },
        };
        let flat = tree_to_flat(&tree);
        let raw = run_query(&self.query_cache[qi].1, &tree, content);
        match file_path {
            Some(p) => {
                match self.find_tree(p) {
                    Some(ti) => {
                        self.tree_cache[ti] = (p.to_owned(), tree);
                    },
                    None => {
                        self.tree_cache.push((p.to_owned(), tree));
                    },
                }
            },
            None => {},
        }
        let (symbols, references) = Self::build_symbols(&flat, &raw, content, snapshot_id);
        let sorted = Self::sort_symbols(symbols);
        proof {
            assert forall|k: int| 0 <= k < sorted@.len() implies {
                let sym = #[trigger] sorted@[k];
                &&& sym.snapshot_id == snapshot_id
                &&& sym.id == 0i64
                &&& sym.parent_id is None
                &&& sym.chunk_hash@.len() == 0
                &&& sym.start_byte <= sym.end_byte
                &&& sym.start_line <= sym.end_line
            } by {
                assert(sorted@.contains(sorted@[k]));
            }
        }
        Ok((sorted, references))
    }

    /// The symbols of one file, without its references.
    pub fn parse_symbols(
        &mut self,
        content: &Vec<u8>,
        extension: &str,
        snapshot_id: i64,
        file_path: Option<&str>,
    ) -> (r: SrpResult<Vec<SemanticSymbol>>)
        ensures
            spec_language_for(extension@) is None ==> (r matches Ok(v) && v@.len() == 0
                && *final(self) == *old(self)),
            r is Err ==> spec_language_for(extension@) is Some,
            r matches Ok(v) ==> symbols_sorted(v@) && (forall|k: int|
                0 <= k < v@.len() ==> (#[trigger] v@[k]).snapshot_id == snapshot_id
                    && v@[k].start_byte <= v@[k].end_byte && v@[k].start_line <= v@[k].end_line),
    {
        match self.parse_semantic_data(content, extension, snapshot_id, file_path) {
            Ok(p) => Ok(p.0),
            Err(e) => Err(e),
        }
    }
}

} // verus!
