//! Structural fingerprinting: a pre-order walk of a syntax (sub)tree emits a
//! normalization token per node — identifier and literal nodes are replaced
//! by fixed markers, comments and their subtrees are skipped, every other
//! node contributes its kind — and the digest of that token stream is the
//! structural hash. The stream, and so the hash, depends only on the kinds,
//! namedness and nesting of the nodes, never on identifier spellings,
//! literal values, comments, byte offsets or whitespace.

use vstd::prelude::*;
use vstd::utf8::encode_utf8;

use crate::strutil::{append_bytes, str_eq};
use crate::syntax::FlatNode;

verus! {

/// The identifier kinds whose spelling the fingerprint ignores.
pub open spec fn is_ident_kind(k: Seq<char>) -> bool {
    k == "identifier"@ || k == "field_identifier"@ || k == "type_identifier"@
}

/// The literal kinds whose value the fingerprint ignores.
pub open spec fn is_literal_kind(k: Seq<char>) -> bool {
    k == "string_literal"@ || k == "integer_literal"@ || k == "float_literal"@ || k
        == "boolean_literal"@
}

/// A named comment node: it and its whole subtree are skipped.
pub open spec fn is_comment_node(n: FlatNode) -> bool {
    n.named && n.kind@ == "comment"@
}

/// The bytes one node feeds the digest: anonymous nodes their kind verbatim,
/// identifiers a fixed marker, literals a fixed marker, comments nothing,
/// any other named node its kind.
pub open spec fn node_token(n: FlatNode) -> Seq<u8> {
    if !n.named {
        encode_utf8(n.kind@)
    } else if is_ident_kind(n.kind@) {
        encode_utf8("|ID|"@)
    } else if is_literal_kind(n.kind@) {
        encode_utf8("|LIT|"@)
    } else if n.kind@ == "comment"@ {
        Seq::empty()
    } else {
        encode_utf8(n.kind@)
    }
}

/// The comment-skipping state after one node: `Some(d)` means a comment at
/// depth `d` is open and everything deeper is skipped.
pub open spec fn next_skip(skip: Option<usize>, n: FlatNode) -> Option<usize> {
    if skip matches Some(d) && n.depth > d {
        skip
    } else if is_comment_node(n) {
        Some(n.depth)
    } else {
        None
    }
}

/// What one node emits under the given skipping state.
pub open spec fn emit(skip: Option<usize>, n: FlatNode) -> Seq<u8> {
    if skip matches Some(d) && n.depth > d {
        Seq::empty()
    } else {
        node_token(n)
    }
}

/// The skipping state before position `j`.
pub open spec fn skip_at(nodes: Seq<FlatNode>, j: int) -> Option<usize>
    decreases j,
{
    if j <= 0 {
        None
    } else {
        next_skip(skip_at(nodes, j - 1), nodes[j - 1])
    }
}

/// The bytes the first `j` nodes emit.
pub open spec fn stream_upto(nodes: Seq<FlatNode>, j: int) -> Seq<u8>
    decreases j,
{
    if j <= 0 {
        Seq::empty()
    } else {
        stream_upto(nodes, j - 1) + emit(skip_at(nodes, j - 1), nodes[j - 1])
    }
}

/// The full token stream of a pre-order node listing.
pub open spec fn token_stream(nodes: Seq<FlatNode>) -> Seq<u8> {
    stream_upto(nodes, nodes.len() as int)
}

/// The normalization classes are disjoint: no identifier kind is a literal
/// kind, and neither is the comment kind.
proof fn lemma_kind_classes()
    ensures
        forall|k: Seq<char>| #[trigger] is_ident_kind(k) ==> !is_literal_kind(k) && k != "comment"@,
        forall|k: Seq<char>| #[trigger] is_literal_kind(k) ==> !is_ident_kind(k) && k != "comment"@,
{
    reveal_strlit("identifier");
    reveal_strlit("field_identifier");
    reveal_strlit("type_identifier");
    reveal_strlit("string_literal");
    reveal_strlit("integer_literal");
    reveal_strlit("float_literal");
    reveal_strlit("boolean_literal");
    reveal_strlit("comment");
    assert("identifier"@.len() == 10);
    assert("field_identifier"@.len() == 16);
    assert("type_identifier"@.len() == 15);
    assert("string_literal"@.len() == 14);
    assert("integer_literal"@.len() == 15);
    assert("float_literal"@.len() == 13);
    assert("boolean_literal"@.len() == 15);
    assert("comment"@.len() == 7);
    assert("type_identifier"@ != "integer_literal"@) by {
        assert("type_identifier"@[0] == 't');
        assert("integer_literal"@[0] == 'i');
    }
    assert("type_identifier"@ != "boolean_literal"@) by {
        assert("type_identifier"@[0] == 't');
        assert("boolean_literal"@[0] == 'b');
    }
}

/// The hex digest blake3 assigns to a byte sequence.
pub uninterp spec fn blake3_hex_of(data: Seq<u8>) -> Seq<char>;

/// Relies on blake3::Hasher (update, finalize) and Hash::to_hex: the digest
/// is a function of the input bytes alone, rendered as 64 hex characters.
#[verifier::external_body]
fn blake3_hex(data: &Vec<u8>) -> (r: String)
    ensures
        r@ == blake3_hex_of(data@),
        r@.len() == 64,
{
    let mut hasher = blake3::Hasher::new();
    hasher.update(data.as_slice());
    hasher.finalize().to_hex().as_str().to_owned()
}

pub struct StructuralFingerprinter;

impl StructuralFingerprinter {
    /// The structural hash of the subtree listed in `nodes[start..end]`: the
    /// blake3 digest of its normalization token stream.
    pub fn compute(nodes: &Vec<FlatNode>, start: usize, end: usize) -> (r: String)
        requires
            start <= end <= nodes@.len(),
        ensures
            r@ == blake3_hex_of(token_stream(nodes@.subrange(start as int, end as int))),
            r@.len() == 64,
    {
        let ghost sub = nodes@.subrange(start as int, end as int);
        let mut acc: Vec<u8> = Vec::new();
        let mut skip: Option<usize> = None;
        let mut j: usize = start;
        while j < end
            invariant
                start <= j <= end <= nodes@.len(),
                sub == nodes@.subrange(start as int, end as int),
                skip == skip_at(sub, j - start),
                acc@ == stream_upto(sub, j - start),
            decreases end - j,
        {
            let n = &nodes[j];
            proof {
                assert(sub[j - start] == nodes@[j as int]);
            }
            let skipped = match skip {
                Some(d) => n.depth > d,
                None => false,
            };
            if skipped {
                // Inside an open comment subtree: emit nothing, stay skipping.
            } else if n.named && str_eq(n.kind.as_str(), "comment") {
                skip = Some(n.depth);
            } else {
                skip = None;
                if !n.named {
                    append_bytes(&mut acc, n.kind.as_str().as_bytes());
                } else if str_eq(n.kind.as_str(), "identifier") || str_eq(
                    n.kind.as_str(),
                    "field_identifier",
                ) || str_eq(n.kind.as_str(), "type_identifier") {
                    append_bytes(&mut acc, "|ID|".as_bytes());
                } else if str_eq(n.kind.as_str(), "string_literal") || str_eq(
                    n.kind.as_str(),
                    "integer_literal",
                ) || str_eq(n.kind.as_str(), "float_literal") || str_eq(
                    n.kind.as_str(),
                    "boolean_literal",
                ) {
                    append_bytes(&mut acc, "|LIT|".as_bytes());
                } else {
                    append_bytes(&mut acc, n.kind.as_str().as_bytes());
                }
            }
            proof {
                lemma_kind_classes();
                let jj = j - start;
                assert(skip_at(sub, jj + 1) == next_skip(skip_at(sub, jj), sub[jj]));
                assert(stream_upto(sub, jj + 1) == stream_upto(sub, jj) + emit(
                    skip_at(sub, jj),
                    sub[jj],
                ));
                assert(acc@ =~= stream_upto(sub, jj + 1));
            }
            j = j + 1;
        }
        blake3_hex(&acc)
    }
}


/// Two nodes of the same shape: same namedness, same depth, and kinds that
/// are equal or fall in the same normalization class. Renaming identifiers,
/// changing literal values, or swapping one literal kind for another moves
/// byte offsets and text but relates the node listings pointwise like this.
pub open spec fn shape_eq(a: FlatNode, b: FlatNode) -> bool {
    &&& a.named == b.named
    &&& a.depth == b.depth
    &&& (a.kind@ == b.kind@ || (a.named && is_literal_kind(a.kind@) && is_literal_kind(b.kind@))
        || (a.named && is_ident_kind(a.kind@) && is_ident_kind(b.kind@)))
}

proof fn lemma_upto_shape(a: Seq<FlatNode>, b: Seq<FlatNode>, j: int)
    requires
        a.len() == b.len(),
        forall|i: int| 0 <= i < a.len() ==> shape_eq(#[trigger] a[i], b[i]),
        j <= a.len(),
    ensures
        skip_at(a, j) == skip_at(b, j),
        stream_upto(a, j) == stream_upto(b, j),
    decreases j,
{
    if j <= 0 {
    } else {
        lemma_upto_shape(a, b, j - 1);
        lemma_kind_classes();
        assert(shape_eq(a[j - 1], b[j - 1]));
        assert(node_token(a[j - 1]) == node_token(b[j - 1]));
        assert(is_comment_node(a[j - 1]) == is_comment_node(b[j - 1]));
    }
}

/// Fingerprint rename and literal invariance: two node listings that agree
/// pointwise in shape — as a bijective rename of identifiers or a change of
/// literal values produces, since those alter only text and byte offsets —
/// emit the same token stream, and so carry the same structural hash.
pub proof fn lemma_fingerprint_shape_invariant(a: Seq<FlatNode>, b: Seq<FlatNode>)
    requires
        a.len() == b.len(),
        forall|i: int| 0 <= i < a.len() ==> shape_eq(#[trigger] a[i], b[i]),
    ensures
        token_stream(a) == token_stream(b),
        blake3_hex_of(token_stream(a)) == blake3_hex_of(token_stream(b)),
{
    lemma_upto_shape(a, b, a.len() as int);
}

/// A non-empty character sequence encodes to at least one byte.
proof fn lemma_encode_utf8_nonempty(s: Seq<char>)
    requires
        s.len() > 0,
    ensures
        encode_utf8(s).len() > 0,
{
    assert(encode_utf8(s) == vstd::utf8::encode_scalar(s[0] as u32) + encode_utf8(s.drop_first()));
    assert(vstd::utf8::encode_scalar(s[0] as u32).len() >= 1);
}

proof fn lemma_insert_prefix(nodes: Seq<FlatNode>, tok: FlatNode, k: int, j: int)
    requires
        0 <= k <= nodes.len(),
        0 <= j <= k,
    ensures
        skip_at(nodes.take(k) + seq![tok] + nodes.skip(k), j) == skip_at(nodes, j),
        stream_upto(nodes.take(k) + seq![tok] + nodes.skip(k), j) == stream_upto(nodes, j),
    decreases j,
{
    let ins = nodes.take(k) + seq![tok] + nodes.skip(k);
    if j <= 0 {
    } else {
        lemma_insert_prefix(nodes, tok, k, j - 1);
        assert(ins[j - 1] == nodes[j - 1]);
    }
}

proof fn lemma_insert_suffix(nodes: Seq<FlatNode>, tok: FlatNode, k: int, j: int)
    requires
        0 <= k <= j <= nodes.len(),
        skip_at(nodes, k) is None,
        !tok.named,
    ensures
        skip_at(nodes.take(k) + seq![tok] + nodes.skip(k), j + 1) == skip_at(nodes, j),
        stream_upto(nodes.take(k) + seq![tok] + nodes.skip(k), j + 1).len() == stream_upto(
            nodes,
            j,
        ).len() + node_token(tok).len(),
    decreases j - k,
{
    let ins = nodes.take(k) + seq![tok] + nodes.skip(k);
    if j == k {
        lemma_insert_prefix(nodes, tok, k, k);
        assert(ins[k] == tok);
        assert(skip_at(ins, k + 1) == next_skip(skip_at(nodes, k), tok));
        assert(next_skip(skip_at(nodes, k), tok) == skip_at(nodes, k));
        assert(stream_upto(ins, k + 1) == stream_upto(ins, k) + emit(skip_at(ins, k), ins[k]));
        assert(emit(skip_at(ins, k), ins[k]) == node_token(tok));
    } else {
        lemma_insert_suffix(nodes, tok, k, j - 1);
        assert(ins[j] == nodes[j - 1]);
        assert(skip_at(ins, j + 1) == next_skip(skip_at(ins, j), ins[j]));
        assert(skip_at(nodes, j) == next_skip(skip_at(nodes, j - 1), nodes[j - 1]));
        assert(stream_upto(ins, j + 1) == stream_upto(ins, j) + emit(skip_at(ins, j), ins[j]));
        assert(stream_upto(nodes, j) == stream_upto(nodes, j - 1) + emit(
            skip_at(nodes, j - 1),
            nodes[j - 1],
        ));
    }
}

/// Fingerprint sensitivity: inserting an anonymous token with a non-empty
/// kind, anywhere that is not inside a skipped comment subtree, changes the
/// token stream — the stream grows by the token's kind bytes — so the
/// structural hash changes unless the digest collides. Read with the two
/// listings swapped, the same holds of deleting such a token.
pub proof fn lemma_fingerprint_token_sensitive(nodes: Seq<FlatNode>, tok: FlatNode, k: int)
    requires
        0 <= k <= nodes.len(),
        !tok.named,
        tok.kind@.len() > 0,
        skip_at(nodes, k) is None,
    ensures
        token_stream(nodes.take(k) + seq![tok] + nodes.skip(k)) != token_stream(nodes),
{
    let ins = nodes.take(k) + seq![tok] + nodes.skip(k);
    assert(ins.len() == nodes.len() + 1);
    lemma_insert_suffix(nodes, tok, k, nodes.len() as int);
    assert(node_token(tok) == encode_utf8(tok.kind@));
    lemma_encode_utf8_nonempty(tok.kind@);
    assert(token_stream(ins).len() == token_stream(nodes).len() + node_token(tok).len());
}

/// The deletion reading of token sensitivity: removing an anonymous token
/// with a non-empty kind, at a position that is not inside a skipped comment
/// subtree, changes the token stream.
pub proof fn lemma_fingerprint_token_sensitive_delete(nodes: Seq<FlatNode>, k: int)
    requires
        0 <= k < nodes.len(),
        !nodes[k].named,
        nodes[k].kind@.len() > 0,
        skip_at(nodes, k) is None,
    ensures
        token_stream(nodes) != token_stream(nodes.remove(k)),
{
    let rest = nodes.remove(k);
    assert(rest =~= nodes.take(k) + nodes.skip(k + 1));
    assert(rest.take(k) =~= nodes.take(k));
    lemma_skip_prefix_agree(nodes, rest, k);
    assert(rest.take(k) + seq![nodes[k]] + rest.skip(k) =~= nodes);
    lemma_fingerprint_token_sensitive(rest, nodes[k], k);
}

/// The skipping state and the stream before `j` depend only on the entries
/// before `j`.
proof fn lemma_skip_prefix_agree(a: Seq<FlatNode>, b: Seq<FlatNode>, j: int)
    requires
        0 <= j <= a.len(),
        j <= b.len(),
        forall|i: int| 0 <= i < j ==> a[i] == b[i],
    ensures
        skip_at(a, j) == skip_at(b, j),
        stream_upto(a, j) == stream_upto(b, j),
    decreases j,
{
    if j > 0 {
        lemma_skip_prefix_agree(a, b, j - 1);
    }
}


/// Processing a comment's whole subtree emits nothing: after `t` of its
/// entries, the stream is unchanged and the comment is still open.
proof fn lemma_comment_block(nodes: Seq<FlatNode>, cmt: Seq<FlatNode>, k: int, t: int)
    requires
        0 <= k <= nodes.len(),
        skip_at(nodes, k) is None,
        cmt.len() > 0,
        is_comment_node(cmt[0]),
        forall|m: int| 1 <= m < cmt.len() ==> (#[trigger] cmt[m]).depth > cmt[0].depth,
        1 <= t <= cmt.len(),
    ensures
        skip_at(nodes.take(k) + cmt + nodes.skip(k), k + t) == Some(cmt[0].depth),
        stream_upto(nodes.take(k) + cmt + nodes.skip(k), k + t) == stream_upto(nodes, k),
    decreases t,
{
    let ins = nodes.take(k) + cmt + nodes.skip(k);
    lemma_kind_classes();
    if t == 1 {
        lemma_skip_prefix_agree(ins, nodes, k);
        assert(ins[k] == cmt[0]);
        assert(skip_at(ins, k + 1) == next_skip(skip_at(ins, k), cmt[0]));
        assert(node_token(cmt[0]) =~= Seq::<u8>::empty());
        assert(stream_upto(ins, k + 1) == stream_upto(ins, k) + emit(skip_at(ins, k), cmt[0]));
        assert(stream_upto(ins, k) + Seq::<u8>::empty() =~= stream_upto(ins, k));
    } else {
        lemma_comment_block(nodes, cmt, k, t - 1);
        assert(ins[k + t - 1] == cmt[t - 1]);
        assert(cmt[t - 1].depth > cmt[0].depth);
        assert(skip_at(ins, k + t) == next_skip(skip_at(ins, k + t - 1), cmt[t - 1]));
        assert(stream_upto(ins, k + t) == stream_upto(ins, k + t - 1) + emit(
            skip_at(ins, k + t - 1),
            cmt[t - 1],
        ));
        assert(stream_upto(ins, k + t - 1) + Seq::<u8>::empty() =~= stream_upto(ins, k + t - 1));
    }
}

/// After the comment block, the rest of the listing emits exactly what it
/// emitted without it.
proof fn lemma_comment_suffix(nodes: Seq<FlatNode>, cmt: Seq<FlatNode>, k: int, j: int)
    requires
        0 <= k <= j <= nodes.len(),
        skip_at(nodes, k) is None,
        cmt.len() > 0,
        is_comment_node(cmt[0]),
        forall|m: int| 1 <= m < cmt.len() ==> (#[trigger] cmt[m]).depth > cmt[0].depth,
        k < nodes.len() ==> nodes[k].depth <= cmt[0].depth,
    ensures
        stream_upto(nodes.take(k) + cmt + nodes.skip(k), j + cmt.len()) == stream_upto(nodes, j),
        j == k ==> skip_at(nodes.take(k) + cmt + nodes.skip(k), j + cmt.len()) == Some(
            cmt[0].depth,
        ),
        j > k ==> skip_at(nodes.take(k) + cmt + nodes.skip(k), j + cmt.len()) == skip_at(nodes, j),
    decreases j - k,
{
    let ins = nodes.take(k) + cmt + nodes.skip(k);
    if j == k {
        lemma_comment_block(nodes, cmt, k, cmt.len() as int);
    } else {
        lemma_comment_suffix(nodes, cmt, k, j - 1);
        assert(ins[j - 1 + cmt.len()] == nodes[j - 1]);
        assert(skip_at(ins, j + cmt.len()) == next_skip(
            skip_at(ins, j - 1 + cmt.len()),
            nodes[j - 1],
        ));
        assert(skip_at(nodes, j) == next_skip(skip_at(nodes, j - 1), nodes[j - 1]));
        assert(stream_upto(ins, j + cmt.len()) == stream_upto(ins, j - 1 + cmt.len()) + emit(
            skip_at(ins, j - 1 + cmt.len()),
            nodes[j - 1],
        ));
        assert(stream_upto(nodes, j) == stream_upto(nodes, j - 1) + emit(
            skip_at(nodes, j - 1),
            nodes[j - 1],
        ));
        if j - 1 == k {
            // The comment is still open on one side and closed on the other,
            // but this node sits at or above the comment's depth, so both
            // sides emit its token and land in the same skipping state.
            assert(nodes[j - 1].depth <= cmt[0].depth);
            assert(emit(skip_at(ins, j - 1 + cmt.len()), nodes[j - 1]) == node_token(nodes[j - 1]));
            assert(emit(skip_at(nodes, j - 1), nodes[j - 1]) == node_token(nodes[j - 1]));
        }
    }
}

/// Fingerprint comment invariance: inserting a whole comment subtree — a
/// comment node followed by its deeper entries — at a position that is not
/// itself inside a skipped comment subtree, and whose following node does
/// not sit below the comment, leaves the token stream and so the structural
/// hash unchanged. Read with the listings swapped, removing such a comment
/// changes nothing either.
pub proof fn lemma_fingerprint_comment_invariant(nodes: Seq<FlatNode>, cmt: Seq<FlatNode>, k: int)
    requires
        0 <= k <= nodes.len(),
        skip_at(nodes, k) is None,
        cmt.len() > 0,
        is_comment_node(cmt[0]),
        forall|m: int| 1 <= m < cmt.len() ==> (#[trigger] cmt[m]).depth > cmt[0].depth,
        k < nodes.len() ==> nodes[k].depth <= cmt[0].depth,
    ensures
        token_stream(nodes.take(k) + cmt + nodes.skip(k)) == token_stream(nodes),
        blake3_hex_of(token_stream(nodes.take(k) + cmt + nodes.skip(k))) == blake3_hex_of(
            token_stream(nodes),
        ),
{
    let ins = nodes.take(k) + cmt + nodes.skip(k);
    assert(ins.len() == nodes.len() + cmt.len());
    lemma_comment_suffix(nodes, cmt, k, nodes.len() as int);
}

} // verus!
