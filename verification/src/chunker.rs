//! Hybrid semantic/content-defined chunking: splits a byte buffer into
//! variable-size chunks, preferring top-level syntactic boundaries and
//! falling back to content-defined chunking (CDC) for oversized or
//! unparseable regions. Every path tiles the input exactly.

use vstd::prelude::*;

use crate::grammar::{grammar_of, parser_new, parser_parse, parser_set_language, tree_to_flat};
use crate::registry::get_language_info;
use crate::strutil::copy_range;
use crate::syntax::FlatNode;

verus! {

pub const MIN_CHUNK_SIZE: usize = 4096;

pub const AVG_CHUNK_SIZE: usize = 16384;

pub const MAX_CHUNK_SIZE: usize = 65536;

/// A contiguous byte window of the input buffer.
pub struct Chunk {
    pub offset: usize,
    pub length: usize,
    pub data: Vec<u8>,
}

/// The chunk is a faithful window of `content`.
pub open spec fn chunk_wf(c: Chunk, content: Seq<u8>) -> bool {
    &&& c.offset + c.length <= content.len()
    &&& c.data@.len() == c.length
    &&& c.data@ == content.subrange(c.offset as int, c.offset + c.length)
}

/// The chunks tile `content[from..to]`: the first starts at `from`, each
/// starts where its predecessor ends, the last ends at `to`, and each
/// carries exactly the bytes of its window.
pub open spec fn chunks_tile(cs: Seq<Chunk>, content: Seq<u8>, from: int, to: int) -> bool {
    &&& (cs.len() == 0 ==> from == to)
    &&& (cs.len() > 0 ==> cs[0].offset == from && cs.last().offset + cs.last().length == to)
    &&& forall|i: int|
        0 <= i < cs.len() - 1 ==> (#[trigger] cs[i]).offset + cs[i].length == cs[i + 1].offset
    &&& forall|i: int| 0 <= i < cs.len() ==> chunk_wf(#[trigger] cs[i], content)
}

/// The bytes of all chunks, in order.
pub open spec fn concat_data(cs: Seq<Chunk>) -> Seq<u8>
    decreases cs.len(),
{
    if cs.len() == 0 {
        Seq::empty()
    } else {
        concat_data(cs.drop_last()) + cs.last().data@
    }
}

/// Chunk tiling reproduces the input: the concatenation of the data of
/// chunks tiling `content[from..to]` is exactly that window, so tiling the
/// whole buffer reproduces it byte for byte.
#[verifier::rlimit(100)]
#[verifier::spinoff_prover]
pub proof fn lemma_tiling_concat(cs: Seq<Chunk>, content: Seq<u8>, from: int, to: int)
    requires
        chunks_tile(cs, content, from, to),
        0 <= from <= to <= content.len(),
    ensures
        concat_data(cs) == content.subrange(from, to),
    decreases cs.len(),
{
    if cs.len() == 0 {
        assert(content.subrange(from, from) =~= Seq::<u8>::empty());
    } else {
        let pre = cs.drop_last();
        let last = cs.last();
        let mid = last.offset as int;
        assert(chunk_wf(cs[cs.len() - 1], content));
        assert(from <= mid <= to) by {
            if cs.len() > 1 {
                assert(chunk_wf(cs[0], content));
                assert(cs[cs.len() - 2].offset + cs[cs.len() - 2].length == cs[cs.len() - 1].offset);
                lemma_offsets_mono(cs, content, from, to, 0, cs.len() - 1);
            }
        }
        assert(chunks_tile(pre, content, from, mid)) by {
            assert forall|i: int| 0 <= i < pre.len() implies chunk_wf(#[trigger] pre[i], content) by {
                assert(pre[i] == cs[i]);
            }
            assert forall|i: int|
                0 <= i < pre.len() - 1 implies (#[trigger] pre[i]).offset + pre[i].length == pre[i
                + 1].offset by {
                assert(pre[i] == cs[i]);
                assert(pre[i + 1] == cs[i + 1]);
            }
            if pre.len() > 0 {
                assert(pre[0] == cs[0]);
                assert(pre.last() == cs[cs.len() - 2]);
                assert(cs[cs.len() - 2].offset + cs[cs.len() - 2].length == cs[cs.len() - 1].offset);
            }
        }
        lemma_tiling_concat(pre, content, from, mid);
        assert(last.data@ == content.subrange(mid, to));
        assert(content.subrange(from, mid) + content.subrange(mid, to) =~= content.subrange(
            from,
            to,
        ));
    }
}

/// Chunks that tile the whole buffer reproduce it exactly: concatenating
/// their data gives back the input, byte for byte.
pub proof fn lemma_chunks_reproduce_input(cs: Seq<Chunk>, content: Seq<u8>)
    requires
        chunks_tile(cs, content, 0, content.len() as int),
    ensures
        concat_data(cs) == content,
{
    lemma_tiling_concat(cs, content, 0, content.len() as int);
    assert(content.subrange(0, content.len() as int) =~= content);
}

/// Offsets of a tiling never decrease.
proof fn lemma_offsets_mono(cs: Seq<Chunk>, content: Seq<u8>, from: int, to: int, i: int, j: int)
    requires
        chunks_tile(cs, content, from, to),
        0 <= i <= j < cs.len(),
    ensures
        cs[i].offset <= cs[j].offset,
    decreases j - i,
{
    if i < j {
        lemma_offsets_mono(cs, content, from, to, i + 1, j);
        assert(cs[i].offset + cs[i].length == cs[i + 1].offset);
    }
}

/// Appending a chunk that starts where the tiling ends extends the tiling.
proof fn lemma_tile_push(cs: Seq<Chunk>, content: Seq<u8>, from: int, mid: int, c: Chunk)
    requires
        chunks_tile(cs, content, from, mid),
        c.offset == mid,
        chunk_wf(c, content),
    ensures
        chunks_tile(cs.push(c), content, from, c.offset + c.length),
{
    let cs2 = cs.push(c);
    assert(cs2.last() == c);
    assert forall|i: int| 0 <= i < cs2.len() implies chunk_wf(#[trigger] cs2[i], content) by {
        if i < cs.len() {
            assert(cs2[i] == cs[i]);
        }
    }
    assert forall|i: int|
        0 <= i < cs2.len() - 1 implies (#[trigger] cs2[i]).offset + cs2[i].length == cs2[i
        + 1].offset by {
        assert(cs2[i] == cs[i]);
        if i < cs.len() - 1 {
            assert(cs2[i + 1] == cs[i + 1]);
        } else {
            assert(cs[i] == cs.last());
            assert(cs2[i + 1] == c);
        }
    }
    if cs.len() > 0 {
        assert(cs2[0] == cs[0]);
    }
}

/// Two adjacent tilings join into one.
proof fn lemma_tile_join(a: Seq<Chunk>, b: Seq<Chunk>, content: Seq<u8>, from: int, mid: int, to: int)
    requires
        chunks_tile(a, content, from, mid),
        chunks_tile(b, content, mid, to),
    ensures
        chunks_tile(a + b, content, from, to),
{
    let ab = a + b;
    assert forall|i: int| 0 <= i < ab.len() implies chunk_wf(#[trigger] ab[i], content) by {
        if i < a.len() {
            assert(ab[i] == a[i]);
        } else {
            assert(ab[i] == b[i - a.len()]);
        }
    }
    assert forall|i: int|
        0 <= i < ab.len() - 1 implies (#[trigger] ab[i]).offset + ab[i].length == ab[i + 1].offset by {
        if i < a.len() - 1 {
            assert(ab[i] == a[i] && ab[i + 1] == a[i + 1]);
        } else if i == a.len() - 1 {
            assert(ab[i] == a.last());
            if b.len() > 0 {
                assert(ab[i + 1] == b[0]);
            }
        } else {
            assert(ab[i] == b[i - a.len()] && ab[i + 1] == b[i + 1 - a.len()]);
        }
    }
    if ab.len() > 0 {
        if a.len() > 0 {
            assert(ab[0] == a[0]);
            if b.len() > 0 {
                assert(ab.last() == b.last());
            } else {
                assert(ab.last() == a.last());
            }
        } else {
            assert(ab =~= b);
        }
    }
}

/// Removing the final chunk of a tiling leaves a tiling up to its start.
proof fn lemma_tile_drop_last(cs: Seq<Chunk>, content: Seq<u8>, from: int, to: int)
    requires
        chunks_tile(cs, content, from, to),
        cs.len() > 0,
    ensures
        chunks_tile(cs.drop_last(), content, from, cs.last().offset as int),
{
    let pre = cs.drop_last();
    assert forall|i: int| 0 <= i < pre.len() implies chunk_wf(#[trigger] pre[i], content) by {
        assert(pre[i] == cs[i]);
    }
    assert forall|i: int|
        0 <= i < pre.len() - 1 implies (#[trigger] pre[i]).offset + pre[i].length == pre[i
        + 1].offset by {
        assert(pre[i] == cs[i]);
        assert(pre[i + 1] == cs[i + 1]);
    }
    if pre.len() > 0 {
        assert(pre[0] == cs[0]);
        assert(pre.last() == cs[cs.len() - 2]);
        assert(cs[cs.len() - 2].offset + cs[cs.len() - 2].length == cs[cs.len() - 1].offset);
    }
}

/// Cut points over a buffer of length `len`: offsets start at zero, chain,
/// and end at `len`.
pub open spec fn cuts_tile(cuts: Seq<(usize, usize)>, len: int) -> bool {
    &&& (cuts.len() == 0 ==> len == 0)
    &&& (cuts.len() > 0 ==> cuts[0].0 == 0 && cuts.last().0 + cuts.last().1 == len)
    &&& forall|i: int|
        0 <= i < cuts.len() - 1 ==> (#[trigger] cuts[i]).0 + cuts[i].1 == cuts[i + 1].0
}

/// Every cut ends within the buffer.
proof fn lemma_cut_end_le(cuts: Seq<(usize, usize)>, len: int, i: int)
    requires
        cuts_tile(cuts, len),
        0 <= i < cuts.len(),
    ensures
        cuts[i].0 + cuts[i].1 <= len,
    decreases cuts.len() - i,
{
    if i == cuts.len() - 1 {
    } else {
        lemma_cut_end_le(cuts, len, i + 1);
    }
}

/// The cut points FastCDC assigns to a buffer under the given size bounds:
/// a function of its arguments alone, the same on every machine.
pub uninterp spec fn cdc_cuts(data: Seq<u8>, min_size: usize, avg_size: usize, max_size: usize) -> Seq<(usize, usize)>;

/// Relies on `fastcdc::v2020::FastCDC`: iterating it yields chunks whose
/// offsets start at zero and chain gap-free to the end of the buffer, whose
/// lengths never exceed `max_size`, and of which only the final one may be
/// shorter than `min_size`. The cuts depend only on the buffer and the three
/// size parameters, so they carry the name `cdc_cuts`. The bounds on the
/// sizes are the crate's own limits on its parameters.
#[verifier::external_body]
fn cdc_cut_points(data: &Vec<u8>, min_size: usize, avg_size: usize, max_size: usize) -> (r: Vec<
    (usize, usize),
>)
    requires
        64 <= min_size <= 1048576,
        min_size <= avg_size,
        256 <= avg_size <= 4194304,
        avg_size <= max_size,
        1024 <= max_size <= 16777216,
        min_size % 2 == 0,
        avg_size % 2 == 0,
        max_size % 2 == 0,
    ensures
        r@ == cdc_cuts(data@, min_size, avg_size, max_size),
        cuts_tile(r@, data@.len() as int),
        forall|i: int| 0 <= i < r@.len() ==> 1 <= (#[trigger] r@[i]).1 <= max_size,
        forall|i: int| 0 <= i < r@.len() - 1 ==> min_size <= (#[trigger] r@[i]).1,
{
    let mut out: Vec<(usize, usize)> = Vec::new();
    for c in fastcdc::v2020::FastCDC::new(data.as_slice(), min_size, avg_size, max_size) {
        out.push((c.offset, c.length));
    }
    out
}

/// Candidate boundary ranges handed to the semantic path: each is a valid
/// window of the buffer and they are ordered without overlap.
pub open spec fn ranges_ok(ranges: Seq<(usize, usize)>, len: int) -> bool {
    &&& forall|i: int| 0 <= i < ranges.len() ==> (#[trigger] ranges[i]).0 <= ranges[i].1 <= len
    &&& forall|i: int| 0 <= i < ranges.len() - 1 ==> (#[trigger] ranges[i]).1 <= ranges[i + 1].0
}

/// The gaps between consecutive ranges (and before the first) are small
/// enough that a pre-flush never exceeds `MAX_CHUNK_SIZE`.
pub open spec fn gaps_ok(ranges: Seq<(usize, usize)>) -> bool {
    &&& (ranges.len() > 0 ==> ranges[0].0 <= MAX_CHUNK_SIZE - AVG_CHUNK_SIZE)
    &&& forall|i: int|
        0 <= i < ranges.len() - 1 ==> ranges[i + 1].0 - (#[trigger] ranges[i]).1
            <= MAX_CHUNK_SIZE - AVG_CHUNK_SIZE
}

/// Where a semantic-path cut may fall: at the buffer start, at a boundary
/// of one of the top-level ranges, or at a content-defined cut point of some
/// window of the buffer.
pub open spec fn cut_provenance(off: int, ranges: Seq<(usize, usize)>, content: Seq<u8>) -> bool {
    ||| off == 0
    ||| exists|i: int|
        0 <= i < ranges.len() && ((#[trigger] ranges[i]).0 == off || ranges[i].1 == off)
    ||| exists|w0: int, w1: int|
        #![trigger content.subrange(w0, w1)]
        {
            &&& 0 <= w0 <= w1 <= content.len()
            &&& exists|q: int|
                0 <= q < cdc_cuts(
                    content.subrange(w0, w1),
                    MIN_CHUNK_SIZE,
                    AVG_CHUNK_SIZE,
                    MAX_CHUNK_SIZE,
                ).len() && off == w0 + (#[trigger] cdc_cuts(
                    content.subrange(w0, w1),
                    MIN_CHUNK_SIZE,
                    AVG_CHUNK_SIZE,
                    MAX_CHUNK_SIZE,
                )[q]).0
        }
}

pub struct SemanticChunker;

impl SemanticChunker {
    /// Content-defined chunking of `content[start..end]`, reported at global
    /// offsets: the result tiles the window, every chunk is at most
    /// `MAX_CHUNK_SIZE` long, and all but the final one are at least
    /// `MIN_CHUNK_SIZE` long.
    fn chunk_fastcdc_offset(content: &Vec<u8>, start: usize, end: usize) -> (r: Vec<Chunk>)
        requires
            start <= end <= content@.len(),
        ensures
            chunks_tile(r@, content@, start as int, end as int),
            forall|i: int| 0 <= i < r@.len() ==> (#[trigger] r@[i]).length <= MAX_CHUNK_SIZE,
            forall|i: int|
                0 <= i < r@.len() - 1 ==> MIN_CHUNK_SIZE <= (#[trigger] r@[i]).length,
            r@.len() == cdc_cuts(
                content@.subrange(start as int, end as int),
                MIN_CHUNK_SIZE,
                AVG_CHUNK_SIZE,
                MAX_CHUNK_SIZE,
            ).len(),
            forall|i: int| 0 <= i < r@.len() ==> (#[trigger] r@[i]).offset == start + cdc_cuts(
                content@.subrange(start as int, end as int),
                MIN_CHUNK_SIZE,
                AVG_CHUNK_SIZE,
                MAX_CHUNK_SIZE,
            )[i].0 && r@[i].length == cdc_cuts(
                content@.subrange(start as int, end as int),
                MIN_CHUNK_SIZE,
                AVG_CHUNK_SIZE,
                MAX_CHUNK_SIZE,
            )[i].1,
    {
        let block = copy_range(content, start, end);
        let cuts = cdc_cut_points(&block, MIN_CHUNK_SIZE, AVG_CHUNK_SIZE, MAX_CHUNK_SIZE);
        let ghost blen = block@.len() as int;
        let mut r: Vec<Chunk> = Vec::new();
        let mut i: usize = 0;
        while i < cuts.len()
            invariant
                start <= end <= content@.len(),
                blen == end - start,
                cuts_tile(cuts@, blen),
                forall|k: int| 0 <= k < cuts@.len() ==> 1 <= (#[trigger] cuts@[k]).1 <= MAX_CHUNK_SIZE,
                forall|k: int| 0 <= k < cuts@.len() - 1 ==> MIN_CHUNK_SIZE <= (#[trigger] cuts@[k]).1,
                i <= cuts@.len(),
                r@.len() == i,
                forall|k: int| 0 <= k < i ==> (#[trigger] r@[k]).offset == start + cuts@[k].0
                    && r@[k].length == cuts@[k].1 && chunk_wf(r@[k], content@),
            decreases cuts@.len() - i,
        {
            let (off, len) = cuts[i];
            proof {
                lemma_cut_end_le(cuts@, blen, i as int);
            }
            let data = copy_range(content, start + off, start + off + len);
            let c = Chunk { offset: start + off, length: len, data };
            r.push(c);
            i = i + 1;
        }
        proof {
            if cuts@.len() == 0 {
                assert(chunks_tile(r@, content@, start as int, end as int));
            } else {
                assert(r@[0].offset == start + cuts@[0].0);
                assert(r@.last().offset + r@.last().length == start + cuts@.last().0
                    + cuts@.last().1);
                assert forall|k: int| 0 <= k < r@.len() - 1 implies (#[trigger] r@[k]).offset
                    + r@[k].length == r@[k + 1].offset by {
                    assert(cuts@[k].0 + cuts@[k].1 == cuts@[k + 1].0);
                }
            }
        }
        r
    }

    /// Pure content-defined chunking of the whole buffer.
    pub fn chunk_fastcdc(content: &Vec<u8>) -> (r: Vec<Chunk>)
        ensures
            chunks_tile(r@, content@, 0, content@.len() as int),
            forall|i: int| 0 <= i < r@.len() ==> (#[trigger] r@[i]).length <= MAX_CHUNK_SIZE,
            forall|i: int|
                0 <= i < r@.len() - 1 ==> MIN_CHUNK_SIZE <= (#[trigger] r@[i]).length,
            r@.len() == cdc_cuts(content@, MIN_CHUNK_SIZE, AVG_CHUNK_SIZE, MAX_CHUNK_SIZE).len(),
            forall|i: int| 0 <= i < r@.len() ==> (#[trigger] r@[i]).offset == cdc_cuts(
                content@,
                MIN_CHUNK_SIZE,
                AVG_CHUNK_SIZE,
                MAX_CHUNK_SIZE,
            )[i].0 && r@[i].length == cdc_cuts(
                content@,
                MIN_CHUNK_SIZE,
                AVG_CHUNK_SIZE,
                MAX_CHUNK_SIZE,
            )[i].1,
    {
        let r = Self::chunk_fastcdc_offset(content, 0, content.len());
        proof {
            assert(content@.subrange(0, content@.len() as int) =~= content@);
        }
        r
    }

    /// The "smart range" rule: a window longer than `MAX_CHUNK_SIZE` is cut
    /// by CDC, a shorter one becomes a single chunk.
    fn chunk_range_smart(content: &Vec<u8>, start: usize, end: usize) -> (r: Vec<Chunk>)
        requires
            start <= end <= content@.len(),
        ensures
            chunks_tile(r@, content@, start as int, end as int),
            forall|i: int| 0 <= i < r@.len() ==> (#[trigger] r@[i]).length <= MAX_CHUNK_SIZE,
            forall|i: int|
                0 <= i < r@.len() - 1 ==> MIN_CHUNK_SIZE <= (#[trigger] r@[i]).length,
            end - start <= MAX_CHUNK_SIZE ==> r@.len() == 1,
            end - start > MAX_CHUNK_SIZE ==> r@.len() == cdc_cuts(
                content@.subrange(start as int, end as int),
                MIN_CHUNK_SIZE,
                AVG_CHUNK_SIZE,
                MAX_CHUNK_SIZE,
            ).len() && forall|i: int|
                0 <= i < r@.len() ==> (#[trigger] r@[i]).offset == start + cdc_cuts(
                    content@.subrange(start as int, end as int),
                    MIN_CHUNK_SIZE,
                    AVG_CHUNK_SIZE,
                    MAX_CHUNK_SIZE,
                )[i].0,
    {
        if end - start > MAX_CHUNK_SIZE {
            Self::chunk_fastcdc_offset(content, start, end)
        } else {
            let data = copy_range(content, start, end);
            let c = Chunk { offset: start, length: end - start, data };
            let mut r: Vec<Chunk> = Vec::new();
            r.push(c);
            r
        }
    }

    /// A chunk covering `content[off..off+len]`.
    fn mk_chunk(content: &Vec<u8>, off: usize, len: usize) -> (c: Chunk)
        requires
            off + len <= content@.len(),
        ensures
            c.offset == off,
            c.length == len,
            chunk_wf(c, content@),
    {
        let n = content.len();
        assert(off + len <= n);
        Chunk { offset: off, length: len, data: copy_range(content, off, off + len) }
    }

    /// The pre-merge semantic pass: walks the top-level ranges, flushing at
    /// clean boundaries of at least `AVG_CHUNK_SIZE`, pre-flushing before a
    /// node that would overflow, and cutting oversized regions by CDC. The
    /// result tiles the whole buffer; when the gaps between ranges are small
    /// (`gaps_ok`), no chunk exceeds `MAX_CHUNK_SIZE`.
    #[verifier::rlimit(100)]
    #[verifier::spinoff_prover]
    fn semantic_cuts(content: &Vec<u8>, ranges: &Vec<(usize, usize)>) -> (r: Vec<Chunk>)
        requires
            ranges_ok(ranges@, content@.len() as int),
        ensures
            chunks_tile(r@, content@, 0, content@.len() as int),
            gaps_ok(ranges@) ==> forall|i: int|
                0 <= i < r@.len() ==> (#[trigger] r@[i]).length <= MAX_CHUNK_SIZE,
            forall|k: int|
                0 <= k < r@.len() ==> cut_provenance((#[trigger] r@[k]).offset as int, ranges@, content@),
    {
        let n = content.len();
        let mut chunks: Vec<Chunk> = Vec::new();
        let mut chunk_start: usize = 0;
        let mut i: usize = 0;
        while i < ranges.len()
            invariant
                ranges_ok(ranges@, content@.len() as int),
                n == content@.len(),
                i <= ranges@.len(),
                chunk_start <= n,
                i < ranges@.len() ==> chunk_start <= ranges@[i as int].0,
                i > 0 ==> chunk_start <= ranges@[i - 1].1 && ranges@[i - 1].1 - chunk_start
                    < AVG_CHUNK_SIZE,
                i == 0 ==> chunk_start == 0,
                chunks_tile(chunks@, content@, 0, chunk_start as int),
                gaps_ok(ranges@) ==> forall|k: int|
                    0 <= k < chunks@.len() ==> (#[trigger] chunks@[k]).length <= MAX_CHUNK_SIZE,
                cut_provenance(chunk_start as int, ranges@, content@),
                forall|k: int|
                    0 <= k < chunks@.len() ==> cut_provenance(
                        (#[trigger] chunks@[k]).offset as int,
                        ranges@,
                        content@,
                    ),
            decreases ranges@.len() - i,
        {
            let (node_start, node_end) = ranges[i];
            let ghost pre_chunks = chunks@;
            if node_end - chunk_start > MAX_CHUNK_SIZE {
                if node_start - chunk_start >= MIN_CHUNK_SIZE {
                    proof {
                        if gaps_ok(ranges@) {
                            if i > 0 {
                                assert(ranges@[i as int].0 - ranges@[i - 1].1 <= MAX_CHUNK_SIZE
                                    - AVG_CHUNK_SIZE);
                            }
                            assert(node_start - chunk_start <= MAX_CHUNK_SIZE);
                        }
                    }
                    let c = Self::mk_chunk(content, chunk_start, node_start - chunk_start);
                    proof {
                        lemma_tile_push(chunks@, content@, 0, chunk_start as int, c);
                    }
                    let ghost old_chunks = chunks@;
                    chunks.push(c);
                    proof {
                        if gaps_ok(ranges@) {
                            assert forall|k: int| 0 <= k < chunks@.len() implies (
                            #[trigger] chunks@[k]).length <= MAX_CHUNK_SIZE by {
                                if k < old_chunks.len() {
                                    assert(chunks@[k] == old_chunks[k]);
                                }
                            }
                        }
                        assert forall|k: int| 0 <= k < chunks@.len() implies cut_provenance(
                            (#[trigger] chunks@[k]).offset as int,
                            ranges@,
                            content@,
                        ) by {
                            if k < old_chunks.len() {
                                assert(chunks@[k] == old_chunks[k]);
                            } else {
                                assert(chunks@[k] == c);
                            }
                        }
                    }
                    chunk_start = node_start;
                    proof {
                        assert(cut_provenance(chunk_start as int, ranges@, content@)) by {
                            assert(0 <= i < ranges@.len() && ranges@[i as int].0
                                == chunk_start as int);
                        }
                    }
                }
                if node_end - chunk_start > MAX_CHUNK_SIZE {
                    let sub = Self::chunk_fastcdc_offset(content, chunk_start, node_end);
                    proof {
                        lemma_tile_join(
                            chunks@,
                            sub@,
                            content@,
                            0,
                            chunk_start as int,
                            node_end as int,
                        );
                    }
                    let ghost old_chunks = chunks@;
                    let ghost sub_view = sub@;
                    let mut sub = sub;
                    chunks.append(&mut sub);
                    proof {
                        assert(chunks@ == old_chunks + sub_view);
                        if gaps_ok(ranges@) {
                            assert forall|k: int| 0 <= k < chunks@.len() implies (
                            #[trigger] chunks@[k]).length <= MAX_CHUNK_SIZE by {
                                if k < old_chunks.len() {
                                    assert(chunks@[k] == old_chunks[k]);
                                } else {
                                    assert(chunks@[k] == sub_view[k - old_chunks.len()]);
                                }
                            }
                        }
                        assert forall|k: int| 0 <= k < chunks@.len() implies cut_provenance(
                            (#[trigger] chunks@[k]).offset as int,
                            ranges@,
                            content@,
                        ) by {
                            if k < old_chunks.len() {
                                assert(chunks@[k] == old_chunks[k]);
                            } else {
                                let q = k - old_chunks.len();
                                assert(chunks@[k] == sub_view[q]);
                                assert(sub_view[q].offset == chunk_start + cdc_cuts(
                                    content@.subrange(chunk_start as int, node_end as int),
                                    MIN_CHUNK_SIZE,
                                    AVG_CHUNK_SIZE,
                                    MAX_CHUNK_SIZE,
                                )[q].0);
                                assert(0 <= chunk_start as int <= node_end as int
                                    <= content@.len());
                            }
                        }
                    }
                    chunk_start = node_end;
                    proof {
                        assert(cut_provenance(chunk_start as int, ranges@, content@)) by {
                            assert(0 <= i < ranges@.len() && ranges@[i as int].1
                                == chunk_start as int);
                        }
                    }
                }
            }
            if node_end - chunk_start >= AVG_CHUNK_SIZE {
                let c = Self::mk_chunk(content, chunk_start, node_end - chunk_start);
                proof {
                    lemma_tile_push(chunks@, content@, 0, chunk_start as int, c);
                }
                let ghost old_chunks = chunks@;
                chunks.push(c);
                proof {
                    assert forall|k: int| 0 <= k < chunks@.len() implies (#[trigger] chunks@[
                    k]).length <= MAX_CHUNK_SIZE || !gaps_ok(ranges@) by {
                        if k < old_chunks.len() && gaps_ok(ranges@) {
                            assert(chunks@[k] == old_chunks[k]);
                        }
                    }
                    assert forall|k: int| 0 <= k < chunks@.len() implies cut_provenance(
                        (#[trigger] chunks@[k]).offset as int,
                        ranges@,
                        content@,
                    ) by {
                        if k < old_chunks.len() {
                            assert(chunks@[k] == old_chunks[k]);
                        } else {
                            assert(chunks@[k] == c);
                        }
                    }
                }
                chunk_start = node_end;
                proof {
                    assert(cut_provenance(chunk_start as int, ranges@, content@)) by {
                        assert(0 <= i < ranges@.len() && ranges@[i as int].1 == chunk_start as int);
                    }
                }
            }
            i = i + 1;
        }
        if chunk_start < n {
            if n - chunk_start > MAX_CHUNK_SIZE {
                let sub = Self::chunk_fastcdc_offset(content, chunk_start, n);
                proof {
                    lemma_tile_join(chunks@, sub@, content@, 0, chunk_start as int, n as int);
                }
                let ghost old_chunks = chunks@;
                let ghost sub_view = sub@;
                let mut sub = sub;
                chunks.append(&mut sub);
                proof {
                    assert(chunks@ == old_chunks + sub_view);
                    if gaps_ok(ranges@) {
                        assert forall|k: int| 0 <= k < chunks@.len() implies (#[trigger] chunks@[
                        k]).length <= MAX_CHUNK_SIZE by {
                            if k < old_chunks.len() {
                                assert(chunks@[k] == old_chunks[k]);
                            } else {
                                assert(chunks@[k] == sub_view[k - old_chunks.len()]);
                            }
                        }
                    }
                    assert forall|k: int| 0 <= k < chunks@.len() implies cut_provenance(
                        (#[trigger] chunks@[k]).offset as int,
                        ranges@,
                        content@,
                    ) by {
                        if k < old_chunks.len() {
                            assert(chunks@[k] == old_chunks[k]);
                        } else {
                            let q = k - old_chunks.len();
                            assert(chunks@[k] == sub_view[q]);
                            assert(sub_view[q].offset == chunk_start + cdc_cuts(
                                content@.subrange(chunk_start as int, n as int),
                                MIN_CHUNK_SIZE,
                                AVG_CHUNK_SIZE,
                                MAX_CHUNK_SIZE,
                            )[q].0);
                            assert(0 <= chunk_start as int <= n as int <= content@.len());
                        }
                    }
                }
            } else {
                let c = Self::mk_chunk(content, chunk_start, n - chunk_start);
                proof {
                    lemma_tile_push(chunks@, content@, 0, chunk_start as int, c);
                }
                let ghost old_chunks = chunks@;
                chunks.push(c);
                proof {
                    if gaps_ok(ranges@) {
                        assert forall|k: int| 0 <= k < chunks@.len() implies (#[trigger] chunks@[
                        k]).length <= MAX_CHUNK_SIZE by {
                            if k < old_chunks.len() {
                                assert(chunks@[k] == old_chunks[k]);
                            }
                        }
                    }
                    assert forall|k: int| 0 <= k < chunks@.len() implies cut_provenance(
                        (#[trigger] chunks@[k]).offset as int,
                        ranges@,
                        content@,
                    ) by {
                        if k < old_chunks.len() {
                            assert(chunks@[k] == old_chunks[k]);
                        } else {
                            assert(chunks@[k] == c);
                        }
                    }
                }
            }
        }
        chunks
    }

    /// The tiny-chunk merge pass: fuses each run of chunks shorter than
    /// `MIN_CHUNK_SIZE` into its successor, and finally fuses an undersized
    /// terminal chunk into its predecessor when their combined length stays
    /// within `MAX_CHUNK_SIZE + MIN_CHUNK_SIZE`. Tiling is preserved and
    /// afterwards only the terminal chunk may be shorter than
    /// `MIN_CHUNK_SIZE`.
    #[verifier::rlimit(100)]
    #[verifier::spinoff_prover]
    fn merge_tiny_chunks(
        input: Vec<Chunk>,
        content: &Vec<u8>,
        Ghost(from): Ghost<int>,
        Ghost(to): Ghost<int>,
    ) -> (r: Vec<Chunk>)
        requires
            chunks_tile(input@, content@, from, to),
            0 <= from <= to <= content@.len(),
        ensures
            chunks_tile(r@, content@, from, to),
            forall|i: int| 0 <= i < r@.len() - 1 ==> MIN_CHUNK_SIZE <= (#[trigger] r@[i]).length,
            r@.len() == 0 <==> input@.len() == 0,
            forall|k: int|
                0 <= k < r@.len() ==> exists|i: int|
                    0 <= i < input@.len() && (#[trigger] r@[k]).offset == input@[i].offset,
    {
        if input.len() == 0 {
            return input;
        }
        let n = content.len();
        let mut out: Vec<Chunk> = Vec::new();
        let mut cur_off = input[0].offset;
        let mut cur_len = input[0].length;
        let mut i: usize = 1;
        proof {
            assert(chunk_wf(input@[0], content@));
        }
        while i < input.len()
            invariant
                chunks_tile(input@, content@, from, to),
                0 <= from <= to <= content@.len(),
                1 <= i <= input@.len(),
                n == content@.len(),
                cur_off == if out@.len() == 0 { from } else {
                    out@.last().offset + out@.last().length
                },
                cur_off + cur_len == input@[i - 1].offset + input@[i - 1].length,
                cur_off + cur_len <= content@.len(),
                chunks_tile(out@, content@, from, cur_off as int),
                forall|k: int| 0 <= k < out@.len() ==> MIN_CHUNK_SIZE <= (#[trigger] out@[k]).length,
                exists|w: int| 0 <= w < input@.len() && cur_off == input@[w as int].offset,
                forall|k: int|
                    0 <= k < out@.len() ==> exists|w: int|
                        0 <= w < input@.len() && (#[trigger] out@[k]).offset == input@[w].offset,
            decreases input@.len() - i,
        {
            proof {
                assert(input@[i - 1].offset + input@[i - 1].length == input@[i as int].offset);
                assert(chunk_wf(input@[i as int], content@));
            }
            if cur_len < MIN_CHUNK_SIZE {
                proof {
                    assert(cur_off + cur_len + input@[i as int].length <= n);
                }
                cur_len = cur_len + input[i].length;
            } else {
                let c = Self::mk_chunk(content, cur_off, cur_len);
                proof {
                    lemma_tile_push(out@, content@, from, cur_off as int, c);
                }
                let ghost old_out = out@;
                out.push(c);
                proof {
                    assert forall|k: int| 0 <= k < out@.len() implies MIN_CHUNK_SIZE <= (
                    #[trigger] out@[k]).length by {
                        if k < old_out.len() {
                            assert(out@[k] == old_out[k]);
                        }
                    }
                    assert forall|k: int| 0 <= k < out@.len() implies exists|w: int|
                        0 <= w < input@.len() && (#[trigger] out@[k]).offset == input@[w].offset by {
                        if k < old_out.len() {
                            assert(out@[k] == old_out[k]);
                        } else {
                            assert(out@[k] == c);
                        }
                    }
                }
                cur_off = input[i].offset;
                cur_len = input[i].length;
                proof {
                    assert(cur_off == input@[i as int].offset);
                }
            }
            i = i + 1;
        }
        proof {
            assert(input@[input@.len() - 1] == input@.last());
        }
        let c = Self::mk_chunk(content, cur_off, cur_len);
        proof {
            lemma_tile_push(out@, content@, from, cur_off as int, c);
        }
        let ghost old_out = out@;
        out.push(c);
        proof {
            assert forall|k: int| 0 <= k < out@.len() - 1 implies MIN_CHUNK_SIZE <= (
            #[trigger] out@[k]).length by {
                assert(out@[k] == old_out[k]);
            }
            assert forall|k: int| 0 <= k < out@.len() implies exists|w: int|
                0 <= w < input@.len() && (#[trigger] out@[k]).offset == input@[w].offset by {
                if k < old_out.len() {
                    assert(out@[k] == old_out[k]);
                } else {
                    assert(out@[k] == c);
                }
            }
        }
        if out.len() > 1 {
            let last_idx = out.len() - 1;
            if out[last_idx].length < MIN_CHUNK_SIZE {
                let prev_len = out[last_idx - 1].length;
                let last_len = out[last_idx].length;
                proof {
                    assert(chunk_wf(out@[last_idx - 1], content@));
                    assert(chunk_wf(out@[last_idx as int], content@));
                    assert(out@[last_idx - 1].offset + out@[last_idx - 1].length == out@[
                        last_idx as int].offset);
                }
                if prev_len + last_len <= MAX_CHUNK_SIZE + MIN_CHUNK_SIZE {
                    let ghost out0 = out@;
                    let tail = match out.pop() {
                        Some(t) => t,
                        None => {
                            return out;
                        },
                    };
                    let prev = match out.pop() {
                        Some(p) => p,
                        None => {
                            return out;
                        },
                    };
                    proof {
                        lemma_tile_drop_last(out0, content@, from, to);
                        lemma_tile_drop_last(
                            out0.drop_last(),
                            content@,
                            from,
                            out0.last().offset as int,
                        );
                        assert(out@ =~= out0.drop_last().drop_last());
                    }
                    let c2 = Self::mk_chunk(content, prev.offset, prev.length + last_len);
                    proof {
                        lemma_tile_push(out@, content@, from, prev.offset as int, c2);
                    }
                    let ghost old_out2 = out@;
                    out.push(c2);
                    proof {
                        assert forall|k: int| 0 <= k < out@.len() - 1 implies MIN_CHUNK_SIZE <= (
                        #[trigger] out@[k]).length by {
                            assert(out@[k] == old_out2[k]);
                            assert(old_out2[k] == out0[k]);
                        }
                        assert forall|k: int| 0 <= k < out@.len() implies exists|w: int|
                            0 <= w < input@.len() && (#[trigger] out@[k]).offset == input@[
                            w].offset by {
                            if k < old_out2.len() {
                                assert(out@[k] == old_out2[k]);
                                assert(old_out2[k] == out0[k]);
                            } else {
                                assert(out@[k] == c2);
                                assert(c2.offset == out0[out0.len() - 2].offset);
                            }
                        }
                    }
                }
            }
        }
        out
    }

    /// Semantic chunking over the given top-level boundary ranges: the
    /// pre-merge pass followed by the tiny-chunk merge. The result tiles the
    /// buffer and all but the terminal chunk are at least `MIN_CHUNK_SIZE`
    /// long.
    pub fn chunk_semantic(content: &Vec<u8>, ranges: &Vec<(usize, usize)>) -> (r: Vec<Chunk>)
        requires
            ranges_ok(ranges@, content@.len() as int),
        ensures
            chunks_tile(r@, content@, 0, content@.len() as int),
            forall|i: int| 0 <= i < r@.len() - 1 ==> MIN_CHUNK_SIZE <= (#[trigger] r@[i]).length,
            ranges@.len() == 0 && content@.len() <= MAX_CHUNK_SIZE ==> r@.len() == 1,
            forall|k: int|
                0 <= k < r@.len() ==> cut_provenance(
                    (#[trigger] r@[k]).offset as int,
                    ranges@,
                    content@,
                ),
    {
        if ranges.len() == 0 {
            let r = Self::chunk_range_smart(content, 0, content.len());
            proof {
                assert forall|k: int| 0 <= k < r@.len() implies cut_provenance(
                    (#[trigger] r@[k]).offset as int,
                    ranges@,
                    content@,
                ) by {
                    if content@.len() <= MAX_CHUNK_SIZE {
                        assert(r@[k].offset == 0);
                    } else {
                        assert(r@[k].offset == 0 + cdc_cuts(
                            content@.subrange(0, content@.len() as int),
                            MIN_CHUNK_SIZE,
                            AVG_CHUNK_SIZE,
                            MAX_CHUNK_SIZE,
                        )[k].0);
                        assert(0 <= 0 <= content@.len() as int <= content@.len());
                    }
                }
            }
            return r;
        }
        let cuts = Self::semantic_cuts(content, ranges);
        let r = Self::merge_tiny_chunks(cuts, content, Ghost(0), Ghost(content@.len() as int));
        proof {
            assert forall|k: int| 0 <= k < r@.len() implies cut_provenance(
                (#[trigger] r@[k]).offset as int,
                ranges@,
                content@,
            ) by {
                let i = choose|i: int|
                    0 <= i < cuts@.len() && (#[trigger] r@[k]).offset == cuts@[i].offset;
                assert(cut_provenance(cuts@[i].offset as int, ranges@, content@));
            }
        }
        r
    }

    /// The byte windows of the root's direct children, in pre-order.
    fn top_level_ranges(flat: &Vec<FlatNode>) -> (r: Vec<(usize, usize)>) {
        let mut out: Vec<(usize, usize)> = Vec::new();
        let mut i: usize = 0;
        while i < flat.len()
            decreases flat@.len() - i,
        {
            if flat[i].depth == 1 {
                out.push((flat[i].start_byte, flat[i].end_byte));
            }
            i = i + 1;
        }
        out
    }

    /// Whether the ranges are valid windows of a buffer of length `len`,
    /// ordered without overlap.
    fn ranges_well_formed(ranges: &Vec<(usize, usize)>, len: usize) -> (r: bool)
        ensures
            r == ranges_ok(ranges@, len as int),
    {
        let mut i: usize = 0;
        while i < ranges.len()
            invariant
                i <= ranges@.len(),
                forall|k: int| 0 <= k < i ==> (#[trigger] ranges@[k]).0 <= ranges@[k].1 <= len,
                forall|k: int| 0 <= k < i - 1 ==> (#[trigger] ranges@[k]).1 <= ranges@[k + 1].0,
            decreases ranges@.len() - i,
        {
            let (a, b) = ranges[i];
            if !(a <= b && b <= len) {
                return false;
            }
            if i > 0 {
                if !(ranges[i - 1].1 <= a) {
                    return false;
                }
            }
            i = i + 1;
        }
        true
    }

    /// Chunks a buffer with the hybrid strategy: when the extension has a
    /// grammar and the buffer parses, cut at top-level syntactic boundaries
    /// (with CDC absorbing oversized regions); otherwise fall back to pure
    /// content-defined chunking. Every path tiles the input exactly, and all
    /// chunks but the terminal one are at least `MIN_CHUNK_SIZE` long.
    pub fn chunk(content: &Vec<u8>, extension: &str) -> (r: Vec<Chunk>)
        ensures
            chunks_tile(r@, content@, 0, content@.len() as int),
            forall|i: int| 0 <= i < r@.len() - 1 ==> MIN_CHUNK_SIZE <= (#[trigger] r@[i]).length,
            crate::registry::spec_language_for(extension@) is None ==> r@.len() == cdc_cuts(
                content@,
                MIN_CHUNK_SIZE,
                AVG_CHUNK_SIZE,
                MAX_CHUNK_SIZE,
            ).len() && forall|i: int|
                0 <= i < r@.len() ==> ((#[trigger] r@[i]).length <= MAX_CHUNK_SIZE && r@[i].offset
                    == cdc_cuts(content@, MIN_CHUNK_SIZE, AVG_CHUNK_SIZE, MAX_CHUNK_SIZE)[i].0),
    {
        match get_language_info(extension) {
            Some(info) => {
                let lang = grammar_of(info.language);
                let mut parser = parser_new();
                if parser_set_language(&mut parser, &lang) {
                    match parser_parse(&mut parser, content, None) {
                        Some(tree) => {
                            let flat = tree_to_flat(&tree);
                            let ranges = Self::top_level_ranges(&flat);
                            if Self::ranges_well_formed(&ranges, content.len()) {
                                Self::chunk_semantic(content, &ranges)
                            } else {
                                Self::chunk_fastcdc(content)
                            }
                        },
                        None => Self::chunk_fastcdc(content),
                    }
                } else {
                    Self::chunk_fastcdc(content)
                }
            },
            None => Self::chunk_fastcdc(content),
        }
    }
}

} // verus!
