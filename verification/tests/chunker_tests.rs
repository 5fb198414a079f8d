use srp_core::chunker::{SemanticChunker, AVG_CHUNK_SIZE, MAX_CHUNK_SIZE, MIN_CHUNK_SIZE};

/// A small deterministic byte generator, so the fallback path sees
/// content-defined cut points without any outside randomness.
fn pseudo_random_bytes(n: usize) -> Vec<u8> {
    let mut state: u64 = 0x2545F4914F6CDD1D;
    let mut out = Vec::with_capacity(n);
    for _ in 0..n {
        state = state.wrapping_mul(6364136223846793005).wrapping_add(1442695040888963407);
        out.push((state >> 33) as u8);
    }
    out
}

fn assert_tiling(chunks: &[srp_core::chunker::Chunk], content: &[u8]) {
    let mut offset = 0usize;
    let mut rebuilt: Vec<u8> = Vec::new();
    for c in chunks {
        assert_eq!(c.offset, offset, "chunks must tile without gaps");
        assert_eq!(c.data.len(), c.length);
        rebuilt.extend_from_slice(&c.data);
        offset += c.length;
    }
    assert_eq!(offset, content.len());
    assert_eq!(rebuilt.as_slice(), content, "concatenation must reproduce the input");
}

#[test]
fn fallback_cdc_on_unknown_extension() {
    let content = pseudo_random_bytes(200 * 1024);
    let chunks = SemanticChunker::chunk(&content, "xyz");
    assert!(chunks.len() >= 2);
    assert_tiling(&chunks, &content);
    for (i, c) in chunks.iter().enumerate() {
        assert!(c.length <= MAX_CHUNK_SIZE);
        if i + 1 < chunks.len() {
            assert!(c.length >= MIN_CHUNK_SIZE, "interior chunk below minimum");
        }
    }
}

#[test]
fn semantic_cuts_fall_on_function_boundaries() {
    // Three top-level functions of roughly 20/30/50 KiB; the clean-boundary
    // flush puts cut points at the first two function ends.
    let f1 = format!("fn f1() {{ let a = \"{}\"; }}\n", "x".repeat(20 * 1024));
    let f2 = format!("fn f2() {{ let b = \"{}\"; }}\n", "y".repeat(30 * 1024));
    let f3 = format!("fn f3() {{ let c = \"{}\"; }}\n", "z".repeat(50 * 1024));
    let source = format!("{}{}{}", f1, f2, f3);
    let content: Vec<u8> = source.into_bytes();

    // Function nodes span their text without the trailing newline.
    let end1 = f1.len() - 1;
    let end2 = f1.len() + f2.len() - 1;
    let end3 = f1.len() + f2.len() + f3.len() - 1;

    let chunks = SemanticChunker::chunk(&content, "rs");
    assert_tiling(&chunks, &content);

    let boundaries: Vec<usize> = chunks.iter().skip(1).map(|c| c.offset).collect();
    let hits = boundaries
        .iter()
        .filter(|b| **b == end1 || **b == end2 || **b == end3)
        .count();
    assert!(hits >= 2, "at least two cuts must coincide with function boundaries");
}

#[test]
fn small_known_source_single_chunk() {
    let content: Vec<u8> = b"fn tiny() {}\n".to_vec();
    let chunks = SemanticChunker::chunk(&content, "rs");
    assert_tiling(&chunks, &content);
    assert_eq!(chunks.len(), 1);
}

#[test]
fn empty_input_chunks_cleanly() {
    let empty: Vec<u8> = Vec::new();
    let unknown = SemanticChunker::chunk(&empty, "xyz");
    assert_eq!(unknown.iter().map(|c| c.length).sum::<usize>(), 0);
    let known = SemanticChunker::chunk(&empty, "rs");
    assert_eq!(known.iter().map(|c| c.length).sum::<usize>(), 0);
}

#[test]
fn merge_leaves_no_undersized_interior_chunk() {
    // Many tiny top-level items: pre-merge cuts would be tiny, the merge
    // pass must leave every chunk but the terminal one at least MIN long.
    let mut source = String::new();
    for i in 0..4000 {
        source.push_str(&format!("fn f{}() {{ }}\n", i));
    }
    let content: Vec<u8> = source.into_bytes();
    let chunks = SemanticChunker::chunk(&content, "rs");
    assert_tiling(&chunks, &content);
    for (i, c) in chunks.iter().enumerate() {
        if i + 1 < chunks.len() {
            assert!(c.length >= MIN_CHUNK_SIZE);
        }
    }
    assert!(AVG_CHUNK_SIZE > MIN_CHUNK_SIZE);
}
