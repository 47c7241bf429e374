use rag_core::chunker::{chunk_text, ChunkConfig};

#[test]
fn empty_text_yields_no_chunks() {
    let chunks = chunk_text("", 256, 50);
    assert!(chunks.is_empty());
}

#[test]
fn whitespace_only_text_yields_no_chunks() {
    let chunks = chunk_text("  \t\n  ", 256, 50);
    assert!(chunks.is_empty());
}

#[test]
fn short_text_is_one_chunk() {
    let chunks = chunk_text("alpha beta gamma", 256, 50);
    assert_eq!(chunks, vec!["alpha beta gamma".to_string()]);
}

#[test]
fn windows_advance_by_size_minus_overlap() {
    let chunks = chunk_text("a b c d e", 2, 1);
    assert_eq!(
        chunks,
        vec![
            "a b".to_string(),
            "b c".to_string(),
            "c d".to_string(),
            "d e".to_string(),
        ]
    );
}

#[test]
fn full_windows_have_exactly_size_words_and_share_overlap() {
    let chunks = chunk_text("a b c d e f g", 3, 1);
    assert_eq!(
        chunks,
        vec!["a b c".to_string(), "c d e".to_string(), "e f g".to_string()]
    );
    for c in &chunks[..chunks.len() - 1] {
        assert_eq!(c.split_whitespace().count(), 3);
    }
    // consecutive chunks share exactly one boundary word
    assert_eq!(chunks[0].split_whitespace().last(), chunks[1].split_whitespace().next());
    assert_eq!(chunks[1].split_whitespace().last(), chunks[2].split_whitespace().next());
    // stitching the non-overlapping remainders rebuilds the word sequence
    let mut rebuilt: Vec<&str> = chunks[0].split_whitespace().collect();
    for c in &chunks[1..] {
        rebuilt.extend(c.split_whitespace().skip(1));
    }
    assert_eq!(rebuilt.join(" "), "a b c d e f g");
}

#[test]
fn exact_multiple_ends_without_empty_window() {
    let chunks = chunk_text("a b c", 3, 1);
    assert_eq!(chunks, vec!["a b c".to_string()]);
}

#[test]
fn final_window_may_be_shorter() {
    let chunks = chunk_text("a b c d", 3, 1);
    assert_eq!(chunks, vec!["a b c".to_string(), "c d".to_string()]);
}

#[test]
fn whitespace_runs_collapse_to_single_spaces() {
    let chunks = chunk_text("a\n\nb\t c ", 10, 2);
    assert_eq!(chunks, vec!["a b c".to_string()]);
}

#[test]
fn presets_are_the_named_configurations() {
    let coarse = ChunkConfig::coarse();
    assert_eq!(coarse.size_words, 512);
    assert_eq!(coarse.overlap_words, 50);
    let fine = ChunkConfig::fine();
    assert_eq!(fine.size_words, 256);
    assert_eq!(fine.overlap_words, 50);
    assert!(coarse.is_valid());
    assert!(fine.is_valid());
}

#[test]
fn non_advancing_configuration_is_rejected() {
    let bad = ChunkConfig { size_words: 50, overlap_words: 50 };
    assert!(!bad.is_valid());
    let worse = ChunkConfig { size_words: 50, overlap_words: 60 };
    assert!(!worse.is_valid());
}
