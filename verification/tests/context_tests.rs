use rag_core::context::build_context;
use rag_core::index::SearchHit;
use rag_core::score::Score;

fn hit(text: &str, source: &str) -> SearchHit {
    // a score of exactly one keeps the rendering predictable
    SearchHit {
        text: text.to_string(),
        source: source.to_string(),
        score: Score { num: 1, qq: 1, cc: 1 },
    }
}

#[test]
fn one_hit_renders_one_numbered_snippet() {
    let hits = vec![hit("alpha beta", "a.md")];
    let built = build_context(&hits, 150, 500);
    assert_eq!(built.context, "[1] (score: 1.00)\nalpha beta");
    assert_eq!(built.sources, vec!["a.md".to_string()]);
    assert_eq!(built.included, 1);
    assert_eq!(built.total_words, 2);
}

#[test]
fn snippets_are_numbered_and_separated_by_blank_lines() {
    let hits = vec![hit("one", "a.md"), hit("two", "b.md")];
    let built = build_context(&hits, 150, 500);
    assert_eq!(built.context, "[1] (score: 1.00)\none\n\n[2] (score: 1.00)\ntwo");
    assert_eq!(built.included, 2);
}

#[test]
fn texts_are_truncated_to_the_per_chunk_budget() {
    let hits = vec![hit("w1 w2 w3 w4 w5 w6", "a.md")];
    let built = build_context(&hits, 3, 500);
    assert_eq!(built.context, "[1] (score: 1.00)\nw1 w2 w3");
    assert_eq!(built.total_words, 3);
}

#[test]
fn total_budget_is_never_reached() {
    // each hit contributes 3 words; the budget is 5: the second hit would
    // reach it, so only the first is included
    let hits = vec![hit("a b c", "a.md"), hit("d e f", "b.md"), hit("g h i", "c.md")];
    let built = build_context(&hits, 150, 5);
    assert_eq!(built.included, 1);
    assert_eq!(built.total_words, 3);
    assert!(built.total_words <= 5);
    assert_eq!(built.sources, vec!["a.md".to_string()]);
    assert!(!built.context.contains("d e f"));
    assert!(!built.context.contains("g h i"));
}

#[test]
fn oversized_chunk_is_skipped_whole_not_cut_to_fit() {
    // the second hit alone would reach the remaining budget: inclusion stops,
    // nothing of it appears
    let hits = vec![hit("a b", "a.md"), hit("c d e f", "b.md")];
    let built = build_context(&hits, 150, 6);
    assert_eq!(built.included, 1);
    assert_eq!(built.total_words, 2);
    assert!(!built.context.contains("c d"));
}

#[test]
fn zero_budget_includes_nothing() {
    let hits = vec![hit("a b", "a.md")];
    let built = build_context(&hits, 150, 0);
    assert_eq!(built.included, 0);
    assert_eq!(built.total_words, 0);
    assert_eq!(built.context, "");
    assert!(built.sources.is_empty());
}

#[test]
fn sources_are_deduplicated() {
    let hits = vec![hit("one", "a.md"), hit("two", "a.md"), hit("three", "b.md")];
    let built = build_context(&hits, 150, 500);
    assert_eq!(built.sources, vec!["a.md".to_string(), "b.md".to_string()]);
}

#[test]
fn empty_hit_list_builds_an_empty_context() {
    let hits: Vec<SearchHit> = Vec::new();
    let built = build_context(&hits, 150, 500);
    assert_eq!(built.context, "");
    assert!(built.sources.is_empty());
    assert_eq!(built.included, 0);
}
