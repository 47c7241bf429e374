use rag_core::index::VectorStore;

fn store_with(entries: &[(&str, Vec<i64>, &str)]) -> VectorStore {
    let mut store = VectorStore::new();
    for (text, emb, source) in entries {
        store.add(text.to_string(), emb.clone(), source.to_string());
    }
    store
}

#[test]
fn new_store_is_empty() {
    let store = VectorStore::new();
    assert_eq!(store.count(), 0);
}

#[test]
fn add_increments_count() {
    let mut store = VectorStore::new();
    store.add("one".to_string(), vec![1, 0], "a.md".to_string());
    assert_eq!(store.count(), 1);
    store.add("two".to_string(), vec![0, 1], "a.md".to_string());
    assert_eq!(store.count(), 2);
}

#[test]
fn remove_by_source_removes_exactly_the_matching_chunks() {
    let mut store = store_with(&[
        ("a1", vec![1, 0], "a.md"),
        ("b1", vec![0, 1], "b.md"),
        ("a2", vec![1, 1], "a.md"),
        ("b2", vec![1, -1], "b.md"),
    ]);
    let removed = store.remove_by_source("a.md");
    assert_eq!(removed, 2);
    assert_eq!(store.count(), 2);
    // the survivors keep their relative order: with an all-zero query every
    // score ties and search falls back to insertion order
    let hits = store.search(&vec![0, 0], 10);
    let texts: Vec<&str> = hits.iter().map(|h| h.text.as_str()).collect();
    assert_eq!(texts, vec!["b1", "b2"]);
}

#[test]
fn remove_absent_source_removes_nothing() {
    let mut store = store_with(&[("a1", vec![1, 0], "a.md"), ("b1", vec![0, 1], "b.md")]);
    let removed = store.remove_by_source("zzz.md");
    assert_eq!(removed, 0);
    assert_eq!(store.count(), 2);
    let hits = store.search(&vec![0, 0], 10);
    let texts: Vec<&str> = hits.iter().map(|h| h.text.as_str()).collect();
    assert_eq!(texts, vec!["a1", "b1"]);
}

#[test]
fn search_ranks_by_descending_score() {
    let store = store_with(&[
        ("far", vec![0, 1000], "c.md"),
        ("mid", vec![1000, 1000], "b.md"),
        ("near", vec![1000, 0], "a.md"),
    ]);
    let hits = store.search(&vec![1000, 0], 3);
    let texts: Vec<&str> = hits.iter().map(|h| h.text.as_str()).collect();
    assert_eq!(texts, vec!["near", "mid", "far"]);
    // scores are non-increasing
    for w in hits.windows(2) {
        let a = &w[0].score;
        let b = &w[1].score;
        let va = (a.num as f64) / (((a.qq as f64) * (a.cc as f64)).sqrt().max(1.0));
        let vb = (b.num as f64) / (((b.qq as f64) * (b.cc as f64)).sqrt().max(1.0));
        assert!(va >= vb);
    }
}

#[test]
fn equal_scores_keep_insertion_order() {
    let store = store_with(&[
        ("first", vec![500, 0], "a.md"),
        ("second", vec![500, 0], "b.md"),
        ("third", vec![500, 0], "a.md"),
    ]);
    let hits = store.search(&vec![1000, 0], 3);
    let texts: Vec<&str> = hits.iter().map(|h| h.text.as_str()).collect();
    assert_eq!(texts, vec!["first", "second", "third"]);
}

#[test]
fn search_returns_at_most_top_k() {
    let store = store_with(&[
        ("t1", vec![1, 0], "a.md"),
        ("t2", vec![2, 0], "a.md"),
        ("t3", vec![3, 0], "a.md"),
    ]);
    assert_eq!(store.search(&vec![1, 0], 2).len(), 2);
    assert_eq!(store.search(&vec![1, 0], 5).len(), 3);
    assert_eq!(store.search(&vec![1, 0], 0).len(), 0);
}

#[test]
fn search_on_empty_store_is_empty() {
    let store = VectorStore::new();
    assert!(store.search(&vec![1, 0], 5).is_empty());
}

#[test]
fn deleted_source_never_comes_back_from_search() {
    let mut store = store_with(&[
        ("a1", vec![1000, 0], "a.md"),
        ("b1", vec![999, 10], "b.md"),
        ("a2", vec![998, 20], "a.md"),
    ]);
    let removed = store.remove_by_source("a.md");
    assert_eq!(removed, 2);
    let hits = store.search(&vec![1000, 0], 10);
    assert_eq!(hits.len(), 1);
    assert!(hits.iter().all(|h| h.source != "a.md"));
    assert_eq!(hits[0].source, "b.md");
}
