use soundscout::models::{
    default_limit, semantic_status_from_counts, SearchMode, SearchQuery, SortDirection, SortField,
    DEFAULT_SEARCH_LIMIT,
};

#[test]
fn search_query_default_has_limit_50() {
    let q = SearchQuery::default();
    assert_eq!(q.limit, 50);
}

#[test]
fn search_query_default_has_relevance_sort() {
    let q = SearchQuery::default();
    assert_eq!(q.sort_by, SortField::Relevance);
}

#[test]
fn search_query_default_is_an_unfiltered_first_page() {
    let q = SearchQuery::default();
    assert_eq!(q.text, "");
    assert_eq!(q.search_mode, SearchMode::Lexical);
    assert_eq!(q.sort_dir, SortDirection::Desc);
    assert_eq!(q.offset, 0);
    assert!(q.extensions.is_none() && q.tags.is_none() && q.folder_root.is_none());
    assert!(!q.favorites_only);
    assert_eq!(default_limit(), DEFAULT_SEARCH_LIMIT);
}

#[test]
fn semantic_status_follows_embedding_count() {
    let s = semantic_status_from_counts(0, 12);
    assert!(!s.semantic_enabled && !s.clap_pipeline_ready);
    assert_eq!(s.asset_count, 12);
    let s = semantic_status_from_counts(3, 12);
    assert!(s.semantic_enabled && s.clap_pipeline_ready);
    assert_eq!(s.embedding_count, 3);
}
