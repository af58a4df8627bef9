use soundscout::models::{SearchQuery, SortDirection, SortField};
use soundscout::query_builder::{
    append_filters, build_count_sql, build_search_sql, filter_suffix, sanitize_fts_query,
    sanitize_lowercased, search_sql_for_terms, SqlParam,
};

fn placeholders(sql: &str) -> usize {
    sql.chars().filter(|&c| c == '?').count()
}

#[test]
fn sanitize_removes_fts_operators() {
    let s = sanitize_fts_query("(foo):bar^baz*\"x\"");
    assert!(!s.contains('('));
    assert!(!s.contains(':'));
}

#[test]
fn sanitize_does_not_add_prefix_star() {
    let s = sanitize_fts_query("foot");
    assert!(!s.ends_with('*'));
}

#[test]
fn sanitize_empty_returns_empty() {
    assert_eq!(sanitize_fts_query("   "), "");
}

#[test]
fn sanitize_handles_multiple_spaces() {
    assert_eq!(sanitize_fts_query("a    b"), "a b");
}

#[test]
fn build_sql_text_3plus_chars_uses_fts() {
    let q = SearchQuery { text: "abc".into(), ..Default::default() };
    let (sql, _) = build_search_sql(&q);
    assert!(sql.contains("MATCH"));
}

#[test]
fn build_sql_text_1_2_chars_uses_like_fallback() {
    let q = SearchQuery { text: "ab".into(), ..Default::default() };
    let (sql, _) = build_search_sql(&q);
    assert!(sql.contains("LIKE"));
}

#[test]
fn build_sql_empty_text_skips_fts() {
    let q = SearchQuery::default();
    let (sql, _) = build_search_sql(&q);
    assert!(!sql.contains("MATCH"));
}

#[test]
fn build_sql_with_extension_filter() {
    let q = SearchQuery { extensions: Some(vec!["wav".into()]), ..Default::default() };
    let (sql, p) = build_search_sql(&q);
    assert!(sql.contains("extension IN"));
    assert!(p.len() >= 3);
}

#[test]
fn build_sql_with_duration_range() {
    let q = SearchQuery { duration_min: Some(0), duration_max: Some(5000), ..Default::default() };
    let (sql, _) = build_search_sql(&q);
    assert!(sql.contains("duration_ms"));
}

#[test]
fn build_sql_with_favorites() {
    let q = SearchQuery { favorites_only: true, ..Default::default() };
    let (sql, _) = build_search_sql(&q);
    assert!(sql.contains("favorite = 1"));
}

#[test]
fn build_sql_pagination() {
    let q = SearchQuery { offset: 10, limit: 5, ..Default::default() };
    let (sql, _) = build_search_sql(&q);
    assert!(sql.contains("LIMIT"));
    assert!(sql.contains("OFFSET"));
}

#[test]
fn build_sql_with_folder_root_subtree() {
    let q = SearchQuery { folder_root: Some("/lib/a".into()), ..Default::default() };
    let (sql, p) = build_search_sql(&q);
    assert!(sql.contains("a.folder = ?"));
    assert!(sql.contains("SUBSTR(a.folder"));
    assert!(p.len() >= 5);
}

#[test]
fn sanitize_drops_keywords_and_lowercases() {
    assert_eq!(sanitize_fts_query("Foo AND bar OR baz NOT qux"), "foo bar baz qux");
    assert_eq!(sanitize_fts_query("ÄRGER Boom"), "ärger boom");
    assert_eq!(sanitize_fts_query("  a (b) c  "), "a b c");
}

#[test]
fn sanitize_removes_standalone_keywords_wherever_they_stand() {
    assert_eq!(sanitize_lowercased("x and and y"), "x y");
    assert_eq!(sanitize_lowercased("and x"), "x");
    assert_eq!(sanitize_lowercased("x not"), "x");
    assert_eq!(sanitize_lowercased("and"), "");
    assert_eq!(sanitize_fts_query("foo OR"), "foo");
    assert_eq!(sanitize_fts_query("NOT\tand\nor"), "");
    assert_eq!(sanitize_fts_query("android order nothing"), "android order nothing");
    assert_eq!(sanitize_fts_query("(and)"), "");
}

#[test]
fn sanitized_text_is_single_spaced_without_operators() {
    for input in ["\t(a)\n\nb  ", "\"quoted\" *star^ x:y", "  ", "one"] {
        let s = sanitize_fts_query(input);
        assert!(!s.starts_with(' ') && !s.ends_with(' '));
        assert!(!s.contains("  "));
        assert!(!s.chars().any(|c| c.is_whitespace() && c != ' '));
        assert!(!s.chars().any(|c| "():^*\"".contains(c)));
    }
}

#[test]
fn fts_statement_exactly() {
    let q = SearchQuery { text: "Rain".into(), ..Default::default() };
    let (sql, p) = build_search_sql(&q);
    assert_eq!(
        sql,
        "SELECT a.id, a.path, a.filename, a.extension, a.folder, a.duration_ms, a.sample_rate, a.channels, a.bit_depth, a.file_size, a.category, a.publisher, a.favorite, a.rating, a.notes, a.play_count FROM assets a INNER JOIN assets_fts ON assets_fts.rowid = a.id WHERE assets_fts MATCH ? ORDER BY bm25(assets_fts) DESC LIMIT ? OFFSET ?"
    );
    assert_eq!(p, vec![SqlParam::Text("rain".into()), SqlParam::Integer(50), SqlParam::Integer(0)]);
}

#[test]
fn like_statement_wraps_terms_in_wildcards() {
    let q = SearchQuery { text: "Ab".into(), sort_by: SortField::Name, sort_dir: SortDirection::Asc, ..Default::default() };
    let (sql, p) = build_search_sql(&q);
    assert!(sql.contains(" WHERE a.filename LIKE ? ORDER BY a.filename ASC LIMIT ? OFFSET ?"));
    assert_eq!(p[0], SqlParam::Text("%ab%".into()));
}

#[test]
fn count_statement_has_no_order_or_limit() {
    let q = SearchQuery { favorites_only: true, ..Default::default() };
    let (sql, p) = build_count_sql(&q);
    assert_eq!(sql, "SELECT COUNT(*) FROM assets a WHERE 1=1 AND a.favorite = 1");
    assert!(p.is_empty());
}

#[test]
fn placeholders_match_parameters_on_a_full_query() {
    let q = SearchQuery {
        text: "metal hit".into(),
        extensions: Some(vec!["wav".into(), "flac".into()]),
        duration_min: Some(10),
        duration_max: Some(900),
        sample_rates: Some(vec![44100, 48000, 96000]),
        channels: Some(2),
        favorites_only: true,
        tags: Some(vec!["impact".into(), "metal".into()]),
        publisher: Some("Boom".into()),
        folder_root: Some("/lib/a".into()),
        sort_by: SortField::Duration,
        ..Default::default()
    };
    let (sql, p) = build_search_sql(&q);
    assert_eq!(placeholders(&sql), p.len());
    let (sql, p) = build_count_sql(&q);
    assert_eq!(placeholders(&sql), p.len());
    let (sql, p) = filter_suffix(&q);
    assert_eq!(placeholders(&sql), p.len());
    let mut s = String::from("x");
    let mut v = Vec::new();
    append_filters(&mut s, &mut v, &q);
    assert_eq!(placeholders(&s), v.len());
    assert!(s.starts_with("x AND"));
}

#[test]
fn terms_are_trimmed_before_use() {
    let q = SearchQuery::default();
    let (sql, p) = search_sql_for_terms(&q, "  ab ");
    assert!(sql.contains("LIKE ?"));
    assert_eq!(p[0], SqlParam::Text("%ab%".into()));
}
