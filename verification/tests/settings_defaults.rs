use soundscout::config::AppConfig;
use soundscout::models::SearchMode;

#[test]
fn default_config_has_empty_scan_roots() {
    let c = AppConfig::default();
    assert!(c.general.scan_roots.is_empty());
}

#[test]
fn default_config_has_800_peak_resolution() {
    let c = AppConfig::default();
    assert_eq!(c.indexing.peak_resolution, 800);
}

#[test]
fn default_config_has_50_results_per_page() {
    let c = AppConfig::default();
    assert_eq!(c.search.results_per_page, 50);
}

#[test]
fn default_config_watch_and_search_mode_lexical() {
    let c = AppConfig::default();
    assert!(!c.indexing.watch_scan_roots);
    assert!(!c.search.semantic_search);
    assert_eq!(c.search.default_search_mode, SearchMode::Lexical);
}

#[test]
fn default_config_other_sections() {
    let c = AppConfig::default();
    assert_eq!(c.indexing.parallel_workers, 0);
    assert!(c.indexing.skip_hidden);
    assert_eq!(c.playback.buffer_cache_count, 10);
    assert!(c.playback.auto_play);
    assert!(!c.playback.loop_playback);
    assert_eq!(c.playback.clip_notch_ms, 100);
    assert_eq!(c.search.default_sort, "relevance");
}

#[test]
fn watching_needs_the_flag_and_a_root() {
    let mut c = AppConfig::default();
    assert!(!c.should_watch_scan_roots());
    c.indexing.watch_scan_roots = true;
    assert!(!c.should_watch_scan_roots());
    c.general.scan_roots.push("/lib".to_string());
    assert!(c.should_watch_scan_roots());
}

#[test]
fn playback_cache_holds_at_least_one_entry() {
    let mut c = AppConfig::default();
    assert_eq!(c.playback_cache_capacity(), 10);
    c.playback.buffer_cache_count = 0;
    assert_eq!(c.playback_cache_capacity(), 1);
}
