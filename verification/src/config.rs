//! Application configuration and its defaults.

use vstd::prelude::*;
use vstd::string::StringExecFns;

use crate::models::SearchMode;

verus! {

broadcast use vstd::string::group_string_axioms;

/// Top-level scan roots and general options.
#[derive(Debug, Clone, PartialEq, Eq)]
pub struct GeneralConfig {
    /// Absolute paths to index.
    pub scan_roots: Vec<String>,
}

impl Default for GeneralConfig {
    fn default() -> (c: Self)
        ensures
            c.scan_roots@.len() == 0,
    {
        GeneralConfig { scan_roots: Vec::new() }
    }
}

/// Indexing behaviour.
#[derive(Debug, Clone, PartialEq, Eq)]
pub struct IndexConfig {
    /// `0` means automatic (the default worker pool).
    pub parallel_workers: usize,
    pub peak_resolution: usize,
    pub skip_hidden: bool,
    /// Watch scan roots for changes and trigger a rescan (debounced).
    pub watch_scan_roots: bool,
}

impl Default for IndexConfig {
    fn default() -> (c: Self)
        ensures
            c.parallel_workers == 0,
            c.peak_resolution == 800,
            c.skip_hidden,
            !c.watch_scan_roots,
    {
        IndexConfig { parallel_workers: 0, peak_resolution: 800, skip_hidden: true, watch_scan_roots: false }
    }
}

/// Step for keyboard clip-end nudges, in milliseconds, when none is configured.
pub fn default_clip_notch_ms() -> (r: u32)
    ensures
        r == 100,
{
    100
}

/// Playback preferences.
#[derive(Debug, Clone, PartialEq, Eq)]
pub struct PlaybackConfig {
    pub buffer_cache_count: usize,
    pub auto_play: bool,
    pub loop_playback: bool,
    /// Step for keyboard clip end nudges, in milliseconds.
    pub clip_notch_ms: u32,
}

impl Default for PlaybackConfig {
    fn default() -> (c: Self)
        ensures
            c.buffer_cache_count == 10,
            c.auto_play,
            !c.loop_playback,
            c.clip_notch_ms == 100,
    {
        PlaybackConfig {
            buffer_cache_count: 10,
            auto_play: true,
            loop_playback: false,
            clip_notch_ms: default_clip_notch_ms(),
        }
    }
}

/// Search defaults.
#[derive(Debug, Clone, PartialEq, Eq)]
pub struct SearchConfig {
    pub default_sort: String,
    pub results_per_page: u32,
    /// Ignored: the ranking mode is chosen per query.
    pub semantic_search: bool,
    /// Ranking mode for new sessions that have made no choice yet.
    pub default_search_mode: SearchMode,
}

impl Default for SearchConfig {
    fn default() -> (c: Self)
        ensures
            c.default_sort@ == "relevance"@,
            c.results_per_page == 50,
            !c.semantic_search,
            c.default_search_mode == SearchMode::Lexical,
    {
        SearchConfig {
            default_sort: String::from_str("relevance"),
            results_per_page: 50,
            semantic_search: false,
            default_search_mode: SearchMode::default(),
        }
    }
}

/// Full application configuration.
#[derive(Debug, Clone, PartialEq, Eq)]
pub struct AppConfig {
    pub general: GeneralConfig,
    pub indexing: IndexConfig,
    pub playback: PlaybackConfig,
    pub search: SearchConfig,
}

impl Default for AppConfig {
    fn default() -> (c: Self)
        ensures
            c.general.scan_roots@.len() == 0,
            c.indexing.parallel_workers == 0,
            c.indexing.peak_resolution == 800,
            c.indexing.skip_hidden,
            !c.indexing.watch_scan_roots,
            c.playback.buffer_cache_count == 10,
            c.playback.auto_play,
            !c.playback.loop_playback,
            c.playback.clip_notch_ms == 100,
            c.search.default_sort@ == "relevance"@,
            c.search.results_per_page == 50,
            !c.search.semantic_search,
            c.search.default_search_mode == SearchMode::Lexical,
    {
        AppConfig {
            general: GeneralConfig::default(),
            indexing: IndexConfig::default(),
            playback: PlaybackConfig::default(),
            search: SearchConfig::default(),
        }
    }
}

impl AppConfig {
    /// Whether the scan roots are to be watched for changes: watching is
    /// enabled and there is at least one root.
    pub fn should_watch_scan_roots(&self) -> (r: bool)
        ensures
            r == (self.indexing.watch_scan_roots && self.general.scan_roots@.len() > 0),
    {
        self.indexing.watch_scan_roots && self.general.scan_roots.len() > 0
    }

    /// Number of decoded files the playback cache keeps: the configured
    /// count, at least one.
    pub fn playback_cache_capacity(&self) -> (r: usize)
        ensures
            r == if self.playback.buffer_cache_count < 1 {
                1
            } else {
                self.playback.buffer_cache_count
            },
    {
        if self.playback.buffer_cache_count < 1 {
            1
        } else {
            self.playback.buffer_cache_count
        }
    }
}

} // verus!
