//! Row and message data models shared by the library and its callers.

use vstd::prelude::*;

verus! {

/// Default page size for search queries (`limit` when not overridden).
pub const DEFAULT_SEARCH_LIMIT: u32 = 50;

/// One indexed audio file (no peaks: those are loaded separately).
#[derive(Debug, Clone, PartialEq)]
pub struct Asset {
    pub id: i64,
    pub path: String,
    pub filename: String,
    pub extension: String,
    pub folder: String,
    pub duration_ms: Option<i64>,
    pub sample_rate: Option<i32>,
    pub channels: Option<i32>,
    pub bit_depth: Option<i32>,
    pub file_size: i64,
    pub category: Option<String>,
    pub publisher: Option<String>,
    pub favorite: bool,
    pub rating: u8,
    pub notes: Option<String>,
    pub play_count: i64,
}

/// Insert/update payload from the indexer.
#[derive(Debug, Clone, PartialEq)]
pub struct NewAsset {
    pub path: String,
    pub filename: String,
    pub extension: String,
    pub folder: String,
    pub duration_ms: Option<i64>,
    pub sample_rate: Option<i32>,
    pub channels: Option<i32>,
    pub bit_depth: Option<i32>,
    pub file_size: i64,
    pub category: Option<String>,
    pub publisher: Option<String>,
    pub modified_at: i64,
    pub indexed_at: i64,
    pub peaks: Option<Vec<u8>>,
}

/// Sort column for search results.
#[derive(Debug, Clone, Copy, PartialEq, Eq, Structural)]
pub enum SortField {
    Relevance,
    Name,
    Duration,
    Date,
}

impl Default for SortField {
    fn default() -> (r: Self)
        ensures
            r == SortField::Relevance,
    {
        SortField::Relevance
    }
}

/// Sort direction.
#[derive(Debug, Clone, Copy, PartialEq, Eq, Structural)]
pub enum SortDirection {
    Asc,
    Desc,
}

impl Default for SortDirection {
    fn default() -> (r: Self)
        ensures
            r == SortDirection::Desc,
    {
        SortDirection::Desc
    }
}

/// How search ranks results: lexical only, embedding similarity only, or combined.
#[derive(Debug, Clone, Copy, PartialEq, Eq, Structural)]
pub enum SearchMode {
    Lexical,
    Vector,
    Both,
}

impl Default for SearchMode {
    fn default() -> (r: Self)
        ensures
            r == SearchMode::Lexical,
    {
        SearchMode::Lexical
    }
}

/// Search filters and pagination.
#[derive(Debug, Clone, PartialEq, Eq)]
pub struct SearchQuery {
    pub text: String,
    pub search_mode: SearchMode,
    pub extensions: Option<Vec<String>>,
    pub duration_min: Option<i64>,
    pub duration_max: Option<i64>,
    pub sample_rates: Option<Vec<i32>>,
    pub channels: Option<i32>,
    pub favorites_only: bool,
    pub tags: Option<Vec<String>>,
    pub publisher: Option<String>,
    /// Restrict results to this folder and everything below it.
    pub folder_root: Option<String>,
    pub sort_by: SortField,
    pub sort_dir: SortDirection,
    pub offset: u32,
    pub limit: u32,
}

/// The page size a query has when none is given.
pub fn default_limit() -> (r: u32)
    ensures
        r == DEFAULT_SEARCH_LIMIT,
{
    DEFAULT_SEARCH_LIMIT
}

impl Default for SearchQuery {
    fn default() -> (q: Self)
        ensures
            q.text@.len() == 0,
            q.search_mode == SearchMode::Lexical,
            q.extensions.is_none(),
            q.duration_min.is_none(),
            q.duration_max.is_none(),
            q.sample_rates.is_none(),
            q.channels.is_none(),
            !q.favorites_only,
            q.tags.is_none(),
            q.publisher.is_none(),
            q.folder_root.is_none(),
            q.sort_by == SortField::Relevance,
            q.sort_dir == SortDirection::Desc,
            q.offset == 0,
            q.limit == DEFAULT_SEARCH_LIMIT,
    {
        SearchQuery {
            text: String::new(),
            search_mode: SearchMode::default(),
            extensions: None,
            duration_min: None,
            duration_max: None,
            sample_rates: None,
            channels: None,
            favorites_only: false,
            tags: None,
            publisher: None,
            folder_root: None,
            sort_by: SortField::default(),
            sort_dir: SortDirection::default(),
            offset: 0,
            limit: default_limit(),
        }
    }
}

/// Progress during a scan.
#[derive(Debug, Clone, PartialEq)]
pub struct ScanProgress {
    pub scanned: u64,
    pub total: u64,
    pub current_file: String,
    pub phase: ScanPhase,
}

/// Stage of a scan.
#[derive(Debug, Clone, Copy, PartialEq, Eq, Structural)]
pub enum ScanPhase {
    Enumerating,
    Extracting,
    Indexing,
    Complete,
}

/// Progress while rebuilding dense text embeddings.
#[derive(Debug, Clone, PartialEq, Eq)]
pub struct EmbedRebuildProgress {
    pub processed: u32,
    pub total: u32,
    pub detail: String,
}

/// Codec-level metadata of one audio file.
#[derive(Debug, Clone, PartialEq, Eq)]
pub struct AudioMetadata {
    pub duration_ms: Option<i64>,
    pub sample_rate: Option<i32>,
    pub channels: Option<i32>,
    pub bit_depth: Option<i32>,
}

/// Path-derived publisher/category/filename parts.
#[derive(Debug, Clone, PartialEq, Eq)]
pub struct PathMetadata {
    pub filename: String,
    pub extension: String,
    pub folder: String,
    pub publisher: Option<String>,
    pub category: Option<String>,
}

/// Distinct filter values derived from the index.
#[derive(Debug, Clone, PartialEq, Eq)]
pub struct FilterOptions {
    pub extensions: Vec<String>,
    pub sample_rates: Vec<i32>,
    pub min_duration_ms: i64,
    pub max_duration_ms: i64,
    pub publishers: Vec<String>,
}

/// Nested folder tree node for the sidebar.
#[derive(Debug, PartialEq, Eq)]
pub struct FolderNode {
    pub name: String,
    pub path: String,
    pub count: u64,
    pub children: Vec<FolderNode>,
}

/// A tag row.
#[derive(Debug, Clone, PartialEq, Eq)]
pub struct Tag {
    pub id: i64,
    pub name: String,
}

/// A tag with the number of assets that carry it.
#[derive(Debug, Clone, PartialEq, Eq)]
pub struct TagWithCount {
    pub id: i64,
    pub name: String,
    pub count: u64,
}

/// Row counts for dense text embeddings; vector search is available when
/// `embedding_count > 0`.
#[derive(Debug, Clone, PartialEq, Eq)]
pub struct SemanticSearchStatus {
    pub embedding_count: i64,
    pub asset_count: i64,
    pub semantic_enabled: bool,
    pub clap_pipeline_ready: bool,
}

/// The semantic-search status reported for the given row counts: vector
/// search is enabled exactly when at least one embedding is stored.
pub fn semantic_status_from_counts(embedding_count: i64, asset_count: i64) -> (s:
    SemanticSearchStatus)
    ensures
        s.embedding_count == embedding_count,
        s.asset_count == asset_count,
        s.semantic_enabled == (embedding_count > 0),
        s.clap_pipeline_ready == (embedding_count > 0),
{
    let has_vectors = embedding_count > 0;
    SemanticSearchStatus {
        embedding_count,
        asset_count,
        semantic_enabled: has_vectors,
        clap_pipeline_ready: has_vectors,
    }
}

} // verus!
