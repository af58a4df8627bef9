//! Verified core of a sound-effect library browser: search query
//! construction, path and folder handling, WAV header parsing and writing.

pub mod export_names;
pub mod folder_tree;
pub mod index_plan;
pub mod loop_geometry;
pub mod metadata;
pub mod config;
pub mod document;
pub mod embedding;
pub mod engine;
pub mod error;
pub mod models;
pub mod paths;
pub mod peaks;
pub mod query_builder;
pub mod recency;
pub mod scanner;
pub mod text;
pub mod wav;
