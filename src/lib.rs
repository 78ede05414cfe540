//! Archive ingestion for game-modification packages: version filtering,
//! download planning, batched transfers, language-file extraction, merging
//! of translation entries, and the registry of ingestion tasks.

pub mod archive_search;
pub mod config;
pub mod download;
pub mod extract;
pub mod merge;
pub mod metadata;
pub mod mod_search;
pub mod persist;
pub mod requests;
pub mod resource;
pub mod task;
pub mod text;
pub mod version;
