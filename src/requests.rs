//! Bodies of requests to the server.

use vstd::prelude::*;
use crate::resource::ArchiveProvider;

verus! {

/// A request to ingest a resource of a provider.
#[derive(Clone, Debug)]
pub struct CreateTaskPayload {
    pub provider: ArchiveProvider,
    pub identifier: String,
}

/// A translation offered for an entry.
#[derive(Clone, Debug)]
pub struct TranslateTextPayload {
    pub content: String,
}

/// A stored translation of an entry.
#[derive(Clone, Debug)]
pub struct TextTranslation {
    pub id: i32,
    pub content: String,
}

} // verus!
