//! Searching a provider for resources that can be ingested.

use vstd::prelude::*;
use crate::persist::modrinth_page_url;
use crate::resource::ArchiveProvider;

verus! {

/// Results per page of a provider search.
pub const SEARCH_PAGE_SIZE: usize = 10;

/// A search of a provider: free text, a page number from 0, and the provider.
#[derive(Clone, Debug)]
pub struct SearchFilter {
    pub query: Option<String>,
    pub page: Option<usize>,
    pub provider: ArchiveProvider,
}

/// A resource found at a provider.
#[derive(Clone, Debug)]
pub struct ArchiveResourceInfo {
    pub identifier: Option<String>,
    pub name: String,
    pub description: Option<String>,
    pub image_url: Option<String>,
    pub page_url: String,
    pub included_in_database: bool,
}

/// The number of results to skip for a page (page 0 when none is given);
/// `None` when it exceeds `usize::MAX`.
pub fn search_offset(page: Option<usize>) -> (r: Option<usize>)
    ensures
        match page {
            Some(p) => if p * SEARCH_PAGE_SIZE <= usize::MAX {
                r == Some((p * SEARCH_PAGE_SIZE) as usize)
            } else {
                r is None
            },
            None => r == Some(0usize),
        },
{
    match page {
        Some(p) => p.checked_mul(SEARCH_PAGE_SIZE),
        None => Some(0),
    }
}

impl ArchiveResourceInfo {
    /// Describes a Modrinth search hit, with the project's page address.
    pub fn from_modrinth_hit(
        project_id: String,
        title: String,
        description: String,
        icon_url: Option<String>,
        included_in_database: bool,
    ) -> (r: ArchiveResourceInfo)
        ensures
            r.identifier == Some(project_id),
            r.name == title,
            r.description == Some(description),
            r.image_url == icon_url,
            r.page_url@ == "https://modrinth.com/mod/"@ + project_id@,
            r.included_in_database == included_in_database,
    {
        let page_url = modrinth_page_url(project_id.as_str());
        ArchiveResourceInfo {
            identifier: Some(project_id),
            name: title,
            description: Some(description),
            image_url: icon_url,
            page_url,
            included_in_database,
        }
    }
}

} // verus!
