//! Searching the stored resources and their entries.

use vstd::arithmetic::div_mod::{lemma_fundamental_div_mod, lemma_fundamental_div_mod_converse};
use vstd::prelude::*;
use crate::persist::modrinth_page_url;

verus! {

/// A search of stored resources: free text and a page number from 0.
#[derive(Clone, Debug)]
pub struct SearchFilter {
    pub query: Option<String>,
    pub page: Option<u64>,
}

/// A search of the entries of one stored resource.
#[derive(Clone, Debug)]
pub struct EntriesFilter {
    pub query: Option<String>,
    pub page: Option<u64>,
}

/// One stored entry as a search returns it.
#[derive(Clone, Debug)]
pub struct TextEntry {
    pub key: String,
    pub value: String,
    pub preview_translation: Option<String>,
}

/// A page of entries and the number of pages.
#[derive(Clone, Debug)]
pub struct SearchEntriesResponse {
    pub total_pages: u64,
    pub entries: Vec<TextEntry>,
}

/// A resource found at Modrinth.
#[derive(Clone, Debug)]
pub struct MinecraftModInfo {
    pub name: String,
    pub description: Option<String>,
    pub image_url: Option<String>,
    pub page_url: String,
    pub included_in_database: bool,
}

/// Stored resources per page of a search.
pub const MODS_PAGE_SIZE: u64 = 10;

/// Entries per page of a search.
pub const ENTRIES_PAGE_SIZE: u64 = 15;

/// The number of pages that `total` results fill, `per_page` to a page.
pub fn page_count(total: u64, per_page: u64) -> (r: u64)
    requires
        per_page > 0,
    ensures
        r == (total as int + per_page as int - 1) / per_page as int,
{
    let q = total / per_page;
    let rem = total % per_page;
    proof {
        let (t, p) = (total as int, per_page as int);
        lemma_fundamental_div_mod(t, p);
        assert(q * p <= t) by (nonlinear_arith)
            requires
                t == p * q + rem,
                rem >= 0,
        ;
        if rem == 0 {
            lemma_fundamental_div_mod_converse(t + p - 1, p, q as int, p - 1);
        } else {
            assert(t + p - 1 == (q + 1) * p + (rem - 1)) by (nonlinear_arith)
                requires
                    t == p * q + rem,
            ;
            lemma_fundamental_div_mod_converse(t + p - 1, p, q + 1, rem - 1);
            assert(q * 2 <= q * p) by (nonlinear_arith)
                requires
                    p >= 2,
                    q >= 0,
            ;
        }
    }
    if rem == 0 {
        q
    } else {
        q + 1
    }
}

/// The number of results before page `page`; `None` when it exceeds `u64::MAX`.
pub fn page_offset(page: u64, per_page: u64) -> (r: Option<u64>)
    ensures
        page * per_page <= u64::MAX ==> r == Some((page * per_page) as u64),
        page * per_page > u64::MAX ==> r is None,
{
    page.checked_mul(per_page)
}

/// The page number searched: page 0 when none is given.
pub fn page_or_first(page: Option<u64>) -> (r: u64)
    ensures
        r == match page {
            Some(p) => p,
            None => 0,
        },
{
    match page {
        Some(p) => p,
        None => 0,
    }
}

impl TextEntry {
    /// A stored entry shown without a preview translation.
    pub fn without_preview(key: String, value: String) -> (r: TextEntry)
        ensures
            r.key == key,
            r.value == value,
            r.preview_translation is None,
    {
        TextEntry { key, value, preview_translation: None }
    }
}

impl MinecraftModInfo {
    /// Describes a Modrinth search hit, which is not looked up in the store.
    pub fn from_modrinth_hit(project_id: &str, title: String, description: String, icon_url: Option<String>) -> (r: MinecraftModInfo)
        ensures
            r.name == title,
            r.description == Some(description),
            r.image_url == icon_url,
            r.page_url@ == "https://modrinth.com/mod/"@ + project_id@,
            !r.included_in_database,
    {
        MinecraftModInfo {
            name: title,
            description: Some(description),
            image_url: icon_url,
            page_url: modrinth_page_url(project_id),
            included_in_database: false,
        }
    }
}

} // verus!
