//! What the store receives: resource status, page addresses, and one row per
//! merged entry with its game versions written out.

use vstd::prelude::*;
use crate::merge::TextEntryData;
use crate::resource::ModLoader;
use crate::version::{version_text, version_to_string, GameVersion};

verus! {

/// Rows are written to the store in batches of this many.
pub const SAVE_BATCH_SIZE: usize = 1000;

/// Whether a stored resource has translatable entries.
#[derive(Clone, Copy, Debug, PartialEq, Eq, Structural, Hash)]
pub enum ModStatus {
    Normal,
    /// The resource is missing translatable entries.
    MissingEntries,
}

/// The status of a resource with `entry_count` merged entries.
pub fn mod_status_for(entry_count: usize) -> (r: ModStatus)
    ensures
        r == (if entry_count == 0 {
            ModStatus::MissingEntries
        } else {
            ModStatus::Normal
        }),
{
    if entry_count == 0 {
        ModStatus::MissingEntries
    } else {
        ModStatus::Normal
    }
}

/// The page of a Modrinth project.
pub fn modrinth_page_url(project_id: &str) -> (r: String)
    ensures
        r@ == "https://modrinth.com/mod/"@ + project_id@,
{
    let mut url = "https://modrinth.com/mod/".to_owned();
    url.append(project_id);
    url
}

/// One stored translation entry; rows are upserted by key.
#[derive(Clone, Debug)]
pub struct TextEntryRow {
    pub key: String,
    pub value: String,
    pub namespaces: Vec<String>,
    pub game_versions: Vec<String>,
    pub loaders: Vec<ModLoader>,
    pub mod_id: i32,
}

/// The game versions written as `major.minor.patch`, in order.
pub fn version_strings(versions: &Vec<GameVersion>) -> (r: Vec<String>)
    ensures
        r@.len() == versions@.len(),
        forall|i: int| 0 <= i < r@.len() ==> (#[trigger] r@[i])@ == version_text(versions@[i]),
{
    let mut r: Vec<String> = Vec::new();
    let mut i: usize = 0;
    while i < versions.len()
        invariant
            0 <= i <= versions@.len(),
            r@.len() == i,
            forall|k: int| 0 <= k < i ==> (#[trigger] r@[k])@ == version_text(versions@[k]),
        decreases versions.len() - i,
    {
        r.push(version_to_string(&versions[i]));
        i = i + 1;
    }
    r
}

/// The row that stores a merged entry for the resource `mod_id`.
pub fn to_row(entry: TextEntryData, mod_id: i32) -> (r: TextEntryRow)
    ensures
        r.key == entry.key,
        r.value == entry.value,
        r.namespaces == entry.namespaces,
        r.loaders == entry.loaders,
        r.mod_id == mod_id,
        r.game_versions@.len() == entry.game_versions@.len(),
        forall|i: int|
            0 <= i < r.game_versions@.len() ==> (#[trigger] r.game_versions@[i])@ == version_text(
                entry.game_versions@[i],
            ),
{
    let game_versions = version_strings(&entry.game_versions);
    TextEntryRow {
        key: entry.key,
        value: entry.value,
        namespaces: entry.namespaces,
        game_versions,
        loaders: entry.loaders,
        mod_id,
    }
}

} // verus!
