//! Reading the language file out of a downloaded archive: the namespace from
//! the loader's manifest, then `assets/<namespace>/lang/en_us.json`, of which
//! only the members with string values are kept.

use vstd::prelude::*;
use crate::merge::{merge_entries, merged_entry, distinct_keys, has_entry, holds_key, ArchiveLanguage, TextEntryData};
use crate::resource::ModDownloadInfo;

verus! {

/// Why an archive could not be read.
#[derive(Clone, Copy, Debug, PartialEq, Eq, Structural)]
pub enum ExtractError {
    /// The archive is not a readable zip container.
    CorruptArchive,
    /// The language file is not a JSON object.
    MalformedLanguageFile,
}

/// What zip reading gives for the member `name` of `archive`: `None` when the
/// archive or the member cannot be read, `Some(None)` when there is no such
/// member, else its bytes.
pub uninterp spec fn zip_member(archive: Seq<u8>, name: Seq<char>) -> Option<Option<Seq<u8>>>;

/// The members of the JSON object in `text`, in the parser's order, each with
/// its string value or `None` for any other value; `None` when `text` is not
/// a JSON object.
pub uninterp spec fn json_object_members(text: Seq<u8>) -> Option<Seq<(Seq<char>, Option<Seq<char>>)>>;

pub open spec fn member_view(m: (String, Option<String>)) -> (Seq<char>, Option<Seq<char>>) {
    (
        m.0@,
        match m.1 {
            Some(s) => Some(s@),
            None => None,
        },
    )
}

/// Relies on zip::ZipArchive::new, ZipArchive::by_name and `Read::read_to_end`
/// on an in-memory archive: the result depends on the bytes and the name alone.
#[verifier::external_body]
fn read_zip_member(archive: &Vec<u8>, name: &str) -> (r: Result<Option<Vec<u8>>, ExtractError>)
    ensures
        match r {
            Ok(Some(b)) => zip_member(archive@, name@) == Some(Some(b@)),
            Ok(None) => zip_member(archive@, name@) == Some(None::<Seq<u8>>),
            Err(e) => zip_member(archive@, name@) is None && e == ExtractError::CorruptArchive,
        },
{
    let mut zip = match zip::ZipArchive::new(std::io::Cursor::new(archive.as_slice())) {
        Ok(z) => z,
        Err(_) => return Err(ExtractError::CorruptArchive),
    };
    let mut bytes = Vec::new();
    let r = match zip.by_name(name) {
        Ok(mut file) => match std::io::Read::read_to_end(&mut file, &mut bytes) {
            Ok(_) => Ok(Some(bytes)),
            Err(_) => Err(ExtractError::CorruptArchive),
        },
        Err(zip::result::ZipError::FileNotFound) => Ok(None),
        Err(_) => Err(ExtractError::CorruptArchive),
    };
    r
}

/// Relies on serde_json::from_slice into `serde_json::Value`: the members of a
/// top-level object, with string values kept as text; `None` otherwise.
#[verifier::external_body]
fn parse_json_object(text: &Vec<u8>) -> (r: Option<Vec<(String, Option<String>)>>)
    ensures
        match r {
            Some(v) => json_object_members(text@) == Some(v@.map_values(|m| member_view(m))),
            None => json_object_members(text@) is None,
        },
{
    match serde_json::from_slice::<serde_json::Value>(text) {
        Ok(serde_json::Value::Object(map)) => Some(
            map.into_iter().map(|(k, v)| match v {
                serde_json::Value::String(s) => (k, Some(s)),
                _ => (k, None),
            }).collect(),
        ),
        _ => None,
    }
}

/// The string value of the last member named `key`, if that value is a string.
pub open spec fn member_text(ms: Seq<(Seq<char>, Option<Seq<char>>)>, key: Seq<char>) -> Option<Seq<char>>
    decreases ms.len(),
{
    if ms.len() == 0 {
        None
    } else if ms.last().0 == key {
        ms.last().1
    } else {
        member_text(ms.drop_last(), key)
    }
}

/// The members whose values are strings, in order.
pub open spec fn string_members(ms: Seq<(Seq<char>, Option<Seq<char>>)>) -> Seq<(Seq<char>, Seq<char>)>
    decreases ms.len(),
{
    if ms.len() == 0 {
        seq![]
    } else {
        let rest = string_members(ms.drop_last());
        match ms.last().1 {
            Some(t) => rest.push((ms.last().0, t)),
            None => rest,
        }
    }
}

/// The name of the Fabric manifest inside an archive.
pub open spec fn manifest_name() -> Seq<char> {
    "fabric.mod.json"@
}

/// The path of the default-locale language file of a namespace.
pub open spec fn language_path(namespace: Seq<char>) -> Seq<char> {
    "assets/"@ + namespace + "/lang/en_us.json"@
}

/// The namespace a manifest declares: the string `id` of its top-level object.
pub open spec fn manifest_namespace(manifest: Seq<u8>) -> Option<Seq<char>> {
    match json_object_members(manifest) {
        Some(ms) => member_text(ms, "id"@),
        None => None,
    }
}

/// The outcome of reading an archive: `Err` for a corrupt container or a
/// language file that is not a JSON object; `Ok(None)` when the archive has no
/// manifest with an `id`, or no language file for it; else the namespace and
/// the string members of the language file.
pub open spec fn language_outcome(archive: Seq<u8>) -> Result<
    Option<(Seq<char>, Seq<(Seq<char>, Seq<char>)>)>,
    ExtractError,
> {
    match zip_member(archive, manifest_name()) {
        None => Err(ExtractError::CorruptArchive),
        Some(None) => Ok(None),
        Some(Some(m)) => match manifest_namespace(m) {
            None => Ok(None),
            Some(ns) => match zip_member(archive, language_path(ns)) {
                None => Err(ExtractError::CorruptArchive),
                Some(None) => Ok(None),
                Some(Some(text)) => match json_object_members(text) {
                    None => Err(ExtractError::MalformedLanguageFile),
                    Some(ms) => Ok(Some((ns, string_members(ms)))),
                },
            },
        },
    }
}

/// The text of the last member named `key` whose value is wanted; `None` when
/// the last such member has no string value or there is none.
pub fn find_member_text(ms: &Vec<(String, Option<String>)>, key: &str) -> (r: Option<String>)
    ensures
        match r {
            Some(t) => member_text(ms@.map_values(|m| member_view(m)), key@) == Some(t@),
            None => member_text(ms@.map_values(|m| member_view(m)), key@) is None,
        },
{
    let ghost view = ms@.map_values(|m| member_view(m));
    let mut found: Option<String> = None;
    let mut i: usize = 0;
    proof {
        assert(view.take(0) =~= Seq::<(Seq<char>, Option<Seq<char>>)>::empty());
    }
    while i < ms.len()
        invariant
            0 <= i <= ms@.len(),
            view == ms@.map_values(|m| member_view(m)),
            match found {
                Some(t) => member_text(view.take(i as int), key@) == Some(t@),
                None => member_text(view.take(i as int), key@) is None,
            },
        decreases ms.len() - i,
    {
        proof {
            assert(view.take(i + 1).drop_last() =~= view.take(i as int));
            assert(view.take(i + 1).last() == member_view(ms@[i as int]));
        }
        if crate::text::same_text(ms[i].0.as_str(), key) {
            found = match &ms[i].1 {
                Some(t) => Some(t.clone()),
                None => None,
            };
        }
        i = i + 1;
    }
    proof {
        assert(view.take(i as int) =~= view);
    }
    found
}

/// The pairs of the members with string values, in order.
pub fn keep_string_members(ms: Vec<(String, Option<String>)>) -> (r: Vec<(String, String)>)
    ensures
        r@.map_values(|p: (String, String)| (p.0@, p.1@)) == string_members(
            ms@.map_values(|m| member_view(m)),
        ),
{
    let ghost view = ms@.map_values(|m| member_view(m));
    let mut r: Vec<(String, String)> = Vec::new();
    let mut i: usize = 0;
    proof {
        assert(view.take(0) =~= Seq::<(Seq<char>, Option<Seq<char>>)>::empty());
        assert(r@.map_values(|p: (String, String)| (p.0@, p.1@)) =~= seq![]);
    }
    while i < ms.len()
        invariant
            0 <= i <= ms@.len(),
            view == ms@.map_values(|m| member_view(m)),
            r@.map_values(|p: (String, String)| (p.0@, p.1@)) == string_members(view.take(i as int)),
        decreases ms.len() - i,
    {
        proof {
            assert(view.take(i + 1).drop_last() =~= view.take(i as int));
            assert(view.take(i + 1).last() == member_view(ms@[i as int]));
        }
        let ghost before = r@;
        match &ms[i].1 {
            Some(t) => {
                r.push((ms[i].0.clone(), t.clone()));
                proof {
                    assert(r@.map_values(|p: (String, String)| (p.0@, p.1@)) =~= before.map_values(
                        |p: (String, String)| (p.0@, p.1@),
                    ).push((ms@[i as int].0@, t@)));
                }
            },
            None => {},
        }
        i = i + 1;
    }
    proof {
        assert(view.take(i as int) =~= view);
    }
    r
}

/// Reads the language file of an archive (see `language_outcome`).
pub fn read_language_file(archive: &Vec<u8>) -> (r: Result<Option<(String, Vec<(String, String)>)>, ExtractError>)
    ensures
        match r {
            Ok(Some((ns, entries))) => language_outcome(archive@) == Ok::<_, ExtractError>(
                Some((ns@, entries@.map_values(|p: (String, String)| (p.0@, p.1@)))),
            ),
            Ok(None) => language_outcome(archive@) == Ok::<
                Option<(Seq<char>, Seq<(Seq<char>, Seq<char>)>)>,
                ExtractError,
            >(None),
            Err(e) => language_outcome(archive@) == Err::<
                Option<(Seq<char>, Seq<(Seq<char>, Seq<char>)>)>,
                ExtractError,
            >(e),
        },
{
    proof {
        reveal_strlit("fabric.mod.json");
        reveal_strlit("id");
        reveal_strlit("assets/");
        reveal_strlit("/lang/en_us.json");
    }
    let manifest = match read_zip_member(archive, "fabric.mod.json") {
        Err(e) => return Err(e),
        Ok(None) => return Ok(None),
        Ok(Some(m)) => m,
    };
    let namespace = match parse_json_object(&manifest) {
        None => return Ok(None),
        Some(ms) => match find_member_text(&ms, "id") {
            None => return Ok(None),
            Some(ns) => ns,
        },
    };
    let mut path = "assets/".to_owned();
    path.append(namespace.as_str());
    path.append("/lang/en_us.json");
    let text = match read_zip_member(archive, path.as_str()) {
        Err(e) => return Err(e),
        Ok(None) => return Ok(None),
        Ok(Some(t)) => t,
    };
    match parse_json_object(&text) {
        None => Err(ExtractError::MalformedLanguageFile),
        Some(ms) => Ok(Some((namespace, keep_string_members(ms)))),
    }
}

/// Reads the language file of a downloaded archive and pairs it with what the
/// archive was planned for; `Ok(None)` when the archive is skipped.
pub fn extract_archive(archive: &Vec<u8>, plan: &ModDownloadInfo) -> (r: Result<Option<ArchiveLanguage>, ExtractError>)
    ensures
        match r {
            Ok(Some(a)) => {
                &&& language_outcome(archive@) == Ok::<_, ExtractError>(
                    Some((a.namespace@, a.entries@.map_values(|p: (String, String)| (p.0@, p.1@)))),
                )
                &&& a.game_version == plan.game_version
                &&& a.loader == plan.loader
            },
            Ok(None) => language_outcome(archive@) == Ok::<
                Option<(Seq<char>, Seq<(Seq<char>, Seq<char>)>)>,
                ExtractError,
            >(None),
            Err(e) => language_outcome(archive@) == Err::<
                Option<(Seq<char>, Seq<(Seq<char>, Seq<char>)>)>,
                ExtractError,
            >(e),
        },
{
    match read_language_file(archive) {
        Err(e) => Err(e),
        Ok(None) => Ok(None),
        Ok(Some((namespace, entries))) => Ok(
            Some(
                ArchiveLanguage {
                    namespace,
                    game_version: plan.game_version,
                    loader: plan.loader,
                    entries,
                },
            ),
        ),
    }
}

/// `srcs` are the language maps of the archives that were not skipped, in
/// order, each with the game version and loader of its plan.
pub open spec fn extracted(srcs: Seq<ArchiveLanguage>, archives: Seq<Vec<u8>>, plans: Seq<ModDownloadInfo>) -> bool
    decreases archives.len(),
{
    if archives.len() == 0 {
        srcs.len() == 0
    } else {
        let k = archives.len() - 1;
        match language_outcome(archives[k]@) {
            Ok(Some((ns, entries))) => {
                &&& srcs.len() > 0
                &&& srcs.last().namespace@ == ns
                &&& srcs.last().entries@.map_values(|p: (String, String)| (p.0@, p.1@)) == entries
                &&& srcs.last().game_version == plans[k].game_version
                &&& srcs.last().loader == plans[k].loader
                &&& extracted(srcs.drop_last(), archives.drop_last(), plans)
            },
            _ => extracted(srcs, archives.drop_last(), plans),
        }
    }
}

/// Some archive is corrupt or has a malformed language file.
pub open spec fn extraction_failed(archives: Seq<Vec<u8>>) -> bool {
    exists|i: int| 0 <= i < archives.len() && language_outcome((#[trigger] archives[i])@) is Err
}

/// Reads the language file of every archive, pairing archive `i` with plan
/// `i`; skipped archives contribute nothing. Fails with the error of the first
/// archive that is corrupt or has a malformed language file.
pub fn extract_archives(archives: &Vec<Vec<u8>>, plans: &Vec<ModDownloadInfo>) -> (r: Result<Vec<ArchiveLanguage>, ExtractError>)
    requires
        archives@.len() == plans@.len(),
    ensures
        r is Err <==> extraction_failed(archives@),
        r is Err ==> exists|i: int| 0 <= i < archives@.len() && language_outcome((#[trigger] archives@[i])@) == Err::<
            Option<(Seq<char>, Seq<(Seq<char>, Seq<char>)>)>,
            ExtractError,
        >(r->Err_0),
        r is Ok ==> extracted(r->Ok_0@, archives@, plans@),
{
    let mut out: Vec<ArchiveLanguage> = Vec::new();
    let mut i: usize = 0;
    while i < archives.len()
        invariant
            archives@.len() == plans@.len(),
            0 <= i <= archives@.len(),
            forall|a: int| 0 <= a < i ==> language_outcome((#[trigger] archives@[a])@) is Ok,
            extracted(out@, archives@.take(i as int), plans@),
        decreases archives.len() - i,
    {
        proof {
            assert(archives@.take(i + 1).drop_last() =~= archives@.take(i as int));
            assert(archives@.take(i + 1)[i as int] == archives@[i as int]);
        }
        match extract_archive(&archives[i], &plans[i]) {
            Err(e) => {
                return Err(e);
            },
            Ok(None) => {},
            Ok(Some(a)) => {
                let ghost before = out@;
                out.push(a);
                proof {
                    assert(out@.drop_last() =~= before);
                }
            },
        }
        i = i + 1;
    }
    proof {
        assert(archives@.take(i as int) =~= archives@);
    }
    Ok(out)
}

/// Extracts every archive and merges the language maps of those not skipped
/// into one entry per key (see `merge_entries`).
pub fn parse_language_files(archives: &Vec<Vec<u8>>, plans: &Vec<ModDownloadInfo>) -> (r: Result<Vec<TextEntryData>, ExtractError>)
    requires
        archives@.len() == plans@.len(),
    ensures
        r is Err <==> extraction_failed(archives@),
        r is Ok ==> exists|srcs: Seq<ArchiveLanguage>| {
            &&& extracted(srcs, archives@, plans@)
            &&& distinct_keys(r->Ok_0@)
            &&& forall|k: Seq<char>|
                has_entry(r->Ok_0@, k) <==> exists|i: int|
                    0 <= i < srcs.len() && #[trigger] holds_key(srcs[i], k)
            &&& forall|a: int| 0 <= a < r->Ok_0@.len() ==> merged_entry(#[trigger] r->Ok_0@[a], srcs)
        },
{
    match extract_archives(archives, plans) {
        Err(e) => Err(e),
        Ok(srcs) => {
            let out = merge_entries(&srcs);
            proof {
                assert(extracted(srcs@, archives@, plans@));
            }
            Ok(out)
        },
    }
}

} // verus!
