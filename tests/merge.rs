use rtranslator::merge::{merge_entries, ArchiveLanguage, TextEntryData};
use rtranslator::resource::ModLoader;
use rtranslator::version::GameVersion;

fn s(x: &str) -> String {
    x.to_string()
}

fn archive(ns: &str, minor: u64, loader: ModLoader, entries: &[(&str, &str)]) -> ArchiveLanguage {
    ArchiveLanguage {
        namespace: s(ns),
        game_version: GameVersion { major: 1, minor, patch: 0 },
        loader,
        entries: entries.iter().map(|(k, v)| (s(k), s(v))).collect(),
    }
}

fn entry<'a>(out: &'a [TextEntryData], key: &str) -> &'a TextEntryData {
    let found: Vec<&TextEntryData> = out.iter().filter(|e| e.key == key).collect();
    assert_eq!(found.len(), 1, "key {}", key);
    found[0]
}

fn sorted<T: Ord + Clone>(v: &[T]) -> Vec<T> {
    let mut v = v.to_vec();
    v.sort();
    v
}

#[test]
fn later_archive_wins_and_annotations_are_unions() {
    let a = archive("moda", 19, ModLoader::Fabric, &[("k1", "old")]);
    let b = archive("modb", 20, ModLoader::Forge, &[("k1", "new"), ("k2", "x")]);
    let out = merge_entries(&vec![a, b]);
    assert_eq!(out.len(), 2);
    let k1 = entry(&out, "k1");
    assert_eq!(k1.value, "new");
    assert_eq!(sorted(&k1.namespaces), vec![s("moda"), s("modb")]);
    assert_eq!(
        sorted(&k1.game_versions),
        vec![GameVersion { major: 1, minor: 19, patch: 0 }, GameVersion { major: 1, minor: 20, patch: 0 }]
    );
    assert_eq!(k1.loaders.len(), 2);
    assert!(k1.loaders.contains(&ModLoader::Fabric) && k1.loaders.contains(&ModLoader::Forge));
    let k2 = entry(&out, "k2");
    assert_eq!(k2.value, "x");
    assert_eq!(k2.namespaces, vec![s("modb")]);
    assert_eq!(k2.game_versions, vec![GameVersion { major: 1, minor: 20, patch: 0 }]);
    assert_eq!(k2.loaders, vec![ModLoader::Forge]);
}

#[test]
fn annotations_are_not_repeated() {
    let a = archive("same", 20, ModLoader::Fabric, &[("k", "1")]);
    let b = archive("same", 20, ModLoader::Fabric, &[("k", "2")]);
    let c = archive("other", 20, ModLoader::Fabric, &[("j", "3")]);
    let out = merge_entries(&vec![a, b, c]);
    let k = entry(&out, "k");
    assert_eq!(k.value, "2");
    assert_eq!(k.namespaces, vec![s("same")]);
    assert_eq!(k.game_versions.len(), 1);
    assert_eq!(k.loaders, vec![ModLoader::Fabric]);
}

#[test]
fn later_pair_in_one_file_wins() {
    let a = archive("m", 20, ModLoader::Quilt, &[("k", "first"), ("k", "second")]);
    let out = merge_entries(&vec![a]);
    assert_eq!(out.len(), 1);
    assert_eq!(entry(&out, "k").value, "second");
}

#[test]
fn earlier_value_stays_when_later_archives_lack_the_key() {
    let a = archive("m", 18, ModLoader::Forge, &[("k", "kept")]);
    let b = archive("n", 19, ModLoader::Forge, &[("other", "v")]);
    let out = merge_entries(&vec![a, b]);
    assert_eq!(entry(&out, "k").value, "kept");
    assert_eq!(entry(&out, "k").namespaces, vec![s("m")]);
}

#[test]
fn merging_nothing_gives_nothing() {
    assert!(merge_entries(&vec![]).is_empty());
    let empty = archive("m", 20, ModLoader::Fabric, &[]);
    assert!(merge_entries(&vec![empty]).is_empty());
}
