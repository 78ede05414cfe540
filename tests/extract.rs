use std::io::Write;

use rtranslator::extract::{extract_archive, parse_language_files, read_language_file, ExtractError};
use rtranslator::resource::{ModDownloadInfo, ModLoader};
use rtranslator::version::GameVersion;

fn zip_of(files: &[(&str, &str)]) -> Vec<u8> {
    let mut w = zip::ZipWriter::new(std::io::Cursor::new(Vec::new()));
    let options = zip::write::SimpleFileOptions::default()
        .compression_method(zip::CompressionMethod::Stored);
    for (name, text) in files {
        w.start_file(*name, options).unwrap();
        w.write_all(text.as_bytes()).unwrap();
    }
    w.finish().unwrap().into_inner()
}

fn plan(minor: u64, loader: ModLoader) -> ModDownloadInfo {
    ModDownloadInfo {
        url: String::from("u"),
        size: 1,
        loader,
        game_version: GameVersion { major: 1, minor, patch: 0 },
        path: String::from("p"),
    }
}

#[test]
fn archive_without_manifest_is_skipped() {
    let archive = zip_of(&[("assets/x/lang/en_us.json", r#"{"a":"b"}"#), ("mods.toml", "x")]);
    assert_eq!(read_language_file(&archive), Ok(None));
    let out = parse_language_files(&vec![archive], &vec![plan(20, ModLoader::Forge)]).unwrap();
    assert!(out.is_empty());
}

#[test]
fn language_file_keeps_string_members() {
    let archive = zip_of(&[
        ("fabric.mod.json", r#"{"schemaVersion":1,"id":"examplemod","version":"1.0"}"#),
        (
            "assets/examplemod/lang/en_us.json",
            r#"{"item.a":"Apple","n":3,"arr":[1],"obj":{"x":"y"},"nul":null,"block.b":"Box"}"#,
        ),
    ]);
    let (ns, mut entries) = read_language_file(&archive).unwrap().unwrap();
    assert_eq!(ns, "examplemod");
    entries.sort();
    assert_eq!(
        entries,
        vec![
            (String::from("block.b"), String::from("Box")),
            (String::from("item.a"), String::from("Apple"))
        ]
    );
    let lang = extract_archive(&archive, &plan(19, ModLoader::Fabric)).unwrap().unwrap();
    assert_eq!(lang.namespace, "examplemod");
    assert_eq!(lang.game_version, GameVersion { major: 1, minor: 19, patch: 0 });
    assert_eq!(lang.loader, ModLoader::Fabric);
}

#[test]
fn duplicate_json_keys_keep_the_last() {
    let archive = zip_of(&[
        ("fabric.mod.json", r#"{"id":"m"}"#),
        ("assets/m/lang/en_us.json", r#"{"k":"first","k":"second"}"#),
    ]);
    let (_, entries) = read_language_file(&archive).unwrap().unwrap();
    assert_eq!(entries, vec![(String::from("k"), String::from("second"))]);
}

#[test]
fn missing_language_file_is_skipped() {
    let archive = zip_of(&[("fabric.mod.json", r#"{"id":"m"}"#), ("assets/other/lang/en_us.json", "{}")]);
    assert_eq!(read_language_file(&archive), Ok(None));
}

#[test]
fn manifest_without_string_id_is_skipped() {
    assert_eq!(read_language_file(&zip_of(&[("fabric.mod.json", r#"{"id":5}"#)])), Ok(None));
    assert_eq!(read_language_file(&zip_of(&[("fabric.mod.json", r#"{"name":"m"}"#)])), Ok(None));
    assert_eq!(read_language_file(&zip_of(&[("fabric.mod.json", "not json")])), Ok(None));
}

#[test]
fn corrupt_archive_is_an_error() {
    assert_eq!(read_language_file(&b"definitely not a zip".to_vec()), Err(ExtractError::CorruptArchive));
    let out = parse_language_files(&vec![b"junk".to_vec()], &vec![plan(20, ModLoader::Forge)]);
    assert_eq!(out.unwrap_err(), ExtractError::CorruptArchive);
}

#[test]
fn malformed_language_file_is_an_error() {
    let archive = zip_of(&[
        ("fabric.mod.json", r#"{"id":"m"}"#),
        ("assets/m/lang/en_us.json", r#"{"k": "unterminated"#),
    ]);
    assert_eq!(read_language_file(&archive), Err(ExtractError::MalformedLanguageFile));
    let array = zip_of(&[("fabric.mod.json", r#"{"id":"m"}"#), ("assets/m/lang/en_us.json", "[1,2]")]);
    assert_eq!(read_language_file(&array), Err(ExtractError::MalformedLanguageFile));
}

#[test]
fn archives_are_merged_in_order() {
    let old = zip_of(&[
        ("fabric.mod.json", r#"{"id":"m"}"#),
        ("assets/m/lang/en_us.json", r#"{"k1":"old"}"#),
    ]);
    let skipped = zip_of(&[("readme.txt", "nothing here")]);
    let new = zip_of(&[
        ("fabric.mod.json", r#"{"id":"m"}"#),
        ("assets/m/lang/en_us.json", r#"{"k1":"new","k2":"x"}"#),
    ]);
    let out = parse_language_files(
        &vec![old, skipped, new],
        &vec![plan(18, ModLoader::Fabric), plan(19, ModLoader::Forge), plan(20, ModLoader::Quilt)],
    )
    .unwrap();
    let k1 = out.iter().find(|e| e.key == "k1").unwrap();
    assert_eq!(k1.value, "new");
    let mut versions = k1.game_versions.clone();
    versions.sort();
    assert_eq!(
        versions,
        vec![GameVersion { major: 1, minor: 18, patch: 0 }, GameVersion { major: 1, minor: 20, patch: 0 }]
    );
    let k2 = out.iter().find(|e| e.key == "k2").unwrap();
    assert_eq!(k2.loaders, vec![ModLoader::Quilt]);
}
