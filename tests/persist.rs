use rtranslator::archive_search::{search_offset, ArchiveResourceInfo};
use rtranslator::config::ServerConfig;
use rtranslator::merge::TextEntryData;
use rtranslator::mod_search::{
    page_count, page_offset, page_or_first, MinecraftModInfo, TextEntry, ENTRIES_PAGE_SIZE, MODS_PAGE_SIZE,
};
use rtranslator::persist::{mod_status_for, modrinth_page_url, to_row, ModStatus};
use rtranslator::resource::ModLoader;
use rtranslator::version::GameVersion;

#[test]
fn rows_write_versions_as_text() {
    let entry = TextEntryData {
        key: String::from("item.x"),
        value: String::from("X"),
        namespaces: vec![String::from("m")],
        game_versions: vec![
            GameVersion { major: 1, minor: 20, patch: 0 },
            GameVersion { major: 1, minor: 19, patch: 4 },
        ],
        loaders: vec![ModLoader::Fabric, ModLoader::Quilt],
    };
    let row = to_row(entry, 3);
    assert_eq!(row.key, "item.x");
    assert_eq!(row.value, "X");
    assert_eq!(row.namespaces, vec![String::from("m")]);
    assert_eq!(row.game_versions, vec![String::from("1.20.0"), String::from("1.19.4")]);
    assert_eq!(row.loaders, vec![ModLoader::Fabric, ModLoader::Quilt]);
    assert_eq!(row.mod_id, 3);
}

#[test]
fn status_reflects_missing_entries() {
    assert_eq!(mod_status_for(0), ModStatus::MissingEntries);
    assert_eq!(mod_status_for(12), ModStatus::Normal);
}

#[test]
fn modrinth_pages() {
    assert_eq!(modrinth_page_url("AANobbMI"), "https://modrinth.com/mod/AANobbMI");
    let info = ArchiveResourceInfo::from_modrinth_hit(
        String::from("P7dR8mSH"),
        String::from("Fabric API"),
        String::from("Core library"),
        None,
        true,
    );
    assert_eq!(info.identifier.as_deref(), Some("P7dR8mSH"));
    assert_eq!(info.page_url, "https://modrinth.com/mod/P7dR8mSH");
    assert!(info.included_in_database);
    let hit = MinecraftModInfo::from_modrinth_hit("abc", String::from("T"), String::from("D"), Some(String::from("i")));
    assert_eq!(hit.page_url, "https://modrinth.com/mod/abc");
    assert!(!hit.included_in_database);
}

#[test]
fn search_pages() {
    assert_eq!(search_offset(None), Some(0));
    assert_eq!(search_offset(Some(3)), Some(30));
    assert_eq!(search_offset(Some(usize::MAX)), None);
    assert_eq!(page_or_first(None), 0);
    assert_eq!(page_or_first(Some(4)), 4);
    let e = TextEntry::without_preview(String::from("k"), String::from("v"));
    assert_eq!(e.preview_translation, None);
}

#[test]
fn default_config() {
    let c = ServerConfig::default();
    assert_eq!(c.port, 8080);
    assert_eq!(c.database_url, "sqlite::memory:");
    assert_eq!(c.max_simultaneous_downloads, 10);
}

#[test]
fn pages_round_up() {
    assert_eq!(page_count(0, MODS_PAGE_SIZE), 0);
    assert_eq!(page_count(10, MODS_PAGE_SIZE), 1);
    assert_eq!(page_count(11, MODS_PAGE_SIZE), 2);
    assert_eq!(page_count(31, ENTRIES_PAGE_SIZE), 3);
    assert_eq!(page_count(u64::MAX, 2), u64::MAX / 2 + 1);
    assert_eq!(page_offset(2, ENTRIES_PAGE_SIZE), Some(30));
    assert_eq!(page_offset(u64::MAX, 2), None);
}
