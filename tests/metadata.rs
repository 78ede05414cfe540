use rtranslator::metadata::{ModMetadata, ProviderPages, ProviderRecord};
use rtranslator::persist::ModStatus;
use rtranslator::resource::ModProviderType;

fn record(t: ModProviderType, name: &str, page: &str) -> ProviderRecord {
    ProviderRecord {
        provider_type: t,
        display_name: name.to_string(),
        description: format!("about {}", name),
        image_url: Some(format!("{}.png", name)),
        page_url: page.to_string(),
    }
}

#[test]
fn newest_record_describes_the_resource() {
    let providers = vec![
        record(ModProviderType::Modrinth, "newest", "m1"),
        record(ModProviderType::CurseForge, "older", "c1"),
        record(ModProviderType::Modrinth, "oldest", "m2"),
    ];
    let m = ModMetadata::from_model(4, ModStatus::Normal, None, &providers).unwrap();
    assert_eq!(m.id, 4);
    assert_eq!(m.name, "newest");
    assert_eq!(m.description, "about newest");
    assert_eq!(m.image_url.as_deref(), Some("newest.png"));
    assert_eq!(m.page_url.modrinth.as_deref(), Some("m2"));
    assert_eq!(m.page_url.curseforge.as_deref(), Some("c1"));
    assert_eq!(m.page_url.custom, None);
}

#[test]
fn own_name_is_kept() {
    let providers = vec![record(ModProviderType::Custom, "p", "x")];
    let m = ModMetadata::from_model(1, ModStatus::MissingEntries, Some(String::from("Mine")), &providers).unwrap();
    assert_eq!(m.name, "Mine");
    assert_eq!(m.status, ModStatus::MissingEntries);
}

#[test]
fn no_records_no_metadata() {
    assert!(ModMetadata::from_model(1, ModStatus::Normal, None, &vec![]).is_none());
    let pages = ProviderPages::from_records(&vec![]);
    assert!(pages.curseforge.is_none() && pages.modrinth.is_none() && pages.custom.is_none());
}
