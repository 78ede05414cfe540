use rtranslator::resource::{
    assign_paths, fetch_downloads, latest_build, loader_from_name, plan_candidates, plan_downloads,
    plan_with_names, preferred_file, sort_by_game_version, ArchiveProvider, BuildFile, BuildInfo,
    DownloadCandidate, ModDownloadInfo, ModLoader, ModProviderType, PlanError,
};
use rtranslator::version::{GameVersion, VersionError};

fn s(x: &str) -> String {
    x.to_string()
}

fn file(url: &str, size: usize, primary: bool) -> BuildFile {
    BuildFile { url: s(url), size, primary }
}

fn build(loaders: &[&str], versions: &[&str], files: Vec<BuildFile>, at: i64) -> BuildInfo {
    BuildInfo {
        loaders: loaders.iter().map(|x| s(x)).collect(),
        game_versions: versions.iter().map(|x| s(x)).collect(),
        files,
        published_at: at,
    }
}

#[test]
fn loader_names_map_to_loaders() {
    assert_eq!(loader_from_name("fabric"), Some(ModLoader::Fabric));
    assert_eq!(loader_from_name("forge"), Some(ModLoader::Forge));
    assert_eq!(loader_from_name("neoforge"), Some(ModLoader::Forge));
    assert_eq!(loader_from_name("quilt"), Some(ModLoader::Quilt));
    assert_eq!(loader_from_name("liteloader"), None);
    assert_eq!(loader_from_name("Fabric"), None);
}

#[test]
fn newest_build_wins_and_ties_go_to_the_last() {
    let builds = vec![
        build(&["fabric"], &["1.20"], vec![file("a", 1, true)], 5),
        build(&["fabric"], &["1.20"], vec![file("b", 1, true)], 9),
        build(&["forge"], &["1.20"], vec![file("c", 1, true)], 20),
        build(&["fabric"], &["1.20"], vec![file("d", 1, true)], 9),
        build(&["fabric"], &["1.19"], vec![file("e", 1, true)], 30),
    ];
    assert_eq!(latest_build(&builds, &s("fabric"), &s("1.20")), Some(3));
    assert_eq!(latest_build(&builds, &s("forge"), &s("1.20")), Some(2));
    assert_eq!(latest_build(&builds, &s("quilt"), &s("1.20")), None);
    assert_eq!(latest_build(&builds, &s("fabric"), &s("1.18")), None);
}

#[test]
fn primary_file_is_preferred_over_the_first() {
    assert_eq!(preferred_file(&vec![file("a", 1, false), file("b", 2, true), file("c", 3, true)]), Some(1));
    assert_eq!(preferred_file(&vec![file("a", 1, false), file("b", 2, false)]), Some(0));
    assert_eq!(preferred_file(&vec![]), None);
}

#[test]
fn plan_has_one_entry_per_resolvable_stable_pair() {
    let loaders = vec![s("fabric"), s("forge"), s("rift")];
    let versions = vec![s("1.19.2"), s("1.20-pre1"), s("1.20")];
    let builds = vec![
        build(&["fabric", "forge"], &["1.19.2"], vec![file("u1", 10, false), file("u2", 20, true)], 1),
        build(&["fabric"], &["1.20", "1.20-pre1"], vec![file("u3", 30, false)], 2),
        build(&["forge"], &["1.20"], vec![], 3),
        build(&["rift"], &["1.19.2"], vec![file("u4", 40, true)], 4),
    ];
    let plan = plan_downloads(&loaders, &versions, &builds, "/tmp/archives").unwrap();
    let got: Vec<(String, usize, ModLoader, GameVersion)> =
        plan.iter().map(|p| (p.url.clone(), p.size, p.loader, p.game_version)).collect();
    assert_eq!(
        got,
        vec![
            (s("u2"), 20, ModLoader::Fabric, GameVersion { major: 1, minor: 19, patch: 2 }),
            (s("u3"), 30, ModLoader::Fabric, GameVersion { major: 1, minor: 20, patch: 0 }),
            (s("u2"), 20, ModLoader::Forge, GameVersion { major: 1, minor: 19, patch: 2 }),
        ]
    );
    for p in &plan {
        assert!(p.path.starts_with("/tmp/archives/"));
        assert!(p.path.len() > "/tmp/archives/".len());
    }
    assert_ne!(plan[0].path, plan[2].path);
}

#[test]
fn plan_fails_on_an_oversized_planned_version() {
    let loaders = vec![s("fabric")];
    let versions = vec![s("99999999999999999999.1")];
    let builds = vec![build(&["fabric"], &["99999999999999999999.1"], vec![file("u", 1, true)], 1)];
    assert_eq!(
        plan_downloads(&loaders, &versions, &builds, "d").unwrap_err(),
        PlanError::Version(VersionError::OutOfRange)
    );
}

#[test]
fn curseforge_fails_explicitly() {
    let loaders = vec![s("fabric")];
    let versions = vec![s("1.20")];
    let builds = vec![build(&["fabric"], &["1.20"], vec![file("u", 1, true)], 1)];
    assert_eq!(
        fetch_downloads(&ArchiveProvider::CurseForge, &loaders, &versions, &builds, "d").unwrap_err(),
        PlanError::NotImplemented
    );
    assert_eq!(
        fetch_downloads(&ArchiveProvider::Modrinth, &loaders, &versions, &builds, "d").unwrap().len(),
        1
    );
    assert_eq!(ArchiveProvider::Modrinth.to_mod_provider_type(), ModProviderType::Modrinth);
    assert_eq!(ArchiveProvider::CurseForge.to_mod_provider_type(), ModProviderType::CurseForge);
    assert_eq!(ArchiveProvider::Modrinth.name(), "modrinth");
}

fn plan_of(url: &str, major: u64, minor: u64, patch: u64) -> ModDownloadInfo {
    ModDownloadInfo {
        url: s(url),
        size: 1,
        loader: ModLoader::Fabric,
        game_version: GameVersion { major, minor, patch },
        path: s(url),
    }
}

#[test]
fn plans_sort_by_game_version_stably() {
    let plans = vec![
        plan_of("a", 1, 20, 0),
        plan_of("b", 1, 19, 2),
        plan_of("c", 1, 20, 0),
        plan_of("d", 1, 8, 9),
        plan_of("e", 1, 19, 2),
    ];
    let sorted = sort_by_game_version(plans);
    let urls: Vec<&str> = sorted.iter().map(|p| p.url.as_str()).collect();
    assert_eq!(urls, vec!["d", "b", "e", "a", "c"]);
    assert!(sort_by_game_version(vec![]).is_empty());
}

fn two_file_listing() -> (Vec<String>, Vec<String>, Vec<BuildInfo>) {
    (
        vec![s("quilt")],
        vec![s("1.20.1"), s("1.19")],
        vec![
            build(&["quilt"], &["1.20.1"], vec![file("a", 5, true)], 1),
            build(&["quilt"], &["1.19"], vec![file("b", 6, false)], 2),
        ],
    )
}

#[test]
fn named_plan_uses_the_given_names() {
    let (loaders, versions, builds) = two_file_listing();
    let plan = plan_with_names(&loaders, &versions, &builds, "/stage", &vec![s("n1"), s("n2"), s("spare")]).unwrap();
    let got: Vec<(&str, &str)> = plan.iter().map(|p| (p.url.as_str(), p.path.as_str())).collect();
    assert_eq!(got, vec![("a", "/stage/n1"), ("b", "/stage/n2")]);
}

#[test]
fn named_plan_rejects_repeated_or_missing_names() {
    let (loaders, versions, builds) = two_file_listing();
    assert_eq!(
        plan_with_names(&loaders, &versions, &builds, "/stage", &vec![s("n"), s("n")]).unwrap_err(),
        PlanError::PathCollision
    );
    assert_eq!(
        plan_with_names(&loaders, &versions, &builds, "/stage", &vec![s("n")]).unwrap_err(),
        PlanError::PathCollision
    );
    let none: Vec<String> = vec![];
    assert!(plan_with_names(&vec![s("quilt")], &vec![s("1.21")], &builds, "/stage", &none).unwrap().is_empty());
}

#[test]
fn candidates_have_no_paths_yet() {
    let (loaders, versions, builds) = two_file_listing();
    let c = plan_candidates(&loaders, &versions, &builds).unwrap();
    assert_eq!(c.len(), 2);
    assert_eq!((c[0].url.as_str(), c[0].size), ("a", 5));
    assert_eq!(c[1].game_version, GameVersion { major: 1, minor: 19, patch: 0 });
}

#[test]
fn paths_are_assigned_in_order() {
    let cands = vec![DownloadCandidate {
        url: s("u"),
        size: 3,
        loader: ModLoader::Forge,
        game_version: GameVersion { major: 1, minor: 7, patch: 10 },
    }];
    let out = assign_paths(&cands, "d", &vec![s("x")]).unwrap();
    assert_eq!(out[0].path, "d/x");
    assert_eq!(out[0].url, "u");
    assert_eq!(assign_paths(&cands, "d", &vec![]).unwrap_err(), PlanError::PathCollision);
}

#[test]
fn fresh_names_are_uuid_sized() {
    let (loaders, versions, builds) = two_file_listing();
    let plan = plan_downloads(&loaders, &versions, &builds, "/stage").unwrap();
    for p in &plan {
        assert_eq!(p.path.len(), "/stage/".len() + 36);
    }
    assert_ne!(plan[0].path, plan[1].path);
}
