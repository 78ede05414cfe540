//! Resource providers and the planning of downloads: for each pair of a
//! loader and a stable game version, the newest build that targets both and
//! the file of it to fetch.

use vstd::prelude::*;
use crate::text::{contains_text, has_text, same_text};
use crate::version::{
    is_stable, is_stable_version, semver_of, to_semver, version_le, version_less_eq, GameVersion,
    VersionError,
};

verus! {

/// The mod-loading runtime a build targets.
#[derive(Clone, Copy, Debug, PartialEq, Eq, Structural, Hash)]
pub enum ModLoader {
    Fabric,
    Forge,
    Quilt,
}

/// Where resources are looked up.
#[derive(Clone, Copy, Debug, PartialEq, Eq, Structural)]
pub enum ArchiveProvider {
    CurseForge,
    Modrinth,
}

/// The kind of provider a stored resource record refers to.
#[derive(Clone, Copy, Debug, PartialEq, Eq, Structural, Hash)]
pub enum ModProviderType {
    CurseForge,
    Modrinth,
    Custom,
}

/// Why planning the downloads of a resource failed.
#[derive(Clone, Copy, Debug, PartialEq, Eq, Structural)]
pub enum PlanError {
    /// The provider has no implementation.
    NotImplemented,
    /// Fresh random file names kept coinciding with paths already planned.
    PathCollision,
    /// A stable game version has a component that exceeds `u64::MAX`.
    Version(VersionError),
}

/// One downloadable file of a build, as the provider lists it.
#[derive(Clone, Debug)]
pub struct BuildFile {
    pub url: String,
    pub size: usize,
    pub primary: bool,
}

/// One published build of a resource, as the provider lists it.
#[derive(Clone, Debug)]
pub struct BuildInfo {
    pub loaders: Vec<String>,
    pub game_versions: Vec<String>,
    pub files: Vec<BuildFile>,
    /// Publication time, in milliseconds since the Unix epoch.
    pub published_at: i64,
}

/// A file to fetch: where from, how large, what it targets, and where to keep it.
#[derive(Clone, Debug)]
pub struct ModDownloadInfo {
    pub url: String,
    pub size: usize,
    pub loader: ModLoader,
    pub game_version: GameVersion,
    pub path: String,
}

/// What a plan entry says, apart from its generated path.
pub type PlannedFile = (Seq<char>, usize, ModLoader, GameVersion);

impl ModDownloadInfo {
    pub open spec fn planned(&self) -> PlannedFile {
        (self.url@, self.size, self.loader, self.game_version)
    }
}

impl ArchiveProvider {
    /// The provider type a stored record of this provider carries.
    pub fn to_mod_provider_type(&self) -> (r: ModProviderType)
        ensures
            *self == ArchiveProvider::CurseForge ==> r == ModProviderType::CurseForge,
            *self == ArchiveProvider::Modrinth ==> r == ModProviderType::Modrinth,
    {
        match self {
            ArchiveProvider::CurseForge => ModProviderType::CurseForge,
            ArchiveProvider::Modrinth => ModProviderType::Modrinth,
        }
    }

    pub open spec fn name_spec(&self) -> Seq<char> {
        match self {
            ArchiveProvider::CurseForge => "curseforge"@,
            ArchiveProvider::Modrinth => "modrinth"@,
        }
    }

    /// The provider's name in lower case, as it appears in task ids.
    pub fn name(&self) -> (r: &'static str)
        ensures
            r@ == self.name_spec(),
    {
        match self {
            ArchiveProvider::CurseForge => "curseforge",
            ArchiveProvider::Modrinth => "modrinth",
        }
    }

    /// Succeeds for providers whose planning is implemented; CurseForge fails
    /// explicitly instead of yielding an empty plan.
    pub fn ensure_supported(&self) -> (r: Result<(), PlanError>)
        ensures
            r is Ok <==> *self == ArchiveProvider::Modrinth,
            r is Err ==> r == Err::<(), PlanError>(PlanError::NotImplemented),
    {
        match self {
            ArchiveProvider::CurseForge => Err(PlanError::NotImplemented),
            ArchiveProvider::Modrinth => Ok(()),
        }
    }
}

/// The loader a provider's loader name stands for; unknown names have none.
pub open spec fn loader_of(name: Seq<char>) -> Option<ModLoader> {
    if name == "fabric"@ {
        Some(ModLoader::Fabric)
    } else if name == "forge"@ || name == "neoforge"@ {
        Some(ModLoader::Forge)
    } else if name == "quilt"@ {
        Some(ModLoader::Quilt)
    } else {
        None
    }
}

/// Maps a provider's loader name to a loader (`neoforge` counts as Forge).
pub fn loader_from_name(name: &str) -> (r: Option<ModLoader>)
    ensures
        r == loader_of(name@),
{
    if same_text(name, "fabric") {
        Some(ModLoader::Fabric)
    } else if same_text(name, "forge") || same_text(name, "neoforge") {
        Some(ModLoader::Forge)
    } else if same_text(name, "quilt") {
        Some(ModLoader::Quilt)
    } else {
        None
    }
}

/// The build advertises both the loader and the exact game-version string.
pub open spec fn advertises(b: BuildInfo, loader: Seq<char>, game_version: Seq<char>) -> bool {
    contains_text(b.loaders@, loader) && contains_text(b.game_versions@, game_version)
}

/// Build `k` is the newest of those advertising the pair; among equally new
/// ones it is the last in the list.
pub open spec fn is_latest(
    builds: Seq<BuildInfo>,
    loader: Seq<char>,
    game_version: Seq<char>,
    k: int,
) -> bool {
    &&& 0 <= k < builds.len()
    &&& advertises(builds[k], loader, game_version)
    &&& forall|j: int|
        0 <= j < builds.len() && #[trigger] advertises(builds[j], loader, game_version) ==> {
            &&& builds[j].published_at <= builds[k].published_at
            &&& (j > k ==> builds[j].published_at < builds[k].published_at)
        }
}

/// The index of the newest build for the pair, if any build advertises it.
pub open spec fn latest_build_spec(
    builds: Seq<BuildInfo>,
    loader: Seq<char>,
    game_version: Seq<char>,
) -> Option<int> {
    if exists|k: int| is_latest(builds, loader, game_version, k) {
        Some(choose|k: int| is_latest(builds, loader, game_version, k))
    } else {
        None
    }
}

/// At most one build is the newest for a pair.
pub proof fn lemma_latest_unique(
    builds: Seq<BuildInfo>,
    loader: Seq<char>,
    game_version: Seq<char>,
    k1: int,
    k2: int,
)
    requires
        is_latest(builds, loader, game_version, k1),
        is_latest(builds, loader, game_version, k2),
    ensures
        k1 == k2,
{
    if k1 < k2 {
        assert(advertises(builds[k2], loader, game_version));
        assert(advertises(builds[k1], loader, game_version));
    } else if k2 < k1 {
        assert(advertises(builds[k1], loader, game_version));
        assert(advertises(builds[k2], loader, game_version));
    }
}

/// Finds the newest build advertising both the loader and the game version;
/// ties go to the build listed last.
pub fn latest_build(builds: &Vec<BuildInfo>, loader: &String, game_version: &String) -> (r: Option<
    usize,
>)
    ensures
        match r {
            Some(k) => is_latest(builds@, loader@, game_version@, k as int),
            None => forall|j: int|
                0 <= j < builds@.len() ==> !#[trigger] advertises(
                    builds@[j],
                    loader@,
                    game_version@,
                ),
        },
        r == match latest_build_spec(builds@, loader@, game_version@) {
            Some(k) => Some(k as usize),
            None => None::<usize>,
        },
{
    let mut best: Option<usize> = None;
    let mut i: usize = 0;
    while i < builds.len()
        invariant
            0 <= i <= builds.len(),
            match best {
                Some(k) => {
                    &&& k < i
                    &&& advertises(builds@[k as int], loader@, game_version@)
                    &&& forall|j: int|
                        0 <= j < i && #[trigger] advertises(builds@[j], loader@, game_version@)
                            ==> {
                            &&& builds@[j].published_at <= builds@[k as int].published_at
                            &&& (j > k ==> builds@[j].published_at
                                < builds@[k as int].published_at)
                        }
                },
                None => forall|j: int|
                    0 <= j < i ==> !#[trigger] advertises(builds@[j], loader@, game_version@),
            },
        decreases builds.len() - i,
    {
        let b = &builds[i];
        if has_text(&b.loaders, loader) && has_text(&b.game_versions, game_version) {
            match best {
                Some(k) => {
                    if builds[k].published_at <= b.published_at {
                        best = Some(i);
                    }
                },
                None => {
                    best = Some(i);
                },
            }
        }
        i = i + 1;
    }
    match best {
        Some(k) => {
            proof {
                assert(is_latest(builds@, loader@, game_version@, k as int));
                let ghost kk = choose|k: int| is_latest(builds@, loader@, game_version@, k);
                lemma_latest_unique(builds@, loader@, game_version@, kk, k as int);
            }
        },
        None => {},
    }
    best
}

/// The file to fetch from a build: the first one flagged primary, or else the
/// first one; none when the build has no files.
pub open spec fn preferred_file_spec(files: Seq<BuildFile>) -> Option<int> {
    if exists|i: int| 0 <= i < files.len() && (#[trigger] files[i]).primary {
        Some(
            choose|i: int|
                0 <= i < files.len() && (#[trigger] files[i]).primary && forall|j: int|
                    0 <= j < i ==> !(#[trigger] files[j]).primary,
        )
    } else if files.len() > 0 {
        Some(0)
    } else {
        None
    }
}

/// Picks the file of a build to fetch: the first primary one, else the first.
pub fn preferred_file(files: &Vec<BuildFile>) -> (r: Option<usize>)
    ensures
        r == match preferred_file_spec(files@) {
            Some(i) => Some(i as usize),
            None => None::<usize>,
        },
        match r {
            Some(i) => i < files@.len() && (files@[i as int].primary || (i == 0 && forall|j: int|
                0 <= j < files@.len() ==> !(#[trigger] files@[j]).primary)) && forall|j: int|
                0 <= j < i ==> !(#[trigger] files@[j]).primary,
            None => files@.len() == 0,
        },
{
    let mut i: usize = 0;
    while i < files.len()
        invariant
            0 <= i <= files.len(),
            forall|j: int| 0 <= j < i ==> !(#[trigger] files@[j]).primary,
        decreases files.len() - i,
    {
        if files[i].primary {
            proof {
                let c = choose|c: int|
                    0 <= c < files@.len() && (#[trigger] files@[c]).primary && forall|j: int|
                        0 <= j < c ==> !(#[trigger] files@[j]).primary;
                assert(files@[i as int].primary);
                if c < i {
                    assert(!files@[c].primary);
                } else if c > i {
                    assert(!files@[i as int].primary);
                }
            }
            return Some(i);
        }
        i = i + 1;
    }
    if files.len() > 0 {
        Some(0)
    } else {
        None
    }
}

/// A candidate plan entry: url, size, loader, and the converted game version.
pub type PlanCandidate = (Seq<char>, usize, ModLoader, Result<GameVersion, VersionError>);

/// What the pair of a loader name and a game-version string contributes: nothing
/// when no build advertises it, the newest build has no file, or the loader is
/// unknown; else the preferred file of the newest build.
pub open spec fn pair_plan(builds: Seq<BuildInfo>, loader: Seq<char>, game_version: Seq<char>) -> Option<
    PlanCandidate,
> {
    match latest_build_spec(builds, loader, game_version) {
        None => None,
        Some(k) => match preferred_file_spec(builds[k].files@) {
            None => None,
            Some(f) => match loader_of(loader) {
                None => None,
                Some(l) => Some(
                    (
                        builds[k].files@[f].url@,
                        builds[k].files@[f].size,
                        l,
                        semver_of(game_version),
                    ),
                ),
            },
        },
    }
}

/// The candidates for one loader, over the stable game versions in order.
pub open spec fn row_plan(builds: Seq<BuildInfo>, loader: Seq<char>, versions: Seq<String>) -> Seq<
    PlanCandidate,
>
    decreases versions.len(),
{
    if versions.len() == 0 {
        seq![]
    } else {
        let rest = row_plan(builds, loader, versions.drop_last());
        let v = versions.last()@;
        if is_stable_version(v) && pair_plan(builds, loader, v) is Some {
            rest.push(pair_plan(builds, loader, v)->Some_0)
        } else {
            rest
        }
    }
}

/// The candidates for all loaders, loader by loader.
pub open spec fn full_plan(builds: Seq<BuildInfo>, loaders: Seq<String>, versions: Seq<String>) -> Seq<
    PlanCandidate,
>
    decreases loaders.len(),
{
    if loaders.len() == 0 {
        seq![]
    } else {
        full_plan(builds, loaders.drop_last(), versions) + row_plan(
            builds,
            loaders.last()@,
            versions,
        )
    }
}

/// Some candidate has a game version that could not be converted.
pub open spec fn plan_failed(plan: Seq<PlanCandidate>) -> bool {
    exists|i: int| 0 <= i < plan.len() && (#[trigger] plan[i]).3 is Err
}

/// The entries carry the candidates, one for one and in order.
pub open spec fn plan_matches(out: Seq<ModDownloadInfo>, plan: Seq<PlanCandidate>) -> bool {
    &&& out.len() == plan.len()
    &&& forall|i: int|
        0 <= i < plan.len() ==> (#[trigger] out[i]).planned() == (
            plan[i].0,
            plan[i].1,
            plan[i].2,
            plan[i].3->Ok_0,
        )
}

/// Every path lies directly under `dir`.
pub open spec fn paths_under(out: Seq<ModDownloadInfo>, dir: Seq<char>) -> bool {
    forall|i: int|
        0 <= i < out.len() ==> {
            &&& (#[trigger] out[i]).path@.len() > dir.len() + 1
            &&& out[i].path@.take(dir.len() + 1int) == dir.push('/')
        }
}

/// A file chosen for download, before it is given a path.
#[derive(Clone, Debug)]
pub struct DownloadCandidate {
    pub url: String,
    pub size: usize,
    pub loader: ModLoader,
    pub game_version: GameVersion,
}

impl DownloadCandidate {
    pub open spec fn planned(&self) -> PlannedFile {
        (self.url@, self.size, self.loader, self.game_version)
    }
}

/// The entries carry the candidates, one for one and in order.
pub open spec fn candidates_match(out: Seq<DownloadCandidate>, plan: Seq<PlanCandidate>) -> bool {
    &&& out.len() == plan.len()
    &&& forall|i: int|
        0 <= i < plan.len() ==> (#[trigger] out[i]).planned() == (
            plan[i].0,
            plan[i].1,
            plan[i].2,
            plan[i].3->Ok_0,
        )
}

/// No two entries share a path.
pub open spec fn distinct_paths(out: Seq<ModDownloadInfo>) -> bool {
    forall|a: int, b: int| 0 <= a < out.len() && 0 <= b < out.len() && a != b ==> out[a].path@ != out[b].path@
}

/// The path of the file named `name` directly under `dir`.
pub open spec fn path_in(dir: Seq<char>, name: Seq<char>) -> Seq<char> {
    dir.push('/') + name
}

/// There are at least `n` names, and the first `n` are pairwise different.
pub open spec fn names_fit(names: Seq<String>, n: int) -> bool {
    &&& names.len() >= n
    &&& forall|a: int, b: int| 0 <= a < n && 0 <= b < n && a != b ==> names[a]@ != names[b]@
}

/// Whether the first `n` names are pairwise different.
fn first_names_distinct(names: &Vec<String>, n: usize) -> (r: bool)
    requires
        n <= names@.len(),
    ensures
        r == names_fit(names@, n as int),
{
    let mut a: usize = 0;
    while a < n
        invariant
            n <= names@.len(),
            0 <= a <= n,
            forall|x: int, y: int| 0 <= x < a && 0 <= y < n && x != y ==> names@[x]@ != names@[y]@,
        decreases n - a,
    {
        let mut b: usize = 0;
        while b < n
            invariant
                n <= names@.len(),
                0 <= a < n,
                0 <= b <= n,
                forall|x: int, y: int| 0 <= x < a && 0 <= y < n && x != y ==> names@[x]@ != names@[y]@,
                forall|y: int| 0 <= y < b && a != y ==> names@[a as int]@ != names@[y]@,
            decreases n - b,
        {
            if a != b && names[a] == names[b] {
                return false;
            }
            b = b + 1;
        }
        a = a + 1;
    }
    true
}

/// Gives candidate `i` the path `dir/names[i]`. Fails with `PathCollision`
/// exactly when there are fewer names than candidates or two of the names
/// used are equal.
pub fn assign_paths(cands: &Vec<DownloadCandidate>, dir: &str, names: &Vec<String>) -> (r: Result<
    Vec<ModDownloadInfo>,
    PlanError,
>)
    ensures
        r is Ok <==> names_fit(names@, cands@.len() as int),
        r is Err ==> r == Err::<Vec<ModDownloadInfo>, PlanError>(PlanError::PathCollision),
        r is Ok ==> {
            &&& r->Ok_0@.len() == cands@.len()
            &&& forall|i: int|
                0 <= i < cands@.len() ==> (#[trigger] r->Ok_0@[i]).planned() == cands@[i].planned()
                    && r->Ok_0@[i].path@ == path_in(dir@, names@[i]@)
            &&& distinct_paths(r->Ok_0@)
        },
{
    if names.len() < cands.len() {
        return Err(PlanError::PathCollision);
    }
    if !first_names_distinct(names, cands.len()) {
        return Err(PlanError::PathCollision);
    }
    let mut out: Vec<ModDownloadInfo> = Vec::new();
    let mut i: usize = 0;
    while i < cands.len()
        invariant
            names_fit(names@, cands@.len() as int),
            0 <= i <= cands@.len(),
            out@.len() == i,
            forall|k: int|
                0 <= k < i ==> (#[trigger] out@[k]).planned() == cands@[k].planned() && out@[k].path@
                    == path_in(dir@, names@[k]@),
        decreases cands.len() - i,
    {
        let c = &cands[i];
        let mut path = dir.to_owned();
        path.append("/");
        path.append(names[i].as_str());
        proof {
            reveal_strlit("/");
            assert("/"@ =~= seq!['/']);
            assert(path@ =~= path_in(dir@, names@[i as int]@));
        }
        out.push(
            ModDownloadInfo {
                url: c.url.clone(),
                size: c.size,
                loader: c.loader,
                game_version: c.game_version,
                path,
            },
        );
        i = i + 1;
    }
    proof {
        assert forall|a: int, b: int|
            0 <= a < out@.len() && 0 <= b < out@.len() && a != b implies out@[a].path@ != out@[b].path@ by {
            let m = dir@.len() + 1int;
            assert(path_in(dir@, names@[a]@).skip(m) =~= names@[a]@);
            assert(path_in(dir@, names@[b]@).skip(m) =~= names@[b]@);
        }
    }
    Ok(out)
}

/// What planning gives for the candidates `plan`: the version error exactly
/// when a candidate's game version does not convert; otherwise one entry per
/// candidate, in order, with distinct paths under `dir`, unless two of the
/// fresh names drawn for two or more candidates coincide.
pub open spec fn plan_outcome(
    r: Result<Vec<ModDownloadInfo>, PlanError>,
    plan: Seq<PlanCandidate>,
    dir: Seq<char>,
) -> bool {
    &&& plan_failed(plan) ==> r == Err::<Vec<ModDownloadInfo>, PlanError>(
        PlanError::Version(VersionError::OutOfRange),
    )
    &&& !plan_failed(plan) && plan.len() < 2 ==> r is Ok
    &&& r is Err ==> (r == Err::<Vec<ModDownloadInfo>, PlanError>(
        PlanError::Version(VersionError::OutOfRange),
    ) && plan_failed(plan)) || (r == Err::<Vec<ModDownloadInfo>, PlanError>(PlanError::PathCollision)
        && !plan_failed(plan) && plan.len() >= 2)
    &&& r is Ok ==> {
        &&& plan_matches(r->Ok_0@, plan)
        &&& paths_under(r->Ok_0@, dir)
        &&& distinct_paths(r->Ok_0@)
    }
}

/// Relies on uuid::Uuid::new_v4 and its hyphenated `Display`: a fresh random
/// name of 36 characters.
#[verifier::external_body]
fn fresh_file_name() -> (r: String)
    ensures
        r@.len() == 36,
{
    uuid::Uuid::new_v4().to_string()
}

/// `n` fresh random names.
fn fresh_names(n: usize) -> (r: Vec<String>)
    ensures
        r@.len() == n,
        forall|i: int| 0 <= i < n ==> (#[trigger] r@[i])@.len() == 36,
{
    let mut r: Vec<String> = Vec::new();
    while r.len() < n
        invariant
            r@.len() <= n,
            forall|i: int| 0 <= i < r@.len() ==> (#[trigger] r@[i])@.len() == 36,
        decreases n - r@.len(),
    {
        r.push(fresh_file_name());
    }
    r
}

/// Chooses the files to download from the loaders and game versions a
/// resource declares and the builds it has published: for each loader (in
/// order) and each stable game version (in order), the preferred file of the
/// newest build advertising both, skipping pairs with no such build or file
/// and unknown loaders. Fails when a chosen game version has a component that
/// exceeds `u64::MAX`.
pub fn plan_candidates(
    loaders: &Vec<String>,
    game_versions: &Vec<String>,
    builds: &Vec<BuildInfo>,
) -> (r: Result<Vec<DownloadCandidate>, PlanError>)
    ensures
        r is Err <==> plan_failed(full_plan(builds@, loaders@, game_versions@)),
        r is Err ==> r == Err::<Vec<DownloadCandidate>, PlanError>(
            PlanError::Version(VersionError::OutOfRange),
        ),
        r is Ok ==> candidates_match(r->Ok_0@, full_plan(builds@, loaders@, game_versions@)),
{
    let mut out: Vec<DownloadCandidate> = Vec::new();
    let mut failed = false;
    let mut a: usize = 0;
    proof {
        assert(loaders@.take(0) =~= Seq::<String>::empty());
    }
    while a < loaders.len()
        invariant
            0 <= a <= loaders.len(),
            failed == plan_failed(full_plan(builds@, loaders@.take(a as int), game_versions@)),
            !failed ==> candidates_match(out@, full_plan(builds@, loaders@.take(a as int), game_versions@)),
        decreases loaders.len() - a,
    {
        let loader = &loaders[a];
        let ghost before = full_plan(builds@, loaders@.take(a as int), game_versions@);
        proof {
            assert(loaders@.take(a + 1).drop_last() =~= loaders@.take(a as int));
            assert(game_versions@.take(0) =~= Seq::<String>::empty());
            assert(before + row_plan(builds@, loader@, game_versions@.take(0)) =~= before);
        }
        let mut b: usize = 0;
        while b < game_versions.len()
            invariant
                0 <= a < loaders.len(),
                loader == loaders@[a as int],
                before == full_plan(builds@, loaders@.take(a as int), game_versions@),
                0 <= b <= game_versions.len(),
                failed == plan_failed(
                    before + row_plan(builds@, loader@, game_versions@.take(b as int)),
                ),
                !failed ==> candidates_match(
                    out@,
                    before + row_plan(builds@, loader@, game_versions@.take(b as int)),
                ),
            decreases game_versions.len() - b,
        {
            let version = &game_versions[b];
            let ghost prev = before + row_plan(builds@, loader@, game_versions@.take(b as int));
            proof {
                assert(game_versions@.take(b + 1).drop_last() =~= game_versions@.take(b as int));
            }
            let ghost cand = pair_plan(builds@, loader@, version@);
            let mut found: Option<(String, usize, ModLoader, Result<GameVersion, VersionError>)> = None;
            if is_stable(version.as_str()) {
                match latest_build(builds, loader, version) {
                    Some(k) => match preferred_file(&builds[k].files) {
                        Some(f) => match loader_from_name(loader.as_str()) {
                            Some(l) => {
                                let file = &builds[k].files[f];
                                found = Some((file.url.clone(), file.size, l, to_semver(version.as_str())));
                            },
                            None => {},
                        },
                        None => {},
                    },
                    None => {},
                }
            }
            match found {
                Some((url, size, l, Ok(gv))) => {
                    let ghost c = cand->Some_0;
                    proof {
                        assert(prev.push(c) =~= before + row_plan(
                            builds@,
                            loader@,
                            game_versions@.take(b + 1),
                        ));
                    }
                    if !failed {
                        {
                            out.push(DownloadCandidate { url, size, loader: l, game_version: gv });
                            proof {
                                assert forall|i: int| 0 <= i < prev.push(c).len() implies (
                                #[trigger] out@[i]).planned() == (
                                    prev.push(c)[i].0,
                                    prev.push(c)[i].1,
                                    prev.push(c)[i].2,
                                    prev.push(c)[i].3->Ok_0,
                                ) by {
                                    if i < prev.len() {
                                        assert(prev.push(c)[i] == prev[i]);
                                    }
                                }
                            }
                        }
                    }
                    proof {
                        if plan_failed(prev.push(c)) {
                            let w = choose|i: int|
                                0 <= i < prev.push(c).len() && (#[trigger] prev.push(c)[i]).3 is Err;
                            assert(prev[w] == prev.push(c)[w]);
                        }
                        if plan_failed(prev) {
                            let w = choose|i: int| 0 <= i < prev.len() && (#[trigger] prev[i]).3 is Err;
                            assert(prev.push(c)[w] == prev[w]);
                        }
                    }
                },
                Some((_, _, _, Err(_))) => {
                    failed = true;
                    proof {
                        let c = cand->Some_0;
                        assert(prev.push(c) =~= before + row_plan(
                            builds@,
                            loader@,
                            game_versions@.take(b + 1),
                        ));
                        assert(prev.push(c)[prev.len() as int].3 is Err);
                    }
                },
                None => {
                    proof {
                        assert(prev =~= before + row_plan(
                            builds@,
                            loader@,
                            game_versions@.take(b + 1),
                        ));
                    }
                },
            }
            b = b + 1;
        }
        proof {
            assert(game_versions@.take(b as int) =~= game_versions@);
        }
        a = a + 1;
    }
    proof {
        assert(loaders@.take(a as int) =~= loaders@);
    }
    if failed {
        Err(PlanError::Version(VersionError::OutOfRange))
    } else {
        Ok(out)
    }
}

/// Plans the downloads of a resource (see `plan_candidates`), giving the
/// `i`-th planned file the path `dir/names[i]`. Fails with the version error
/// as `plan_candidates` does, and otherwise with `PathCollision` exactly when
/// the names do not fit the planned files (too few, or two equal).
pub fn plan_with_names(
    loaders: &Vec<String>,
    game_versions: &Vec<String>,
    builds: &Vec<BuildInfo>,
    dir: &str,
    names: &Vec<String>,
) -> (r: Result<Vec<ModDownloadInfo>, PlanError>)
    ensures
        ({
            let p = full_plan(builds@, loaders@, game_versions@);
            &&& plan_failed(p) ==> r == Err::<Vec<ModDownloadInfo>, PlanError>(
                PlanError::Version(VersionError::OutOfRange),
            )
            &&& !plan_failed(p) ==> (r is Ok <==> names_fit(names@, p.len() as int))
            &&& !plan_failed(p) && r is Err ==> r == Err::<Vec<ModDownloadInfo>, PlanError>(
                PlanError::PathCollision,
            )
            &&& r is Ok ==> {
                &&& plan_matches(r->Ok_0@, p)
                &&& forall|i: int|
                    0 <= i < p.len() ==> (#[trigger] r->Ok_0@[i]).path@ == path_in(dir@, names@[i]@)
                &&& distinct_paths(r->Ok_0@)
            }
        }),
{
    let cands = match plan_candidates(loaders, game_versions, builds) {
        Err(e) => return Err(e),
        Ok(c) => c,
    };
    assign_paths(&cands, dir, names)
}

/// Plans the downloads of a resource (see `plan_candidates`), each under `dir`
/// with a fresh random name. Fails with the version error exactly when
/// `plan_candidates` does; with two or more planned files it may also fail
/// with `PathCollision`, when two of the fresh names coincide.
pub fn plan_downloads(
    loaders: &Vec<String>,
    game_versions: &Vec<String>,
    builds: &Vec<BuildInfo>,
    dir: &str,
) -> (r: Result<Vec<ModDownloadInfo>, PlanError>)
    ensures
        plan_outcome(r, full_plan(builds@, loaders@, game_versions@), dir@),
{
    let cands = match plan_candidates(loaders, game_versions, builds) {
        Err(e) => return Err(e),
        Ok(c) => c,
    };
    let names = fresh_names(cands.len());
    let r = assign_paths(&cands, dir, &names);
    proof {
        if cands@.len() < 2 {
            assert(names_fit(names@, cands@.len() as int));
        }
        if r is Ok {
            let out = r->Ok_0@;
            assert forall|i: int| 0 <= i < out.len() implies {
                &&& (#[trigger] out[i]).path@.len() > dir@.len() + 1
                &&& out[i].path@.take(dir@.len() + 1int) == dir@.push('/')
            } by {
                assert(path_in(dir@, names@[i]@).take(dir@.len() + 1int) =~= dir@.push('/'));
            }
        }
    }
    r
}

/// Plans the downloads of a resource at `provider` from what the provider
/// lists for it (see `plan_downloads`); CurseForge is not implemented and
/// fails without planning anything.
pub fn fetch_downloads(
    provider: &ArchiveProvider,
    loaders: &Vec<String>,
    game_versions: &Vec<String>,
    builds: &Vec<BuildInfo>,
    dir: &str,
) -> (r: Result<Vec<ModDownloadInfo>, PlanError>)
    ensures
        *provider == ArchiveProvider::CurseForge ==> r == Err::<Vec<ModDownloadInfo>, PlanError>(
            PlanError::NotImplemented,
        ),
        *provider == ArchiveProvider::Modrinth ==> {
            plan_outcome(r, full_plan(builds@, loaders@, game_versions@), dir@)
        },
{
    match provider.ensure_supported() {
        Err(e) => Err(e),
        Ok(()) => plan_downloads(loaders, game_versions, builds, dir),
    }
}

/// The entries are ordered by game version, earliest first.
pub open spec fn sorted_by_version(s: Seq<ModDownloadInfo>) -> bool {
    forall|i: int, j: int| 0 <= i < j < s.len() ==> version_le(s[i].game_version, s[j].game_version)
}

/// `r` holds the entries of `src` rearranged: entry `k` of `r` is entry
/// `perm[k]` of `src`, each taken once, and entries of equal game version
/// keep their order.
pub open spec fn stable_arrangement(perm: Seq<int>, src: Seq<ModDownloadInfo>, r: Seq<ModDownloadInfo>) -> bool {
    &&& perm.len() == r.len()
    &&& r.len() == src.len()
    &&& forall|k: int| 0 <= k < r.len() ==> 0 <= #[trigger] perm[k] < src.len() && r[k] == src[perm[k]]
    &&& forall|k: int, l: int| 0 <= k < l < r.len() ==> perm[k] != perm[l]
    &&& forall|k: int, l: int|
        0 <= k < l < r.len() && r[k].game_version == r[l].game_version ==> perm[k] < perm[l]
}

/// Orders download plans by game version, earliest first, keeping plans of
/// equal versions in the order they were given. Archives are later merged in
/// this order, so the text of the latest game version wins, and among plans of
/// one version the last one given.
pub fn sort_by_game_version(plans: Vec<ModDownloadInfo>) -> (r: Vec<ModDownloadInfo>)
    ensures
        sorted_by_version(r@),
        exists|perm: Seq<int>| stable_arrangement(perm, plans@, r@),
{
    let ghost all = plans@;
    let ghost n = plans@.len() as int;
    let mut rest = plans;
    let mut out: Vec<ModDownloadInfo> = Vec::new();
    let ghost mut perm: Seq<int> = Seq::empty();
    proof {
        assert(rest@ =~= all.subrange(0, n));
    }
    while rest.len() > 0
        invariant
            n == all.len(),
            rest@ == all.subrange(out@.len() as int, n),
            out@.len() <= n,
            perm.len() == out@.len(),
            sorted_by_version(out@),
            forall|k: int| 0 <= k < out@.len() ==> 0 <= #[trigger] perm[k] < out@.len() && out@[k] == all[perm[k]],
            forall|k: int, l: int| 0 <= k < l < out@.len() ==> perm[k] != perm[l],
            forall|k: int, l: int|
                0 <= k < l < out@.len() && out@[k].game_version == out@[l].game_version ==> perm[k] < perm[l],
        decreases rest.len(),
    {
        let ghost i = out@.len() as int;
        let x = rest.remove(0);
        proof {
            assert(x == all[i]);
            assert(rest@ =~= all.subrange(i + 1, n));
        }
        let mut p: usize = 0;
        while p < out.len() && version_less_eq(&out[p].game_version, &x.game_version)
            invariant
                0 <= p <= out@.len(),
                forall|q: int| 0 <= q < p ==> version_le(#[trigger] out@[q].game_version, x.game_version),
            decreases out.len() - p,
        {
            p = p + 1;
        }
        let ghost old_out = out@;
        let ghost old_perm = perm;
        proof {
            assert forall|q: int| p <= q < old_out.len() implies !version_le(
                #[trigger] old_out[q].game_version,
                x.game_version,
            ) by {
                assert(!version_le(old_out[p as int].game_version, x.game_version));
                if q > p {
                    assert(version_le(old_out[p as int].game_version, old_out[q].game_version));
                }
            }
        }
        out.insert(p, x);
        proof {
            perm = old_perm.insert(p as int, i);
            assert forall|k: int| 0 <= k < out@.len() implies 0 <= #[trigger] perm[k] < out@.len()
                && out@[k] == all[perm[k]] by {
                if k < p {
                    assert(out@[k] == old_out[k]);
                } else if k > p {
                    assert(out@[k] == old_out[k - 1]);
                }
            }
            assert forall|k: int, l: int| 0 <= k < l < out@.len() implies perm[k] != perm[l] by {
                if k != p && l != p {
                    let ok = if k < p { k } else { k - 1 };
                    let ol = if l < p { l } else { l - 1 };
                    assert(old_perm[ok] != old_perm[ol]);
                } else if k == p {
                    assert(old_perm[l - 1] < i);
                } else {
                    assert(old_perm[k] < i);
                }
            }
            assert forall|k: int, l: int|
                0 <= k < l < out@.len() && out@[k].game_version == out@[l].game_version implies perm[k]
                < perm[l] by {
                if k != p && l != p {
                    let ok = if k < p { k } else { k - 1 };
                    let ol = if l < p { l } else { l - 1 };
                    assert(out@[k] == old_out[ok]);
                    assert(out@[l] == old_out[ol]);
                } else if k == p {
                    assert(out@[l] == old_out[l - 1]);
                    assert(!version_le(old_out[l - 1].game_version, x.game_version));
                } else {
                    assert(old_perm[k] < i);
                }
            }
            assert forall|k: int, l: int| 0 <= k < l < out@.len() implies version_le(
                out@[k].game_version,
                out@[l].game_version,
            ) by {
                if k != p && l != p {
                    let ok = if k < p { k } else { k - 1 };
                    let ol = if l < p { l } else { l - 1 };
                    assert(out@[k] == old_out[ok]);
                    assert(out@[l] == old_out[ol]);
                } else if k == p {
                    assert(out@[l] == old_out[l - 1]);
                    assert(!version_le(old_out[l - 1].game_version, x.game_version));
                } else {
                    assert(out@[k] == old_out[k]);
                }
            }
        }
    }
    proof {
        assert(stable_arrangement(perm, all, out@));
    }
    out
}

} // verus!
