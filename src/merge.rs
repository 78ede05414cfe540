//! Merging the language maps of several archives into one entry per key.
//! The value of a key comes from the last archive holding it; its namespaces,
//! game versions and loaders collect those of every archive holding it.

use vstd::prelude::*;
use crate::resource::ModLoader;
use crate::text::contains_text;
use crate::version::GameVersion;

verus! {

/// The language map of one archive with what the archive was planned for.
#[derive(Clone, Debug)]
pub struct ArchiveLanguage {
    pub namespace: String,
    pub game_version: GameVersion,
    pub loader: ModLoader,
    /// Key and text pairs in file order; a later pair overrides an earlier one.
    pub entries: Vec<(String, String)>,
}

/// One merged translation entry.
#[derive(Clone, Debug)]
pub struct TextEntryData {
    pub key: String,
    pub value: String,
    pub namespaces: Vec<String>,
    pub game_versions: Vec<GameVersion>,
    pub loaders: Vec<ModLoader>,
}

/// The map that key and text pairs stand for, later pairs winning.
pub open spec fn lang_map(entries: Seq<(String, String)>) -> Map<Seq<char>, Seq<char>>
    decreases entries.len(),
{
    if entries.len() == 0 {
        Map::empty()
    } else {
        lang_map(entries.drop_last()).insert(entries.last().0@, entries.last().1@)
    }
}

pub open spec fn holds_key(a: ArchiveLanguage, k: Seq<char>) -> bool {
    lang_map(a.entries@).contains_key(k)
}

/// The index of the last of the first `n` archives that holds `k`, or -1.
pub open spec fn last_holding(srcs: Seq<ArchiveLanguage>, n: int, k: Seq<char>) -> int
    decreases n,
{
    if n <= 0 {
        -1
    } else if holds_key(srcs[n - 1], k) {
        n - 1
    } else {
        last_holding(srcs, n - 1, k)
    }
}

/// The merged value of `k`: its text in the last archive that holds it.
pub open spec fn merged_value(srcs: Seq<ArchiveLanguage>, k: Seq<char>) -> Seq<char> {
    lang_map(srcs[last_holding(srcs, srcs.len() as int, k)].entries@)[k]
}

/// No two strings of `v` are equal.
pub open spec fn distinct_texts(v: Seq<String>) -> bool {
    forall|a: int, b: int| 0 <= a < v.len() && 0 <= b < v.len() && a != b ==> v[a]@ != v[b]@
}

/// No two entries share a key.
pub open spec fn distinct_keys(v: Seq<TextEntryData>) -> bool {
    forall|a: int, b: int| 0 <= a < v.len() && 0 <= b < v.len() && a != b ==> v[a].key@ != v[b].key@
}

/// Some entry has key `k`.
pub open spec fn has_entry(v: Seq<TextEntryData>, k: Seq<char>) -> bool {
    exists|a: int| 0 <= a < v.len() && (#[trigger] v[a]).key@ == k
}

/// Archive `i` counts for `k` once the first `j` pairs of archive `n` are read
/// (and all archives before `n`).
pub open spec fn counted(srcs: Seq<ArchiveLanguage>, n: int, j: int, i: int, k: Seq<char>) -> bool {
    ||| (0 <= i < n && i < srcs.len() && holds_key(srcs[i], k))
    ||| (i == n && n < srcs.len() && lang_map(srcs[n].entries@.take(j)).contains_key(k))
}

/// The value of `k` at that point of reading.
pub open spec fn value_at(srcs: Seq<ArchiveLanguage>, n: int, j: int, k: Seq<char>) -> Seq<char> {
    if n < srcs.len() && lang_map(srcs[n].entries@.take(j)).contains_key(k) {
        lang_map(srcs[n].entries@.take(j))[k]
    } else {
        lang_map(srcs[last_holding(srcs, n, k)].entries@)[k]
    }
}

/// The entry gathers, for its key, the value and annotations of the archives
/// that count at that point of reading.
pub open spec fn entry_at(e: TextEntryData, srcs: Seq<ArchiveLanguage>, n: int, j: int) -> bool {
    let k = e.key@;
    &&& e.value@ == value_at(srcs, n, j, k)
    &&& distinct_texts(e.namespaces@)
    &&& e.game_versions@.no_duplicates()
    &&& e.loaders@.no_duplicates()
    &&& forall|x: Seq<char>|
        contains_text(e.namespaces@, x) <==> exists|i: int|
            #[trigger] counted(srcs, n, j, i, k) && srcs[i].namespace@ == x
    &&& forall|g: GameVersion|
        e.game_versions@.contains(g) <==> exists|i: int|
            #[trigger] counted(srcs, n, j, i, k) && srcs[i].game_version == g
    &&& forall|l: ModLoader|
        e.loaders@.contains(l) <==> exists|i: int|
            #[trigger] counted(srcs, n, j, i, k) && srcs[i].loader == l
}

/// The merged entry of its key over all archives.
pub open spec fn merged_entry(e: TextEntryData, srcs: Seq<ArchiveLanguage>) -> bool {
    let k = e.key@;
    &&& e.value@ == merged_value(srcs, k)
    &&& distinct_texts(e.namespaces@)
    &&& e.game_versions@.no_duplicates()
    &&& e.loaders@.no_duplicates()
    &&& forall|x: Seq<char>|
        contains_text(e.namespaces@, x) <==> exists|i: int|
            0 <= i < srcs.len() && #[trigger] holds_key(srcs[i], k) && srcs[i].namespace@ == x
    &&& forall|g: GameVersion|
        e.game_versions@.contains(g) <==> exists|i: int|
            0 <= i < srcs.len() && #[trigger] holds_key(srcs[i], k) && srcs[i].game_version == g
    &&& forall|l: ModLoader|
        e.loaders@.contains(l) <==> exists|i: int|
            0 <= i < srcs.len() && #[trigger] holds_key(srcs[i], k) && srcs[i].loader == l
}

/// Adds `s` to `v` unless an equal string is there.
fn add_text(v: &mut Vec<String>, s: &String)
    requires
        distinct_texts(old(v)@),
    ensures
        distinct_texts(final(v)@),
        forall|x: Seq<char>| contains_text(final(v)@, x) <==> (contains_text(old(v)@, x) || x == s@),
{
    let mut i: usize = 0;
    while i < v.len()
        invariant
            v@ == old(v)@,
            distinct_texts(v@),
            0 <= i <= v.len(),
            forall|a: int| 0 <= a < i ==> (#[trigger] v@[a])@ != s@,
        decreases v.len() - i,
    {
        if v[i] == *s {
            return;
        }
        i = i + 1;
    }
    let ghost before = v@;
    v.push(s.clone());
    proof {
        assert forall|x: Seq<char>| contains_text(v@, x) <==> (contains_text(before, x) || x == s@) by {
            if contains_text(v@, x) {
                let a = choose|a: int| 0 <= a < v@.len() && (#[trigger] v@[a])@ == x;
                if a < before.len() {
                    assert(before[a] == v@[a]);
                }
            }
            if contains_text(before, x) {
                let a = choose|a: int| 0 <= a < before.len() && (#[trigger] before[a])@ == x;
                assert(v@[a] == before[a]);
            }
            if x == s@ {
                assert(v@[before.len() as int]@ == x);
            }
        }
    }
}

/// Adds `g` to `v` unless it is there.
fn add_version(v: &mut Vec<GameVersion>, g: GameVersion)
    requires
        old(v)@.no_duplicates(),
    ensures
        final(v)@.no_duplicates(),
        forall|x: GameVersion| final(v)@.contains(x) <==> (old(v)@.contains(x) || x == g),
{
    let mut i: usize = 0;
    while i < v.len()
        invariant
            v@ == old(v)@,
            v@.no_duplicates(),
            0 <= i <= v.len(),
            forall|a: int| 0 <= a < i ==> v@[a] != g,
        decreases v.len() - i,
    {
        if v[i] == g {
            proof {
                assert(v@[i as int] == g);
            }
            return;
        }
        i = i + 1;
    }
    let ghost before = v@;
    v.push(g);
    proof {
        assert forall|x: GameVersion| v@.contains(x) <==> (before.contains(x) || x == g) by {
            if v@.contains(x) {
                let a = choose|a: int| 0 <= a < v@.len() && v@[a] == x;
                if a < before.len() {
                    assert(before[a] == v@[a]);
                }
            }
            if before.contains(x) {
                let a = choose|a: int| 0 <= a < before.len() && before[a] == x;
                assert(v@[a] == before[a]);
            }
            if x == g {
                assert(v@[before.len() as int] == x);
            }
        }
    }
}

/// Adds `ld` to `v` unless it is there.
fn add_loader(v: &mut Vec<ModLoader>, ld: ModLoader)
    requires
        old(v)@.no_duplicates(),
    ensures
        final(v)@.no_duplicates(),
        old(v)@.contains(ld) ==> final(v)@ == old(v)@,
        !old(v)@.contains(ld) ==> final(v)@ == old(v)@.push(ld),
{
    let mut found = false;
    let mut i: usize = 0;
    while i < v.len()
        invariant
            v@ == old(v)@,
            0 <= i <= v.len(),
            found <==> exists|a: int| 0 <= a < i && v@[a] == ld,
        decreases v.len() - i,
    {
        if v[i] == ld {
            found = true;
        }
        i = i + 1;
    }
    if !found {
        v.push(ld);
    }
}

/// The index of the entry with key `k`, if there is one.
fn find_entry(out: &Vec<TextEntryData>, k: &String) -> (r: Option<usize>)
    ensures
        match r {
            Some(a) => a < out@.len() && out@[a as int].key@ == k@,
            None => !has_entry(out@, k@),
        },
{
    let mut i: usize = 0;
    while i < out.len()
        invariant
            0 <= i <= out.len(),
            forall|a: int| 0 <= a < i ==> (#[trigger] out@[a]).key@ != k@,
        decreases out.len() - i,
    {
        if out[i].key == *k {
            return Some(i);
        }
        i = i + 1;
    }
    None
}

/// `f` is `e` after observing the key with `value` in an archive of namespace
/// `ns`, game version `gv` and loader `ld`.
pub open spec fn observed(
    e: TextEntryData,
    f: TextEntryData,
    value: Seq<char>,
    ns: Seq<char>,
    gv: GameVersion,
    ld: ModLoader,
) -> bool {
    &&& f.key@ == e.key@
    &&& f.value@ == value
    &&& distinct_texts(f.namespaces@)
    &&& forall|x: Seq<char>|
        contains_text(f.namespaces@, x) <==> (contains_text(e.namespaces@, x) || x == ns)
    &&& f.game_versions@.no_duplicates()
    &&& forall|g: GameVersion| f.game_versions@.contains(g) <==> (e.game_versions@.contains(g) || g == gv)
    &&& f.loaders@.no_duplicates()
    &&& forall|l: ModLoader| f.loaders@.contains(l) <==> (e.loaders@.contains(l) || l == ld)
}

/// The annotation lists hold no duplicates.
pub open spec fn sets_ok(e: TextEntryData) -> bool {
    &&& distinct_texts(e.namespaces@)
    &&& e.game_versions@.no_duplicates()
    &&& e.loaders@.no_duplicates()
}

/// An entry for `k` with no value and no annotations yet.
pub open spec fn blank(e: TextEntryData, k: Seq<char>) -> bool {
    &&& e.key@ == k
    &&& e.namespaces@.len() == 0
    &&& e.game_versions@.len() == 0
    &&& e.loaders@.len() == 0
}

/// Records one key and text of an archive: the entry of the key (added at the
/// end when missing) takes the text and the archive's annotations.
fn observe(
    out: &mut Vec<TextEntryData>,
    key: &String,
    value: &String,
    ns: &String,
    gv: GameVersion,
    ld: ModLoader,
)
    requires
        distinct_keys(old(out)@),
        forall|a: int| 0 <= a < old(out)@.len() ==> sets_ok(#[trigger] old(out)@[a]),
    ensures
        distinct_keys(final(out)@),
        final(out)@.len() == old(out)@.len() + if has_entry(old(out)@, key@) {
            0int
        } else {
            1int
        },
        forall|a: int|
            0 <= a < old(out)@.len() && (#[trigger] old(out)@[a]).key@ != key@ ==> final(out)@[a]
                == old(out)@[a],
        forall|a: int|
            0 <= a < old(out)@.len() && (#[trigger] old(out)@[a]).key@ == key@ ==> observed(
                old(out)@[a],
                final(out)@[a],
                value@,
                ns@,
                gv,
                ld,
            ),
        !has_entry(old(out)@, key@) ==> exists|e: TextEntryData|
            blank(e, key@) && observed(
                e,
                final(out)@[old(out)@.len() as int],
                value@,
                ns@,
                gv,
                ld,
            ),
{
    let ghost before = out@;
    let idx = match find_entry(out, key) {
        Some(a) => a,
        None => {
            out.push(
                TextEntryData {
                    key: key.clone(),
                    value: String::new(),
                    namespaces: Vec::new(),
                    game_versions: Vec::new(),
                    loaders: Vec::new(),
                },
            );
            out.len() - 1
        },
    };
    let ghost mid = out@;
    let ghost e = out@[idx as int];
    proof {
        assert(sets_ok(e));
    }
    out[idx].value = value.clone();
    add_text(&mut out[idx].namespaces, ns);
    add_version(&mut out[idx].game_versions, gv);
    add_loader(&mut out[idx].loaders, ld);
    proof {
        let f = out@[idx as int];
        assert forall|l: ModLoader| f.loaders@.contains(l) <==> (e.loaders@.contains(l) || l == ld) by {
            if e.loaders@.contains(ld) {
            } else {
                assert(f.loaders@ == e.loaders@.push(ld));
                if f.loaders@.contains(l) {
                    let a = choose|a: int| 0 <= a < f.loaders@.len() && f.loaders@[a] == l;
                    if a < e.loaders@.len() {
                        assert(e.loaders@[a] == l);
                    }
                }
                if e.loaders@.contains(l) {
                    let a = choose|a: int| 0 <= a < e.loaders@.len() && e.loaders@[a] == l;
                    assert(f.loaders@[a] == l);
                }
                if l == ld {
                    assert(f.loaders@[e.loaders@.len() as int] == l);
                }
            }
        }
        assert(observed(e, f, value@, ns@, gv, ld));
        assert forall|a: int, b: int|
            0 <= a < out@.len() && 0 <= b < out@.len() && a != b implies out@[a].key@
            != out@[b].key@ by {
            assert(out@[a].key@ == mid[a].key@);
            assert(out@[b].key@ == mid[b].key@);
        }
        if !has_entry(before, key@) {
            assert(blank(e, key@));
        }
    }
}

/// The state of merging after the first `j` pairs of archive `n`.
pub open spec fn merge_state(out: Seq<TextEntryData>, srcs: Seq<ArchiveLanguage>, n: int, j: int) -> bool {
    &&& distinct_keys(out)
    &&& forall|k: Seq<char>| has_entry(out, k) <==> exists|i: int| #[trigger] counted(srcs, n, j, i, k)
    &&& forall|a: int| 0 <= a < out.len() ==> entry_at(#[trigger] out[a], srcs, n, j)
}

/// Reading one more pair of archive `n` only concerns its key, which archive
/// `n` then holds with that pair's text.
proof fn lemma_read_pair(srcs: Seq<ArchiveLanguage>, n: int, j: int, k: Seq<char>)
    requires
        0 <= n < srcs.len(),
        0 <= j < srcs[n].entries@.len(),
    ensures
        ({
            let key = srcs[n].entries@[j].0@;
            &&& k != key ==> value_at(srcs, n, j + 1, k) == value_at(srcs, n, j, k)
            &&& k == key ==> value_at(srcs, n, j + 1, k) == srcs[n].entries@[j].1@
            &&& forall|i: int|
                #![trigger counted(srcs, n, j + 1, i, k)]
                #![trigger counted(srcs, n, j, i, k)]
                counted(srcs, n, j + 1, i, k) <==> (counted(srcs, n, j, i, k) || (i == n && k
                    == key))
        }),
{
    let es = srcs[n].entries@;
    assert(es.take(j + 1).drop_last() =~= es.take(j));
    assert(es.take(j + 1).last() == es[j]);
}

proof fn lemma_observe_step(
    srcs: Seq<ArchiveLanguage>,
    n: int,
    j: int,
    prev: Seq<TextEntryData>,
    out: Seq<TextEntryData>,
)
    requires
        0 <= n < srcs.len(),
        0 <= j < srcs[n].entries@.len(),
        merge_state(prev, srcs, n, j),
        ({
            let key = srcs[n].entries@[j].0@;
            let value = srcs[n].entries@[j].1@;
            let ns = srcs[n].namespace@;
            let gv = srcs[n].game_version;
            let ld = srcs[n].loader;
            &&& distinct_keys(out)
            &&& out.len() == prev.len() + if has_entry(prev, key) {
                0int
            } else {
                1int
            }
            &&& forall|a: int|
                0 <= a < prev.len() && (#[trigger] prev[a]).key@ != key ==> out[a] == prev[a]
            &&& forall|a: int|
                0 <= a < prev.len() && (#[trigger] prev[a]).key@ == key ==> observed(
                    prev[a],
                    out[a],
                    value,
                    ns,
                    gv,
                    ld,
                )
            &&& !has_entry(prev, key) ==> exists|e: TextEntryData|
                blank(e, key) && observed(e, out[prev.len() as int], value, ns, gv, ld)
        }),
    ensures
        merge_state(out, srcs, n, j + 1),
{
    let key = srcs[n].entries@[j].0@;
    let value = srcs[n].entries@[j].1@;
    let ns = srcs[n].namespace@;
    let gv = srcs[n].game_version;
    let ld = srcs[n].loader;
    assert forall|k: Seq<char>| has_entry(out, k) <==> exists|i: int| #[trigger] counted(srcs, n, j + 1, i, k) by {
        lemma_read_pair(srcs, n, j, k);
        if has_entry(out, k) {
            let a = choose|a: int| 0 <= a < out.len() && (#[trigger] out[a]).key@ == k;
            if a < prev.len() {
                assert(out[a].key@ == prev[a].key@);
                assert(has_entry(prev, k));
                let i = choose|i: int| #[trigger] counted(srcs, n, j, i, k);
                assert(counted(srcs, n, j + 1, i, k));
            } else {
                let e = choose|e: TextEntryData|
                    blank(e, key) && observed(e, out[prev.len() as int], value, ns, gv, ld);
                assert(k == key);
                assert(counted(srcs, n, j + 1, n, k));
            }
        }
        if exists|i: int| #[trigger] counted(srcs, n, j + 1, i, k) {
            let i = choose|i: int| #[trigger] counted(srcs, n, j + 1, i, k);
            if counted(srcs, n, j, i, k) {
                assert(has_entry(prev, k));
                let a = choose|a: int| 0 <= a < prev.len() && (#[trigger] prev[a]).key@ == k;
                if k == key {
                    assert(out[a].key@ == k);
                } else {
                    assert(out[a] == prev[a]);
                }
            } else {
                assert(k == key);
                if has_entry(prev, k) {
                    let a = choose|a: int| 0 <= a < prev.len() && (#[trigger] prev[a]).key@ == k;
                    assert(out[a].key@ == k);
                } else {
                    let e = choose|e: TextEntryData|
                        blank(e, key) && observed(e, out[prev.len() as int], value, ns, gv, ld);
                    assert(out[prev.len() as int].key@ == k);
                }
            }
        }
    }
    assert forall|a: int| 0 <= a < out.len() implies entry_at(#[trigger] out[a], srcs, n, j + 1) by {
        let k = out[a].key@;
        lemma_read_pair(srcs, n, j, k);
        if a < prev.len() {
            let p = prev[a];
            assert(entry_at(p, srcs, n, j));
            if p.key@ != key {
                assert(out[a] == p);
            } else {
                assert(observed(p, out[a], value, ns, gv, ld));
                let f = out[a];
                assert forall|x: Seq<char>|
                    contains_text(f.namespaces@, x) <==> exists|i: int|
                        #[trigger] counted(srcs, n, j + 1, i, k) && srcs[i].namespace@ == x by {
                    if x == ns {
                        assert(counted(srcs, n, j + 1, n, k));
                    }
                    if contains_text(p.namespaces@, x) {
                        let i = choose|i: int| #[trigger] counted(srcs, n, j, i, k) && srcs[i].namespace@ == x;
                        assert(counted(srcs, n, j + 1, i, k));
                    }
                    if exists|i: int| #[trigger] counted(srcs, n, j + 1, i, k) && srcs[i].namespace@ == x {
                        let i = choose|i: int| #[trigger] counted(srcs, n, j + 1, i, k) && srcs[i].namespace@ == x;
                        if i != n || counted(srcs, n, j, i, k) {
                            assert(counted(srcs, n, j, i, k));
                        }
                    }
                }
                assert forall|g: GameVersion|
                    f.game_versions@.contains(g) <==> exists|i: int|
                        #[trigger] counted(srcs, n, j + 1, i, k) && srcs[i].game_version == g by {
                    if g == gv {
                        assert(counted(srcs, n, j + 1, n, k));
                    }
                    if p.game_versions@.contains(g) {
                        let i = choose|i: int| #[trigger] counted(srcs, n, j, i, k) && srcs[i].game_version == g;
                        assert(counted(srcs, n, j + 1, i, k));
                    }
                    if exists|i: int| #[trigger] counted(srcs, n, j + 1, i, k) && srcs[i].game_version == g {
                        let i = choose|i: int| #[trigger] counted(srcs, n, j + 1, i, k) && srcs[i].game_version == g;
                        if i != n || counted(srcs, n, j, i, k) {
                            assert(counted(srcs, n, j, i, k));
                        }
                    }
                }
                assert forall|l: ModLoader|
                    f.loaders@.contains(l) <==> exists|i: int|
                        #[trigger] counted(srcs, n, j + 1, i, k) && srcs[i].loader == l by {
                    if l == ld {
                        assert(counted(srcs, n, j + 1, n, k));
                    }
                    if p.loaders@.contains(l) {
                        let i = choose|i: int| #[trigger] counted(srcs, n, j, i, k) && srcs[i].loader == l;
                        assert(counted(srcs, n, j + 1, i, k));
                    }
                    if exists|i: int| #[trigger] counted(srcs, n, j + 1, i, k) && srcs[i].loader == l {
                        let i = choose|i: int| #[trigger] counted(srcs, n, j + 1, i, k) && srcs[i].loader == l;
                        if i != n || counted(srcs, n, j, i, k) {
                            assert(counted(srcs, n, j, i, k));
                        }
                    }
                }
            }
        } else {
            let e = choose|e: TextEntryData|
                blank(e, key) && observed(e, out[prev.len() as int], value, ns, gv, ld);
            let f = out[a];
            assert(k == key);
            assert(!has_entry(prev, key));
            assert forall|i: int| !#[trigger] counted(srcs, n, j, i, k) by {}
            assert forall|x: Seq<char>|
                contains_text(f.namespaces@, x) <==> exists|i: int|
                    #[trigger] counted(srcs, n, j + 1, i, k) && srcs[i].namespace@ == x by {
                if x == ns {
                    assert(counted(srcs, n, j + 1, n, k));
                }
                if contains_text(e.namespaces@, x) {
                    let b = choose|b: int| 0 <= b < e.namespaces@.len() && (#[trigger] e.namespaces@[b])@ == x;
                }
            }
            assert forall|g: GameVersion|
                f.game_versions@.contains(g) <==> exists|i: int|
                    #[trigger] counted(srcs, n, j + 1, i, k) && srcs[i].game_version == g by {
                if g == gv {
                    assert(counted(srcs, n, j + 1, n, k));
                }
            }
            assert forall|l: ModLoader|
                f.loaders@.contains(l) <==> exists|i: int|
                    #[trigger] counted(srcs, n, j + 1, i, k) && srcs[i].loader == l by {
                if l == ld {
                    assert(counted(srcs, n, j + 1, n, k));
                }
            }
        }
    }
}

/// Having read all pairs of archive `n` is having read none of archive `n + 1`.
proof fn lemma_next_archive(srcs: Seq<ArchiveLanguage>, n: int, out: Seq<TextEntryData>)
    requires
        0 <= n < srcs.len(),
        merge_state(out, srcs, n, srcs[n].entries@.len() as int),
    ensures
        merge_state(out, srcs, n + 1, 0),
{
    let len = srcs[n].entries@.len() as int;
    assert(srcs[n].entries@.take(len) =~= srcs[n].entries@);
    if n + 1 < srcs.len() {
        assert(srcs[n + 1].entries@.take(0) =~= Seq::<(String, String)>::empty());
    }
    assert forall|k: Seq<char>, i: int|
        #![trigger counted(srcs, n + 1, 0, i, k)]
        #![trigger counted(srcs, n, len, i, k)]
        counted(srcs, n + 1, 0, i, k) == counted(srcs, n, len, i, k) by {}
    assert forall|k: Seq<char>| value_at(srcs, n + 1, 0, k) == value_at(srcs, n, len, k) by {}
    assert forall|a: int| 0 <= a < out.len() implies entry_at(#[trigger] out[a], srcs, n + 1, 0) by {
        assert(entry_at(out[a], srcs, n, len));
    }
}

/// Having read every archive, each entry is the merged entry of its key.
proof fn lemma_merge_done(srcs: Seq<ArchiveLanguage>, out: Seq<TextEntryData>)
    requires
        merge_state(out, srcs, srcs.len() as int, 0),
    ensures
        forall|k: Seq<char>|
            has_entry(out, k) <==> exists|i: int|
                0 <= i < srcs.len() && #[trigger] holds_key(srcs[i], k),
        forall|a: int| 0 <= a < out.len() ==> merged_entry(#[trigger] out[a], srcs),
{
    let n = srcs.len() as int;
    assert forall|k: Seq<char>, i: int|
        #[trigger] counted(srcs, n, 0, i, k) == (0 <= i < n && holds_key(srcs[i], k)) by {}
    assert forall|k: Seq<char>|
        has_entry(out, k) <==> exists|i: int| 0 <= i < srcs.len() && #[trigger] holds_key(srcs[i], k) by {
        if has_entry(out, k) {
            let i = choose|i: int| #[trigger] counted(srcs, n, 0, i, k);
            assert(holds_key(srcs[i], k));
        }
        if exists|i: int| 0 <= i < srcs.len() && #[trigger] holds_key(srcs[i], k) {
            let i = choose|i: int| 0 <= i < srcs.len() && #[trigger] holds_key(srcs[i], k);
            assert(counted(srcs, n, 0, i, k));
        }
    }
    assert forall|a: int| 0 <= a < out.len() implies merged_entry(#[trigger] out[a], srcs) by {
        assert(entry_at(out[a], srcs, n, 0));
        let k = out[a].key@;
        let e = out[a];
        assert forall|x: Seq<char>|
            contains_text(e.namespaces@, x) <==> (
            exists|i: int| 0 <= i < srcs.len() && #[trigger] holds_key(srcs[i], k) && srcs[i].namespace@ == x) by {
            if exists|i: int| #[trigger] counted(srcs, n, 0, i, k) && srcs[i].namespace@ == x {
                let i = choose|i: int| #[trigger] counted(srcs, n, 0, i, k) && srcs[i].namespace@ == x;
                assert(holds_key(srcs[i], k));
            }
            if exists|i: int| 0 <= i < srcs.len() && #[trigger] holds_key(srcs[i], k) && srcs[i].namespace@ == x {
                let i = choose|i: int| 0 <= i < srcs.len() && #[trigger] holds_key(srcs[i], k) && srcs[i].namespace@ == x;
                assert(counted(srcs, n, 0, i, k));
            }
        }
        assert forall|g: GameVersion|
            e.game_versions@.contains(g) <==> (
            exists|i: int| 0 <= i < srcs.len() && #[trigger] holds_key(srcs[i], k) && srcs[i].game_version == g) by {
            if exists|i: int| #[trigger] counted(srcs, n, 0, i, k) && srcs[i].game_version == g {
                let i = choose|i: int| #[trigger] counted(srcs, n, 0, i, k) && srcs[i].game_version == g;
                assert(holds_key(srcs[i], k));
            }
            if exists|i: int| 0 <= i < srcs.len() && #[trigger] holds_key(srcs[i], k) && srcs[i].game_version == g {
                let i = choose|i: int| 0 <= i < srcs.len() && #[trigger] holds_key(srcs[i], k) && srcs[i].game_version == g;
                assert(counted(srcs, n, 0, i, k));
            }
        }
        assert forall|l: ModLoader|
            e.loaders@.contains(l) <==> (
            exists|i: int| 0 <= i < srcs.len() && #[trigger] holds_key(srcs[i], k) && srcs[i].loader == l) by {
            if exists|i: int| #[trigger] counted(srcs, n, 0, i, k) && srcs[i].loader == l {
                let i = choose|i: int| #[trigger] counted(srcs, n, 0, i, k) && srcs[i].loader == l;
                assert(holds_key(srcs[i], k));
            }
            if exists|i: int| 0 <= i < srcs.len() && #[trigger] holds_key(srcs[i], k) && srcs[i].loader == l {
                let i = choose|i: int| 0 <= i < srcs.len() && #[trigger] holds_key(srcs[i], k) && srcs[i].loader == l;
                assert(counted(srcs, n, 0, i, k));
            }
        }
    }
}

/// Merges the language maps of the archives, in order, into one entry per key:
/// the value from the last archive holding the key, and the namespaces, game
/// versions and loaders of every archive holding it.
pub fn merge_entries(srcs: &Vec<ArchiveLanguage>) -> (out: Vec<TextEntryData>)
    ensures
        distinct_keys(out@),
        forall|k: Seq<char>|
            has_entry(out@, k) <==> exists|i: int|
                0 <= i < srcs@.len() && #[trigger] holds_key(srcs@[i], k),
        forall|a: int| 0 <= a < out@.len() ==> merged_entry(#[trigger] out@[a], srcs@),
{
    let mut out: Vec<TextEntryData> = Vec::new();
    let mut n: usize = 0;
    while n < srcs.len()
        invariant
            0 <= n <= srcs.len(),
            merge_state(out@, srcs@, n as int, 0),
        decreases srcs.len() - n,
    {
        let src = &srcs[n];
        let mut j: usize = 0;
        while j < src.entries.len()
            invariant
                0 <= n < srcs.len(),
                src == srcs@[n as int],
                0 <= j <= src.entries@.len(),
                merge_state(out@, srcs@, n as int, j as int),
            decreases src.entries@.len() - j,
        {
            let pair = &src.entries[j];
            let ghost prev = out@;
            proof {
                assert forall|a: int| 0 <= a < out@.len() implies sets_ok(#[trigger] out@[a]) by {
                    assert(entry_at(out@[a], srcs@, n as int, j as int));
                }
            }
            observe(&mut out, &pair.0, &pair.1, &src.namespace, src.game_version, src.loader);
            proof {
                lemma_observe_step(srcs@, n as int, j as int, prev, out@);
            }
            j = j + 1;
        }
        proof {
            lemma_next_archive(srcs@, n as int, out@);
        }
        n = n + 1;
    }
    proof {
        lemma_merge_done(srcs@, out@);
    }
    out
}

} // verus!
