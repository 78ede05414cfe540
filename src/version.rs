//! Game-version strings: which ones count as stable releases, and their
//! conversion into comparable semantic versions.

use vstd::prelude::*;

verus! {

/// A semantic version `major.minor.patch`.
#[derive(Clone, Copy, Debug, PartialEq, Eq, Structural, Hash, PartialOrd, Ord)]
pub struct GameVersion {
    pub major: u64,
    pub minor: u64,
    pub patch: u64,
}

/// Why a game-version string could not be converted.
#[derive(Clone, Copy, Debug, PartialEq, Eq, Structural)]
pub enum VersionError {
    /// The string is not of the form `major.minor[.patch]`.
    Invalid,
    /// The string has the right form but a component exceeds `u64::MAX`.
    OutOfRange,
}

pub open spec fn is_ascii_digit(c: char) -> bool {
    '0' <= c && c <= '9'
}

pub open spec fn digit_value(c: char) -> nat {
    (c as int - '0' as int) as nat
}

/// A non-empty run of ASCII digits.
pub open spec fn is_digit_run(s: Seq<char>) -> bool {
    s.len() > 0 && forall|i: int| 0 <= i < s.len() ==> is_ascii_digit(#[trigger] s[i])
}

/// The decimal value of a run of digits.
pub open spec fn digits_value(s: Seq<char>) -> nat
    decreases s.len(),
{
    if s.len() == 0 {
        0
    } else {
        digits_value(s.drop_last()) * 10 + digit_value(s.last())
    }
}

/// The pieces of `s` between its dots (one more piece than there are dots).
pub open spec fn dot_fields(s: Seq<char>) -> Seq<Seq<char>>
    decreases s.len(),
{
    if s.len() == 0 {
        seq![Seq::<char>::empty()]
    } else {
        let f = dot_fields(s.drop_last());
        if s.last() == '.' {
            f.push(Seq::<char>::empty())
        } else {
            f.update(f.len() - 1, f.last().push(s.last()))
        }
    }
}

/// `s` reads `major.minor` or `major.minor.patch`, each a run of ASCII digits.
pub open spec fn is_stable_version(s: Seq<char>) -> bool {
    let f = dot_fields(s);
    &&& (f.len() == 2 || f.len() == 3)
    &&& forall|j: int| 0 <= j < f.len() ==> is_digit_run(#[trigger] f[j])
}

/// The numeric value of the `j`-th dot-separated component of `s`.
pub open spec fn component(s: Seq<char>, j: int) -> nat {
    digits_value(dot_fields(s)[j])
}

/// Every component of `s` fits in a `u64`.
pub open spec fn components_fit(s: Seq<char>) -> bool {
    forall|j: int| 0 <= j < dot_fields(s).len() ==> #[trigger] component(s, j) <= u64::MAX
}

/// The outcome of converting `s` into a semantic version; the patch
/// component is 0 when `s` has only two components.
pub open spec fn semver_of(s: Seq<char>) -> Result<GameVersion, VersionError> {
    if !is_stable_version(s) {
        Err(VersionError::Invalid)
    } else if !components_fit(s) {
        Err(VersionError::OutOfRange)
    } else {
        Ok(
            GameVersion {
                major: component(s, 0) as u64,
                minor: component(s, 1) as u64,
                patch: if dot_fields(s).len() == 3 {
                    component(s, 2) as u64
                } else {
                    0
                },
            },
        )
    }
}

/// The decimal text of `n`, without leading zeros.
pub open spec fn decimal_text(n: nat) -> Seq<char>
    decreases n,
{
    let d = ((n % 10) + '0' as nat) as char;
    if n < 10 {
        seq![d]
    } else {
        decimal_text(n / 10).push(d)
    }
}

/// The text `major.minor.patch` of a version.
pub open spec fn version_text(v: GameVersion) -> Seq<char> {
    decimal_text(v.major as nat) + seq!['.'] + decimal_text(v.minor as nat) + seq!['.']
        + decimal_text(v.patch as nat)
}

/// The pattern of a stable game version: two or three runs of ASCII digits
/// joined by dots, spanning the whole string.
pub const GAME_VERSION_PATTERN: &'static str = r"^[0-9]+\.[0-9]+(\.[0-9]+)?$";

/// Relies on regex::Regex::new and Regex::is_match: compiled from
/// `GAME_VERSION_PATTERN`, which is valid, the regex matches a string exactly
/// when it is two or three runs of ASCII digits joined by dots.
#[verifier::external_body]
fn regex_is_match(pattern: &str, text: &str) -> (r: bool)
    requires
        pattern@ == GAME_VERSION_PATTERN@,
    ensures
        r == is_stable_version(text@),
{
    match regex::Regex::new(pattern) {
        Ok(re) => re.is_match(text),
        Err(_) => false,
    }
}

/// Whether `version` has the stable form, through the regex.
fn matches_version_pattern(version: &str) -> (r: bool)
    ensures
        r == is_stable_version(version@),
{
    regex_is_match(GAME_VERSION_PATTERN, version)
}

/// Relies on semver::Version::new and semver's `Display` for `Version`: a version
/// without pre-release or build metadata is written `major.minor.patch` in decimal.
#[verifier::external_body]
fn semver_to_string(major: u64, minor: u64, patch: u64) -> (r: String)
    ensures
        r@ == version_text(GameVersion { major, minor, patch }),
{
    semver::Version::new(major, minor, patch).to_string()
}

/// Whether `version` names a stable release (`major.minor[.patch]`, digits only).
pub fn is_stable(version: &str) -> (r: bool)
    ensures
        r == is_stable_version(version@),
{
    matches_version_pattern(version)
}

/// `dot_fields` always yields at least one piece.
proof fn lemma_dot_fields_nonempty(s: Seq<char>)
    ensures
        dot_fields(s).len() >= 1,
    decreases s.len(),
{
    if s.len() > 0 {
        lemma_dot_fields_nonempty(s.drop_last());
    }
}

/// The pieces of a prefix of `s` agree with those of `s`: all but the last are
/// equal, and the last is a prefix of the corresponding piece of `s`.
proof fn lemma_dot_fields_prefix(s: Seq<char>, i: int)
    requires
        0 <= i <= s.len(),
    ensures
        ({
            let p = dot_fields(s.take(i));
            let f = dot_fields(s);
            &&& 1 <= p.len() <= f.len()
            &&& forall|j: int| 0 <= j < p.len() - 1 ==> p[j] == f[j]
            &&& p.last().len() <= f[p.len() - 1].len()
            &&& f[p.len() - 1].take(p.last().len() as int) == p.last()
        }),
    decreases s.len(),
{
    lemma_dot_fields_nonempty(s.take(i));
    lemma_dot_fields_nonempty(s);
    if i == s.len() {
        assert(s.take(i) =~= s);
        let f = dot_fields(s);
        assert(f[f.len() - 1].take(f.last().len() as int) =~= f.last());
    } else {
        let t = s.drop_last();
        assert(t.take(i) =~= s.take(i));
        lemma_dot_fields_prefix(t, i);
        lemma_dot_fields_nonempty(t);
        let p = dot_fields(s.take(i));
        let g = dot_fields(t);
        let f = dot_fields(s);
        if s.last() != '.' {
            let k = p.len() - 1;
            if k == g.len() - 1 {
                assert(f[k] == g.last().push(s.last()));
                assert(f[k].take(p.last().len() as int) =~= g[k].take(p.last().len() as int));
            }
        }
    }
}

/// A prefix of a run of digits has no larger value.
proof fn lemma_digits_value_prefix(s: Seq<char>, k: int)
    requires
        0 <= k <= s.len(),
    ensures
        digits_value(s.take(k)) <= digits_value(s),
    decreases s.len(),
{
    if k == s.len() {
        assert(s.take(k) =~= s);
    } else {
        assert(s.drop_last().take(k) =~= s.take(k));
        lemma_digits_value_prefix(s.drop_last(), k);
    }
}

/// Converts a stable game-version string into a semantic version, with a
/// patch component of 0 when it is omitted.
pub fn to_semver(version: &str) -> (r: Result<GameVersion, VersionError>)
    ensures
        r == semver_of(version@),
{
    if !matches_version_pattern(version) {
        return Err(VersionError::Invalid);
    }
    let ghost s = version@;
    let n = version.unicode_len();
    let mut fields: Vec<u64> = Vec::new();
    let mut cur: u64 = 0;
    let mut i: usize = 0;
    proof {
        assert(s.take(0) =~= Seq::<char>::empty());
    }
    while i < n
        invariant
            s == version@,
            is_stable_version(s),
            n == s.len(),
            0 <= i <= n,
            fields.len() + 1 == dot_fields(s.take(i as int)).len(),
            forall|j: int|
                0 <= j < fields.len() ==> fields@[j] == digits_value(
                    #[trigger] dot_fields(s.take(i as int))[j],
                ),
            cur == digits_value(dot_fields(s.take(i as int)).last()),
        decreases n - i,
    {
        let c = version.get_char(i);
        proof {
            assert(s.take(i + 1).drop_last() =~= s.take(i as int));
            lemma_dot_fields_prefix(s, i + 1);
            lemma_dot_fields_nonempty(s.take(i as int));
        }
        let ghost p = dot_fields(s.take(i + 1));
        let ghost f = dot_fields(s);
        if c == '.' {
            fields.push(cur);
            cur = 0;
            proof {
                assert forall|j: int| 0 <= j < fields.len() implies fields@[j] == digits_value(
                    #[trigger] p[j],
                ) by {}
            }
        } else if '0' <= c && c <= '9' {
            let d: u64 = (c as u32 - '0' as u32) as u64;
            if cur > (u64::MAX - d) / 10 {
                proof {
                    let k = p.len() - 1;
                    assert(p.last() == dot_fields(s.take(i as int)).last().push(c));
                    assert(p.last().drop_last() =~= dot_fields(s.take(i as int)).last());
                    assert(digits_value(p.last()) > u64::MAX);
                    lemma_digits_value_prefix(f[k], p.last().len() as int);
                    assert(component(s, k) > u64::MAX);
                }
                return Err(VersionError::OutOfRange);
            }
            proof {
                assert(p.last() == dot_fields(s.take(i as int)).last().push(c));
                assert(p.last().drop_last() =~= dot_fields(s.take(i as int)).last());
            }
            cur = cur * 10 + d;
        } else {
            proof {
                let k = p.len() - 1;
                assert(p.last() == dot_fields(s.take(i as int)).last().push(c));
                assert(f[k][p.last().len() - 1] == p.last()[p.last().len() - 1]);
                assert(!is_digit_run(f[k]));
            }
            return Err(VersionError::Invalid);
        }
        i = i + 1;
    }
    proof {
        assert(s.take(n as int) =~= s);
    }
    let major = fields[0];
    if fields.len() == 1 {
        Ok(GameVersion { major, minor: cur, patch: 0 })
    } else {
        Ok(GameVersion { major, minor: fields[1], patch: cur })
    }
}

/// Writes a version as `major.minor.patch`.
pub fn version_to_string(v: &GameVersion) -> (r: String)
    ensures
        r@ == version_text(*v),
{
    semver_to_string(v.major, v.minor, v.patch)
}

/// `a` is no later than `b`, comparing major, then minor, then patch.
pub open spec fn version_le(a: GameVersion, b: GameVersion) -> bool {
    ||| a.major < b.major
    ||| (a.major == b.major && a.minor < b.minor)
    ||| (a.major == b.major && a.minor == b.minor && a.patch <= b.patch)
}

/// Whether `a` is no later than `b`.
pub fn version_less_eq(a: &GameVersion, b: &GameVersion) -> (r: bool)
    ensures
        r == version_le(*a, *b),
{
    if a.major != b.major {
        a.major < b.major
    } else if a.minor != b.minor {
        a.minor < b.minor
    } else {
        a.patch <= b.patch
    }
}

/// The filter and the converter agree: a string of the stable form converts,
/// with a patch of 0 when it has two components, unless a component exceeds
/// `u64::MAX`; a string of any other form does not convert.
pub proof fn lemma_stable_iff_converts(s: Seq<char>)
    ensures
        is_stable_version(s) && components_fit(s) ==> semver_of(s) is Ok,
        is_stable_version(s) && components_fit(s) && dot_fields(s).len() == 2 ==> semver_of(
            s,
        )->Ok_0.patch == 0,
        is_stable_version(s) && components_fit(s) && dot_fields(s).len() == 3 ==> semver_of(
            s,
        )->Ok_0.patch == component(s, 2),
        !is_stable_version(s) ==> semver_of(s) == Err::<GameVersion, VersionError>(
            VersionError::Invalid,
        ),
{
}

/// Appending a text without dots to `x` extends the last piece of `x`.
proof fn lemma_dot_fields_append(x: Seq<char>, t: Seq<char>)
    requires
        forall|i: int| 0 <= i < t.len() ==> t[i] != '.',
    ensures
        dot_fields(x + t) == dot_fields(x).update(
            dot_fields(x).len() - 1,
            dot_fields(x).last() + t,
        ),
    decreases t.len(),
{
    lemma_dot_fields_nonempty(x);
    let f = dot_fields(x);
    if t.len() == 0 {
        assert(x + t =~= x);
        assert(f.last() + t =~= f.last());
        assert(f.update(f.len() - 1, f.last()) =~= f);
    } else {
        let u = t.drop_last();
        lemma_dot_fields_append(x, u);
        assert((x + t).drop_last() =~= x + u);
        assert((x + t).last() == t.last());
        assert(f.last() + u + seq![t.last()] =~= f.last() + t);
        assert((f.last() + u).push(t.last()) =~= f.last() + t);
        assert(dot_fields(x + t) =~= f.update(f.len() - 1, f.last() + t));
    }
}

/// A run of digits holds no dot.
proof fn lemma_digit_run_no_dot(a: Seq<char>)
    requires
        is_digit_run(a),
    ensures
        forall|i: int| 0 <= i < a.len() ==> a[i] != '.',
{
    assert forall|i: int| 0 <= i < a.len() implies a[i] != '.' by {
        assert(is_ascii_digit(a[i]));
    }
}

/// The pieces of runs of digits joined by dots are those runs.
proof fn lemma_dot_fields_of_runs(a: Seq<char>, b: Seq<char>, c: Seq<char>)
    requires
        is_digit_run(a),
        is_digit_run(b),
        is_digit_run(c),
    ensures
        dot_fields(a + seq!['.'] + b) == seq![a, b],
        dot_fields(a + seq!['.'] + b + seq!['.'] + c) == seq![a, b, c],
{
    lemma_digit_run_no_dot(a);
    lemma_digit_run_no_dot(b);
    lemma_digit_run_no_dot(c);
    let e = Seq::<char>::empty();
    lemma_dot_fields_append(e, a);
    assert(e + a =~= a);
    assert(dot_fields(e) == seq![e]);
    assert(e + a =~= a);
    assert(dot_fields(a) =~= seq![a]);
    let ad = a + seq!['.'];
    assert(ad =~= a.push('.'));
    assert(ad.drop_last() =~= a);
    assert(dot_fields(ad) =~= seq![a, e]);
    lemma_dot_fields_append(ad, b);
    assert(e + b =~= b);
    assert(dot_fields(ad + b) =~= seq![a, b]);
    let abd = a + seq!['.'] + b + seq!['.'];
    assert(abd.drop_last() =~= ad + b);
    assert(dot_fields(abd) =~= seq![a, b, e]);
    lemma_dot_fields_append(abd, c);
    assert(e + c =~= c);
    assert(abd + c =~= a + seq!['.'] + b + seq!['.'] + c);
    assert(dot_fields(abd + c) =~= seq![a, b, c]);
}

/// A string `a.b` of two runs of digits whose values fit in a `u64` converts to
/// version `a.b.0`.
pub proof fn lemma_two_components_convert(a: Seq<char>, b: Seq<char>)
    requires
        is_digit_run(a),
        is_digit_run(b),
        digits_value(a) <= u64::MAX,
        digits_value(b) <= u64::MAX,
    ensures
        is_stable_version(a + seq!['.'] + b),
        semver_of(a + seq!['.'] + b) == Ok::<GameVersion, VersionError>(
            GameVersion { major: digits_value(a) as u64, minor: digits_value(b) as u64, patch: 0 },
        ),
{
    lemma_dot_fields_of_runs(a, b, b);
    let s = a + seq!['.'] + b;
    let f = dot_fields(s);
    assert(f[0] == a && f[1] == b);
    assert(forall|j: int| 0 <= j < f.len() ==> #[trigger] component(s, j) <= u64::MAX);
}

/// A string `a.b.c` of three runs of digits whose values fit in a `u64`
/// converts to version `a.b.c`.
pub proof fn lemma_three_components_convert(a: Seq<char>, b: Seq<char>, c: Seq<char>)
    requires
        is_digit_run(a),
        is_digit_run(b),
        is_digit_run(c),
        digits_value(a) <= u64::MAX,
        digits_value(b) <= u64::MAX,
        digits_value(c) <= u64::MAX,
    ensures
        is_stable_version(a + seq!['.'] + b + seq!['.'] + c),
        semver_of(a + seq!['.'] + b + seq!['.'] + c) == Ok::<GameVersion, VersionError>(
            GameVersion {
                major: digits_value(a) as u64,
                minor: digits_value(b) as u64,
                patch: digits_value(c) as u64,
            },
        ),
{
    lemma_dot_fields_of_runs(a, b, c);
    let s = a + seq!['.'] + b + seq!['.'] + c;
    let f = dot_fields(s);
    assert(f[0] == a && f[1] == b && f[2] == c);
    assert(forall|j: int| 0 <= j < f.len() ==> #[trigger] component(s, j) <= u64::MAX);
}

} // verus!
