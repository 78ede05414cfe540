use rtranslator::version::{is_stable, to_semver, version_to_string, GameVersion, VersionError};

#[test]
fn stable_versions_are_recognised() {
    assert!(is_stable("1.20"));
    assert!(is_stable("1.20.1"));
    assert!(is_stable("0.0.0"));
    assert!(is_stable("10.200.3000"));
}

#[test]
fn unstable_versions_are_rejected() {
    assert!(!is_stable(""));
    assert!(!is_stable("1"));
    assert!(!is_stable("1."));
    assert!(!is_stable(".1"));
    assert!(!is_stable("1..2"));
    assert!(!is_stable("1.20.1.2"));
    assert!(!is_stable("1.20-pre1"));
    assert!(!is_stable("1.20.1-rc1"));
    assert!(!is_stable("23w14a"));
    assert!(!is_stable("b1.7.3"));
    assert!(!is_stable(" 1.20"));
}

#[test]
fn two_components_default_patch_to_zero() {
    assert_eq!(to_semver("1.20"), Ok(GameVersion { major: 1, minor: 20, patch: 0 }));
}

#[test]
fn three_components_convert() {
    assert_eq!(to_semver("1.20.4"), Ok(GameVersion { major: 1, minor: 20, patch: 4 }));
    assert_eq!(to_semver("007.08.09"), Ok(GameVersion { major: 7, minor: 8, patch: 9 }));
}

#[test]
fn filter_and_converter_agree() {
    for s in ["1.19", "1.19.2", "1.19-pre", "x.y", "1.2.3.4", "", "22w13a"] {
        assert_eq!(is_stable(s), to_semver(s).is_ok(), "{}", s);
    }
}

#[test]
fn invalid_versions_fail_to_convert() {
    assert_eq!(to_semver("1.20-pre1"), Err(VersionError::Invalid));
    assert_eq!(to_semver("abc"), Err(VersionError::Invalid));
    assert_eq!(to_semver("1"), Err(VersionError::Invalid));
}

#[test]
fn oversized_component_fails_to_convert() {
    assert!(is_stable("99999999999999999999.1"));
    assert_eq!(to_semver("99999999999999999999.1"), Err(VersionError::OutOfRange));
    assert_eq!(
        to_semver("18446744073709551615.0"),
        Ok(GameVersion { major: u64::MAX, minor: 0, patch: 0 })
    );
    assert_eq!(to_semver("1.18446744073709551616"), Err(VersionError::OutOfRange));
}

#[test]
fn versions_are_written_with_three_components() {
    assert_eq!(version_to_string(&GameVersion { major: 1, minor: 20, patch: 0 }), "1.20.0");
    assert_eq!(version_to_string(&GameVersion { major: 0, minor: 7, patch: 10 }), "0.7.10");
}
