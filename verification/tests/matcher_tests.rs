use depgraph::ranges::{range_is_valid, version_is_valid, version_satisfies};

#[test]
fn caret_range_accepts_compatible_versions() {
    assert!(version_satisfies("^1.2.0", "1.2.0"));
    assert!(version_satisfies("^1.2.0", "1.2.5"));
    assert!(version_satisfies("^1.2.0", "1.3.0"));
    assert!(!version_satisfies("^1.2.0", "2.0.0"));
    assert!(!version_satisfies("^1.2.0", "1.1.9"));
}

#[test]
fn comparison_and_compound_ranges() {
    assert!(version_satisfies(">=1.0.0, <2.0.0", "1.5.0"));
    assert!(!version_satisfies(">=1.0.0, <2.0.0", "2.0.0"));
    assert!(version_satisfies("=0.3.7", "0.3.7"));
    assert!(version_satisfies("~1.2.3", "1.2.9"));
    assert!(!version_satisfies("~1.2.3", "1.3.0"));
    assert!(version_satisfies("*", "4.5.6"));
}

#[test]
fn prerelease_versions_need_an_explicit_prerelease_comparator() {
    // the semver crate's default: a plain range never matches a pre-release
    assert!(!version_satisfies("^1.0.0", "1.0.1-alpha"));
    assert!(version_satisfies(">=1.0.1-0", "1.0.1-alpha"));
}

#[test]
fn malformed_range_satisfies_nothing() {
    assert!(!version_satisfies("not-a-valid-range", "1.0.0"));
    assert!(!range_is_valid("not-a-valid-range"));
    assert!(range_is_valid("^1.2.0"));
}

#[test]
fn malformed_version_satisfies_nothing() {
    assert!(!version_satisfies("^1.0.0", "abc"));
    assert!(!version_satisfies("*", "1.0"));
    assert!(!version_is_valid("1.0"));
    assert!(!version_is_valid("abc"));
    assert!(version_is_valid("1.0.0"));
    assert!(version_is_valid("1.2.3-beta.1+build5"));
}
