//! The constraint matcher: whether a version-range expression parses,
//! whether a version string parses, and whether a version satisfies a
//! range. The three questions are answered by the `semver` crate; each is a
//! pure function of the text alone, so the library names the answers with
//! uninterpreted spec functions and every contract above is stated over
//! those names.
//!
//! On pre-releases the crate's default applies: a range matches a
//! pre-release version only when one of its comparators carries the same
//! major, minor and patch numbers together with a nonempty pre-release
//! component.

use vstd::prelude::*;

verus! {

/// Whether `semver::VersionReq::parse` accepts the range expression `r`.
pub uninterp spec fn range_ok(r: Seq<char>) -> bool;

/// Whether `semver::Version::parse` accepts the version string `v`.
pub uninterp spec fn version_ok(v: Seq<char>) -> bool;

/// Whether the version written `v` satisfies the range written `r`,
/// as decided by `semver::VersionReq::matches`. Only constrained where
/// `range_ok(r)` and `version_ok(v)` hold.
pub uninterp spec fn range_matches(r: Seq<char>, v: Seq<char>) -> bool;

/// Relies on `semver::VersionReq::parse`: a pure parser, so whether it
/// returns `Ok` depends on the text alone.
#[verifier::external_body]
fn range_parses(text: &str) -> (ok: bool)
    ensures
        ok == range_ok(text@),
{
    semver::VersionReq::parse(text).is_ok()
}

/// Relies on `semver::Version::parse`: a pure parser, so whether it
/// returns `Ok` depends on the text alone.
#[verifier::external_body]
fn version_parses(text: &str) -> (ok: bool)
    ensures
        ok == version_ok(text@),
{
    semver::Version::parse(text).is_ok()
}

/// Relies on `semver::VersionReq::parse`, `semver::Version::parse` and
/// `semver::VersionReq::matches`: all three are pure functions of the two
/// texts, and `matches` is reached only when both parses succeed.
#[verifier::external_body]
fn parse_and_match(range: &str, version: &str) -> (ok: bool)
    ensures
        ok == (range_ok(range@) && version_ok(version@) && range_matches(range@, version@)),
{
    match (semver::VersionReq::parse(range), semver::Version::parse(version)) {
        (Ok(req), Ok(ver)) => req.matches(&ver),
        _ => false,
    }
}

/// Does `text` parse as a version-range expression?
pub fn range_is_valid(text: &str) -> (ok: bool)
    ensures
        ok == range_ok(text@),
{
    range_parses(text)
}

/// Does `text` parse as a semantic version?
pub fn version_is_valid(text: &str) -> (ok: bool)
    ensures
        ok == version_ok(text@),
{
    version_parses(text)
}

/// Does the version written `version` satisfy the range written `range`?
///
/// Returns true exactly when both texts parse and the parsed version
/// satisfies the parsed range; a malformed range or version never
/// satisfies anything.
pub fn version_satisfies(range: &str, version: &str) -> (ok: bool)
    ensures
        ok == (range_ok(range@) && version_ok(version@) && range_matches(range@, version@)),
{
    parse_and_match(range, version)
}

} // verus!
