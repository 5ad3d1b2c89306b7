//! Trusted bridge to the `semver` crate: parsing versions and
//! requirement strings, and matching a requirement against a version.
//! Everything else about versions is computed and proved in
//! [`crate::version`].

use vstd::prelude::*;
use crate::version::{Version, VersionView};

verus! {

/// Whether `semver` accepts `s` as a pre-release identifier.
pub uninterp spec fn spec_prerelease_ok(s: Seq<char>) -> bool;

/// Relies on semver::Prerelease::new: accepts exactly the dot-separated
/// ASCII alphanumeric/hyphen identifiers of the semver grammar.
#[verifier::external_body]
pub fn prerelease_ok(s: &str) -> (r: bool)
    ensures
        r == spec_prerelease_ok(s@),
{
    semver::Prerelease::new(s).is_ok()
}

/// Whether `semver` accepts `s` as build metadata.
pub uninterp spec fn spec_build_ok(s: Seq<char>) -> bool;

/// Relies on semver::BuildMetadata::new: accepts exactly the
/// dot-separated identifiers of the semver build-metadata grammar.
#[verifier::external_body]
pub fn build_ok(s: &str) -> (r: bool)
    ensures
        r == spec_build_ok(s@),
{
    semver::BuildMetadata::new(s).is_ok()
}

/// The version that `semver` reads out of `s`, if `s` is a well-formed
/// full version string.
pub uninterp spec fn spec_parsed_version(s: Seq<char>) -> Option<VersionView>;

/// Relies on semver::Version::parse: the fields of the parsed version
/// are a function of the text alone.
#[verifier::external_body]
pub fn parse_version(s: &str) -> (r: Option<Version>)
    ensures
        match r {
            Some(v) => spec_parsed_version(s@) == Some(v@),
            None => spec_parsed_version(s@) is None,
        },
{
    match semver::Version::parse(s) {
        Ok(v) => Some(
            Version {
                major: v.major,
                minor: v.minor,
                patch: v.patch,
                pre: v.pre.as_str().to_string(),
                build: v.build.as_str().to_string(),
            },
        ),
        Err(_) => None,
    }
}

/// Whether `semver` accepts `req` as a version requirement.
pub uninterp spec fn spec_req_ok(req: Seq<char>) -> bool;

/// Whether the requirement `req` matches the version written `version`,
/// as `semver` decides it.
pub uninterp spec fn spec_req_matches(req: Seq<char>, version: VersionView) -> bool;

/// Relies on semver::VersionReq::parse and semver::VersionReq::matches:
/// whether a requirement string admits a version is a function of the
/// two texts alone.  `None` is returned when either text is rejected by
/// `semver`'s grammar.
#[verifier::external_body]
pub fn req_matches(req: &str, version: &str) -> (r: Option<bool>)
    ensures
        match r {
            Some(b) => spec_req_ok(req@) && spec_parsed_version(version@) is Some && b
                == spec_req_matches(req@, spec_parsed_version(version@)->Some_0),
            None => !(spec_req_ok(req@) && spec_parsed_version(version@) is Some),
        },
{
    let r = semver::VersionReq::parse(req).ok()?;
    let v = semver::Version::parse(version).ok()?;
    Some(r.matches(&v))
}

} // verus!
