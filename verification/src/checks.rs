//! Pre-flight checks before packaging: required manifest metadata,
//! and git-sourced dependencies that pin no version.  Findings are
//! aggregated across all packages so the operator sees every problem
//! at once.

use vstd::prelude::*;
use crate::errors::Error;
use crate::strutil::push_str;

verus! {

/// The metadata fields the registry requires.
#[derive(Debug)]
pub struct PackageMetadata {
    pub description: Option<String>,
    pub repository: Option<String>,
    pub license: Option<String>,
    pub license_file: Option<String>,
    pub keywords: Vec<String>,
}

/// A present, non-empty field.
pub open spec fn spec_field_set(f: Option<String>) -> bool {
    f matches Some(s) && s@.len() > 0
}

/// The registry's rules: description and repository present and
/// non-empty, exactly one of license or license file, at most five
/// keywords.
pub open spec fn spec_metadata_ok(m: &PackageMetadata) -> bool {
    &&& spec_field_set(m.description)
    &&& spec_field_set(m.repository)
    &&& ((m.license is None && spec_field_set(m.license_file)) || (m.license_file is None
        && spec_field_set(m.license)))
    &&& m.keywords@.len() <= 5
}

fn field_set(f: &Option<String>) -> (r: bool)
    ensures
        r == spec_field_set(*f),
{
    match f {
        Some(s) => !s.as_str().is_empty(),
        None => false,
    }
}

/// Checks one package's metadata; every violated rule yields one
/// finding.
pub fn check_metadata(m: &PackageMetadata) -> (r: Vec<String>)
    ensures
        r@.len() == 0 <==> spec_metadata_ok(m),
{
    let mut bad: Vec<String> = Vec::new();
    match &m.description {
        Some(s) => {
            if s.as_str().is_empty() {
                bad.push("description is empty".to_owned());
            }
        },
        None => {
            bad.push("description is missing".to_owned());
        },
    }
    match &m.repository {
        Some(s) => {
            if s.as_str().is_empty() {
                bad.push("repository is empty".to_owned());
            }
        },
        None => {
            bad.push("repository is missing".to_owned());
        },
    }
    let lic = field_set(&m.license);
    let licf = field_set(&m.license_file);
    if m.license.is_some() && m.license_file.is_some() {
        bad.push("a package cannot have both license and license-file".to_owned());
    } else if !lic && !licf {
        bad.push("neither license nor license-file is provided".to_owned());
    }
    if m.keywords.len() > 5 {
        bad.push("the registry only allows up to five keywords".to_owned());
    }
    proof {
        if spec_metadata_ok(m) {
            assert(bad@.len() == 0);
        }
    }
    bad
}

/// What the dependency pre-flight needs to know of one declared
/// dependency.
#[derive(Debug)]
pub struct DepSource {
    pub name: String,
    /// The dependency is fetched from a git repository.
    pub from_git: bool,
    /// No version requirement constrains it.
    pub unconstrained: bool,
}

/// A git dependency with no version requirement cannot be published.
pub open spec fn spec_dep_source_ok(d: &DepSource) -> bool {
    !(d.from_git && d.unconstrained)
}

/// Checks one package's dependencies: any git-sourced dependency
/// without a version requirement is named.
#[verifier::loop_isolation(false)]
pub fn check_dependencies(sources: &Vec<DepSource>) -> (r: Vec<String>)
    ensures
        r@.len() == 0 <==> (forall|i: int|
            0 <= i < sources@.len() ==> spec_dep_source_ok(&(#[trigger] sources@[i]))),
{
    let mut bad: Vec<String> = Vec::new();
    let n = sources.len();
    for i in 0..n
        invariant
            bad@.len() == 0 <==> (forall|j: int|
                0 <= j < i ==> spec_dep_source_ok(&(#[trigger] sources@[j]))),
    {
        if sources[i].from_git && sources[i].unconstrained {
            let mut msg = sources[i].name.clone();
            push_str(&mut msg, " is a git dependency without a version");
            bad.push(msg);
        }
    }
    bad
}

/// Runs both pre-flight checks over every planned package and
/// aggregates the findings; the stage fails only after every package
/// was looked at.
#[verifier::loop_isolation(false)]
pub fn preflight(metas: &Vec<PackageMetadata>, deps: &Vec<Vec<DepSource>>) -> (r: Result<
    (),
    Error,
>)
    requires
        metas@.len() == deps@.len(),
    ensures
        r is Ok <==> (forall|p: int|
            0 <= p < metas@.len() ==> #[trigger] spec_package_ok(metas@, deps@, p)),
{
    let mut findings: Vec<String> = Vec::new();
    let mut all = true;
    let n = metas.len();
    for p in 0..n
        invariant
            all <==> (forall|q: int| 0 <= q < p ==> #[trigger] spec_package_ok(metas@, deps@, q)),
    {
        let mut bad = check_metadata(&metas[p]);
        let mut bad_deps = check_dependencies(&deps[p]);
        let here_ok = bad.len() == 0 && bad_deps.len() == 0;
        let ghost all0 = all;
        if !here_ok {
            all = false;
        }
        findings.append(&mut bad);
        findings.append(&mut bad_deps);
        proof {
            assert(here_ok == spec_package_ok(metas@, deps@, p as int));
            if all {
                assert forall|q: int| 0 <= q < p + 1 implies #[trigger] spec_package_ok(
                    metas@,
                    deps@,
                    q,
                ) by {}
            } else {
                if forall|q: int| 0 <= q < p + 1 ==> #[trigger] spec_package_ok(metas@, deps@, q) {
                    assert(spec_package_ok(metas@, deps@, p as int));
                    assert forall|q: int| 0 <= q < p implies #[trigger] spec_package_ok(
                        metas@,
                        deps@,
                        q,
                    ) by {}
                    assert(all0);
                    assert(false);
                }
            }
        }
    }
    if all {
        Ok(())
    } else {
        Err(Error::Check(findings))
    }
}

/// Both pre-flight checks pass for the package at this index.
pub open spec fn spec_package_ok(
    metas: Seq<PackageMetadata>,
    deps: Seq<Vec<DepSource>>,
    p: int,
) -> bool {
    spec_metadata_ok(&metas[p]) && (forall|i: int|
        0 <= i < deps[p]@.len() ==> spec_dep_source_ok(&(#[trigger] deps[p]@[i])))
}

/// The build-script tamper check of the isolated build: the newest
/// modification stamp of the source tree must be the same before and
/// after compiling.
pub fn build_script_tampered(before: Option<u64>, after: Option<u64>) -> (r: bool)
    ensures
        r == (before != after),
{
    match (before, after) {
        (None, None) => false,
        (Some(a), Some(b)) => a != b,
        _ => true,
    }
}

} // verus!
