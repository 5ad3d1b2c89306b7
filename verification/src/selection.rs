//! Package selection: the composed predicate over publish flags,
//! change sets, allow-lists, skip patterns and pre-release filters,
//! with the documented mutual-exclusion rules; and the mapping from
//! changed files to the workspace members that own them.

use vstd::prelude::*;
use crate::errors::Error;
use crate::strutil::{spec_starts_with, str_eq, str_starts_with};
use crate::workspace::PkgInfo;

verus! {

/// Whether `regex` accepts the pattern.
pub uninterp spec fn spec_regex_valid(pattern: Seq<char>) -> bool;

/// Whether the pattern matches somewhere in the text, as `regex`
/// decides it.
pub uninterp spec fn spec_regex_match(pattern: Seq<char>, text: Seq<char>) -> bool;

/// Relies on regex::Regex::new and regex::Regex::is_match: whether a
/// pattern matches a text is a function of the two strings alone;
/// `None` is returned for a pattern the regex grammar refuses.
#[verifier::external_body]
fn regex_is_match(pattern: &str, text: &str) -> (r: Option<bool>)
    ensures
        match r {
            Some(b) => spec_regex_valid(pattern@) && b == spec_regex_match(pattern@, text@),
            None => !spec_regex_valid(pattern@),
        },
{
    regex::Regex::new(pattern).ok().map(|re| re.is_match(text))
}

/// The selection options a command runs with.
#[derive(Debug)]
pub struct PackageSelectOptions {
    /// Only use the specific set of packages.  Mutually exclusive
    /// with skip, the pre-release filter and the change set.
    pub packages: Vec<String>,
    /// Skip the packages whose name matches any of these patterns.
    pub skip: Vec<String>,
    /// Skip packages whose pre-release identifier is any of these.
    pub ignore_pre_version: Vec<String>,
    /// Consider packages whose manifest restricts publishing, too.
    pub ignore_publish: bool,
    /// The names of the packages touched since a git reference, when
    /// change detection ran.  Mutually exclusive with skip and the
    /// pre-release filter.
    pub changed: Option<Vec<String>>,
    /// Also include packages currently in a pre-release version.
    pub include_pre_deps: bool,
}

/// Is a name in the list?
pub open spec fn spec_name_listed(list: Seq<String>, name: Seq<char>) -> bool {
    exists|i: int| 0 <= i < list.len() && (#[trigger] list[i])@ == name
}

#[verifier::loop_isolation(false)]
fn name_listed(list: &Vec<String>, name: &str) -> (r: bool)
    ensures
        r == spec_name_listed(list@, name@),
{
    let len = list.len();
    for i in 0..len
        invariant
            forall|j: int| 0 <= j < i ==> (#[trigger] list@[j])@ != name@,
    {
        if str_eq(list[i].as_str(), name) {
            return true;
        }
    }
    false
}

/// The mutual-exclusion rules of the selection options: an explicit
/// package list excludes skip patterns, the pre-release filter and
/// change detection; change detection excludes skip patterns and the
/// pre-release filter.
pub open spec fn spec_options_consistent(o: &PackageSelectOptions) -> bool {
    &&& o.packages@.len() > 0 ==> o.skip@.len() == 0 && o.ignore_pre_version@.len() == 0
        && o.changed is None
    &&& o.changed is Some ==> o.skip@.len() == 0 && o.ignore_pre_version@.len() == 0
}

/// Checks the mutual-exclusion rules.
pub fn validate_options(o: &PackageSelectOptions) -> (r: Result<(), Error>)
    ensures
        r is Ok <==> spec_options_consistent(o),
{
    if o.packages.len() > 0 {
        if o.skip.len() > 0 || o.ignore_pre_version.len() > 0 {
            return Err(
                Error::Configuration(
                    "an explicit package list excludes skip patterns and the pre-release filter".to_owned(),
                ),
            );
        }
        if o.changed.is_some() {
            return Err(
                Error::Configuration(
                    "an explicit package list excludes change detection".to_owned(),
                ),
            );
        }
    }
    if o.changed.is_some() {
        if o.skip.len() > 0 || o.ignore_pre_version.len() > 0 {
            return Err(
                Error::Configuration(
                    "change detection excludes skip patterns and the pre-release filter".to_owned(),
                ),
            );
        }
    }
    Ok(())
}

/// Are all skip patterns acceptable to the regex grammar?
pub open spec fn spec_skip_patterns_ok(skip: Seq<String>) -> bool {
    forall|i: int| 0 <= i < skip.len() ==> spec_regex_valid((#[trigger] skip[i])@)
}

/// Does any skip pattern match the name?
pub open spec fn spec_any_skip_matches(skip: Seq<String>, name: Seq<char>) -> bool {
    exists|i: int| 0 <= i < skip.len() && spec_regex_match((#[trigger] skip[i])@, name)
}

/// What the composed predicate decides for one package, assuming
/// every skip pattern parses: the publish flag first, then the change
/// set or the allow-list (widened by the cascading pre-release flag),
/// else the skip patterns and the pre-release filter.
pub open spec fn spec_select(o: &PackageSelectOptions, p: crate::workspace::PkgInfoView) -> bool {
    if !(o.ignore_publish || p.publish) {
        false
    } else {
        match o.changed {
            Some(changed) => spec_name_listed(changed@, p.name) || (o.include_pre_deps
                && p.version.pre.len() > 0),
            None => if o.packages@.len() > 0 {
                spec_name_listed(o.packages@, p.name) || (o.include_pre_deps && p.version.pre.len()
                    > 0)
            } else {
                !spec_any_skip_matches(o.skip@, p.name) && !(p.version.pre.len() > 0
                    && spec_name_listed(o.ignore_pre_version@, p.version.pre))
            },
        }
    }
}

/// Applies the composed selection predicate to one package.  A skip
/// pattern the regex grammar refuses is a parse error.
#[verifier::loop_isolation(false)]
pub fn select_package(o: &PackageSelectOptions, p: &PkgInfo) -> (r: Result<bool, Error>)
    ensures
        r matches Ok(b) ==> b == spec_select(o, p@),
        r is Err ==> !spec_skip_patterns_ok(o.skip@),
{
    let publish_ok = o.ignore_publish || p.publish;
    if !publish_ok {
        return Ok(false);
    }
    let is_pre = !p.version.pre.as_str().is_empty();
    match &o.changed {
        Some(changed) => {
            return Ok(
                name_listed(changed, p.name.as_str()) || (o.include_pre_deps && is_pre),
            );
        },
        None => {},
    }
    if o.packages.len() > 0 {
        return Ok(
            name_listed(&o.packages, p.name.as_str()) || (o.include_pre_deps && is_pre),
        );
    }
    let slen = o.skip.len();
    for i in 0..slen
        invariant
            forall|j: int|
                0 <= j < i ==> spec_regex_valid((#[trigger] o.skip@[j])@) && !spec_regex_match(
                    o.skip@[j]@,
                    p@.name,
                ),
    {
        match regex_is_match(o.skip[i].as_str(), p.name.as_str()) {
            Some(true) => {
                return Ok(false);
            },
            Some(false) => {},
            None => {
                return Err(Error::Parse("a skip pattern is not a valid regex".to_owned()));
            },
        }
    }
    if is_pre && name_listed(&o.ignore_pre_version, p.version.pre.as_str()) {
        return Ok(false);
    }
    Ok(true)
}

/// Is the path inside the directory: equal to it, or below it with a
/// separator at the boundary?
pub open spec fn spec_path_within(path: Seq<char>, root: Seq<char>) -> bool {
    path == root || (spec_starts_with(path, root) && path.len() > root.len() && path[root.len() as int]
        == '/')
}

fn path_within(path: &str, root: &str) -> (r: bool)
    ensures
        r == spec_path_within(path@, root@),
{
    if str_eq(path, root) {
        return true;
    }
    if !str_starts_with(path, root) {
        return false;
    }
    let plen = path.unicode_len();
    let rlen = root.unicode_len();
    plen > rlen && path.get_char(rlen) == '/'
}

/// Does some changed file lie inside the directory?
pub open spec fn spec_any_file_within(files: Seq<String>, root: Seq<char>) -> bool {
    exists|f: int| 0 <= f < files.len() && spec_path_within((#[trigger] files[f])@, root)
}

/// Which members a set of changed files touches: a member is marked
/// when some changed path lies inside its root directory.
#[verifier::loop_isolation(false)]
pub fn changed_packages(roots: &Vec<String>, files: &Vec<String>) -> (r: Vec<bool>)
    ensures
        r@.len() == roots@.len(),
        forall|i: int|
            0 <= i < roots@.len() ==> r@[i] == spec_any_file_within(
                files@,
                (#[trigger] roots@[i])@,
            ),
{
    let n = roots.len();
    let mut out: Vec<bool> = Vec::new();
    for i in 0..n
        invariant
            out@.len() == i,
            forall|q: int|
                0 <= q < i ==> out@[q] == spec_any_file_within(files@, (#[trigger] roots@[q])@),
    {
        let mut hit = false;
        let flen = files.len();
        for f in 0..flen
            invariant
                hit ==> spec_any_file_within(files@, roots@[i as int]@),
                !hit ==> forall|g: int|
                    0 <= g < f ==> !spec_path_within((#[trigger] files@[g])@, roots@[i as int]@),
        {
            if !hit && path_within(files[f].as_str(), roots[i].as_str()) {
                hit = true;
            }
        }
        out.push(hit);
    }
    out
}

} // verus!
