//! The manifest edit engine: walking dependency entries across every
//! section (including `target.*` subtables), applying per-entry
//! actions, and pruning feature references to removed entries.

use vstd::prelude::*;
use crate::errors::Error;
use crate::strutil::str_eq;
use crate::toml_doc::{manifest_to_string, parse_manifest, remove_dev_table, set_scalar,
    toml_model_of, DepRow, ScalarArg};

verus! {

/// Which dependency section a dependency belongs to.
#[derive(Debug, PartialEq, Eq, Structural, Clone, Copy)]
pub enum DependencySection {
    /// Just a regular `dependency`.
    Regular,
    /// A `dev-`dependency.
    Dev,
    /// A build dependency.
    Build,
}

impl DependencySection {
    /// The table name of the section.
    pub fn key(&self) -> (r: &'static str)
        ensures
            r@ == self.spec_key(),
    {
        match self {
            DependencySection::Regular => "dependencies",
            DependencySection::Dev => "dev-dependencies",
            DependencySection::Build => "build-dependencies",
        }
    }

    pub open spec fn spec_key(&self) -> Seq<char> {
        match self {
            DependencySection::Regular => "dependencies"@,
            DependencySection::Dev => "dev-dependencies"@,
            DependencySection::Build => "build-dependencies"@,
        }
    }
}

/// The action taken on one dependency entry.
#[derive(Debug, PartialEq, Eq, Structural)]
pub enum DependencyAction {
    /// Ignored, not touched.
    Untouched,
    /// Entry was changed, the manifest needs to be saved.
    Mutated,
    /// Remove this entry and save the manifest.
    Remove,
}

} // verus!

verus! {

/// A root key that is none of the five table names the document model
/// tracks separately, so a scalar may be written under it.
pub open spec fn spec_plain_root(root: Seq<char>) -> bool {
    &&& root != "dependencies"@
    &&& root != "dev-dependencies"@
    &&& root != "build-dependencies"@
    &&& root != "target"@
    &&& root != "features"@
}

/// Round-trip preservation: loading a manifest and saving it with no
/// mutation yields the original text, byte for byte.
pub fn reserialize(text: &str) -> (r: Option<String>)
    ensures
        r is Some <==> toml_model_of(text@) is Some,
        r matches Some(out) ==> out@ == text@,
{
    match parse_manifest(text) {
        Some(d) => Some(manifest_to_string(&d)),
        None => None,
    }
}

/// Drops the top-level `dev-dependencies` table of one manifest,
/// leaving everything else as it stands.
pub fn deactivate_dev_dependencies(text: &str) -> (r: Result<String, Error>)
    ensures
        r is Ok <==> toml_model_of(text@) is Some,
        r matches Ok(out) ==> (toml_model_of(text@) matches Some(m0) && toml_model_of(out@)
            matches Some(m1) && m1.targets == m0.targets && m1.features == m0.features
            && m1.scalars == m0.scalars && m1.deps == m0.deps.filter(
            |row: DepRow| !(row.target is None && row.section == DependencySection::Dev),
        )),
{
    let mut doc = match parse_manifest(text) {
        Some(d) => d,
        None => {
            return Err(Error::Parse("the manifest text cannot be parsed".to_owned()));
        },
    };
    remove_dev_table(&mut doc);
    Ok(manifest_to_string(&doc))
}

/// Sets one field under the given root table of one manifest, adding
/// the field when it is absent.  The dependency sections, the target
/// tree and the features table cannot be edited this way.
pub fn set_field(text: &str, root_key: &String, key: &String, value: &ScalarArg) -> (r: Result<
    String,
    Error,
>)
    ensures
        r is Ok <==> spec_plain_root(root_key@) && toml_model_of(text@) is Some && (toml_model_of(
            text@,
        )->Some_0).scalar_hosts.contains(root_key@),
        r matches Ok(out) ==> (toml_model_of(text@) matches Some(m0) && toml_model_of(out@)
            matches Some(m1) && m1.targets == m0.targets && m1.features == m0.features
            && m1.deps == m0.deps && m1.scalars == m0.scalars.insert(
            (root_key@, key@),
            value@,
        )),
{
    if str_eq(root_key.as_str(), "dependencies") || str_eq(root_key.as_str(), "dev-dependencies")
        || str_eq(root_key.as_str(), "build-dependencies") || str_eq(root_key.as_str(), "target")
        || str_eq(root_key.as_str(), "features") {
        return Err(
            Error::Configuration("this table cannot be edited as a plain field".to_owned()),
        );
    }
    let mut doc = match parse_manifest(text) {
        Some(d) => d,
        None => {
            return Err(Error::Parse("the manifest text cannot be parsed".to_owned()));
        },
    };
    let ok = set_scalar(&mut doc, root_key, key, value);
    if !ok {
        return Err(Error::Configuration("the root key is not a table".to_owned()));
    }
    Ok(manifest_to_string(&doc))
}

} // verus!
