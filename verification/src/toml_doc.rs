//! The trusted bridge to `toml_edit`: a format-preserving TOML
//! document, modelled for the proofs by the text it prints
//! ([`doc_repr`]) and by the parts of its content that the edit engine
//! touches ([`doc_model`]).  Every operation on a document goes through
//! the wrappers in this module; everything that decides *what* to edit
//! is verified code elsewhere.

use vstd::prelude::*;
use crate::editor::DependencySection;

verus! {

#[verifier::external_type_specification]
#[verifier::external_body]
pub struct ExDocumentMut(toml_edit::DocumentMut);

/// The state of one field of a dependency entry.
pub enum FieldVal {
    Missing,
    Str(Seq<char>),
    NonStr,
}

/// One dependency entry: where it stands, its key, and the three
/// fields the edit engine reads or writes.  Entries that are neither a
/// table nor an inline table are not part of the model; the edit
/// engine leaves them alone.
pub struct DepRow {
    /// `None` at top level, `Some(cfg)` under `[target.<cfg>]`.
    pub target: Option<Seq<char>>,
    pub section: DependencySection,
    pub key: Seq<char>,
    pub package: FieldVal,
    pub version: FieldVal,
    pub path: FieldVal,
}

/// One element of a feature array.
pub enum FeatElem {
    StrElem(Seq<char>),
    OtherElem,
}

/// One entry of the `features` table.
pub struct FeatRow {
    pub name: Seq<char>,
    pub elems: Seq<FeatElem>,
}

/// A scalar value written into a manifest table.
pub enum ScalarVal {
    SBool(bool),
    SInt(int),
    SStr(Seq<char>),
}

/// What the edit engine sees of a document: the target subtables that
/// can host dependency sections, every dependency entry in walk order
/// (top level first, then each target; sections in the order regular,
/// dev, build), the feature table, and the scalar fields of the other
/// tables.
pub struct ManifestModel {
    pub targets: Seq<Seq<char>>,
    pub deps: Seq<DepRow>,
    pub features: Seq<FeatRow>,
    pub scalars: Map<(Seq<char>, Seq<char>), ScalarVal>,
    /// The root keys, outside the five tracked table names, that can
    /// host a scalar write: absent from the document or present as a
    /// table.
    pub scalar_hosts: Set<Seq<char>>,
}

/// Does the row stand in the given dependency host?
pub open spec fn spec_in_host(r: DepRow, target: Option<Seq<char>>, section: DependencySection)
    -> bool {
    r.target == target && r.section == section
}

/// Does the row stand at the given full address?
pub open spec fn spec_at(
    r: DepRow,
    target: Option<Seq<char>>,
    section: DependencySection,
    key: Seq<char>,
) -> bool {
    r.target == target && r.section == section && r.key == key
}

/// The target of the row names a modelled target subtable, when it has
/// one.
pub open spec fn spec_row_target_known(m: ManifestModel, r: DepRow) -> bool {
    match r.target {
        Some(t) => m.targets.contains(t),
        None => true,
    }
}

/// Keys are unique within each section table, feature names are
/// unique, and each row's target names a known target subtable.
pub open spec fn spec_model_wf(m: ManifestModel) -> bool {
    &&& forall|i: int, j: int|
        0 <= i < j < m.deps.len() ==> !(m.deps[i].target == m.deps[j].target && m.deps[i].section
            == m.deps[j].section && m.deps[i].key == m.deps[j].key)
    &&& forall|i: int, j: int|
        0 <= i < j < m.features.len() ==> m.features[i].name != m.features[j].name
    &&& forall|i: int, j: int|
        0 <= i < j < m.targets.len() ==> m.targets[i] != m.targets[j]
    &&& forall|i: int| 0 <= i < m.deps.len() ==> spec_row_target_known(m, #[trigger] m.deps[i])
}

/// The view of an optional borrowed target name.
pub open spec fn spec_target_view(target: Option<&String>) -> Option<Seq<char>> {
    match target {
        Some(t) => Some(t@),
        None => None,
    }
}

/// The three field names the edit engine touches are pairwise
/// distinct.
pub proof fn lemma_field_names_distinct()
    ensures
        "package"@ != "version"@,
        "package"@ != "path"@,
        "version"@ != "path"@,
{
    reveal_strlit("package");
    reveal_strlit("version");
    reveal_strlit("path");
    assert(("package"@).len() == 7);
    assert(("version"@).len() == 7);
    assert(("path"@).len() == 4);
    assert(("package"@)[0] == 'p');
    assert(("version"@)[0] == 'v');
}

/// `package` is none of the table names the model tracks separately.
pub proof fn lemma_package_root_ok()
    ensures
        "package"@ != "dependencies"@,
        "package"@ != "dev-dependencies"@,
        "package"@ != "build-dependencies"@,
        "package"@ != "target"@,
        "package"@ != "features"@,
{
    reveal_strlit("package");
    reveal_strlit("dependencies");
    reveal_strlit("dev-dependencies");
    reveal_strlit("build-dependencies");
    reveal_strlit("target");
    reveal_strlit("features");
    assert(("package"@).len() == 7);
    assert(("dependencies"@).len() == 12);
    assert(("dev-dependencies"@).len() == 16);
    assert(("build-dependencies"@).len() == 18);
    assert(("target"@).len() == 6);
    assert(("features"@).len() == 8);
}

/// Selects one of the three modelled fields by name.
pub open spec fn spec_field_sel(r: DepRow, field: Seq<char>) -> FieldVal {
    if field == "package"@ {
        r.package
    } else if field == "version"@ {
        r.version
    } else {
        r.path
    }
}

/// The row with one field set to the given string.
pub open spec fn spec_row_with(r: DepRow, field: Seq<char>, value: Seq<char>) -> DepRow {
    if field == "package"@ {
        DepRow { package: FieldVal::Str(value), ..r }
    } else if field == "version"@ {
        DepRow { version: FieldVal::Str(value), ..r }
    } else {
        DepRow { path: FieldVal::Str(value), ..r }
    }
}

/// The dependency list with the field of every row at the given
/// address set; in a well-formed document that is at most one row.
pub open spec fn spec_deps_with(
    deps: Seq<DepRow>,
    target: Option<Seq<char>>,
    section: DependencySection,
    key: Seq<char>,
    field: Seq<char>,
    value: Seq<char>,
) -> Seq<DepRow> {
    deps.map_values(
        |r: DepRow|
            if spec_at(r, target, section, key) {
                spec_row_with(r, field, value)
            } else {
                r
            },
    )
}

/// What `toml_edit` reads out of a text, when it parses.
pub uninterp spec fn toml_model_of(s: Seq<char>) -> Option<ManifestModel>;

/// The text a document prints as.
pub uninterp spec fn doc_repr(d: toml_edit::DocumentMut) -> Seq<char>;

/// The model of a document's current content.
pub uninterp spec fn doc_model(d: toml_edit::DocumentMut) -> ManifestModel;

/// Relies on toml_edit's format-preserving parser: a freshly parsed
/// document prints as exactly the text it was parsed from, and its
/// content is a function of that text.  Well-formedness holds because
/// TOML forbids duplicate keys within a table.
#[verifier::external_body]
pub fn parse_manifest(text: &str) -> (r: Option<toml_edit::DocumentMut>)
    ensures
        match r {
            Some(d) => doc_repr(d) == text@ && toml_model_of(text@) == Some(doc_model(d))
                && spec_model_wf(doc_model(d)),
            None => toml_model_of(text@) is None,
        },
{
    text.parse::<toml_edit::DocumentMut>().ok()
}

/// Relies on toml_edit's Display implementation: printing a document
/// yields its representation, and parsing that text back gives the
/// same content.
#[verifier::external_body]
pub fn manifest_to_string(d: &toml_edit::DocumentMut) -> (r: String)
    ensures
        r@ == doc_repr(*d),
        toml_model_of(r@) == Some(doc_model(*d)),
{
    d.to_string()
}

/// Relies on toml_edit::Table::iter: the names of the subtables of
/// `[target]`, in document order.
#[verifier::external_body]
pub fn target_names(d: &toml_edit::DocumentMut) -> (r: Vec<String>)
    ensures
        r@.len() == doc_model(*d).targets.len(),
        forall|i: int| 0 <= i < r@.len() ==> r@[i]@ == doc_model(*d).targets[i],
{
    match d.as_table().get("target").and_then(|i| i.as_table()) {
        Some(t) => t.iter().filter(|(_, v)| v.is_table()).map(|(k, _)| k.to_owned()).collect(),
        None => Vec::new(),
    }
}

/// Does some entry of this host carry the key?
pub open spec fn spec_key_of_row(
    m: ManifestModel,
    target: Option<Seq<char>>,
    section: DependencySection,
    key: Seq<char>,
) -> bool {
    exists|i: int|
        0 <= i < m.deps.len() && spec_in_host(#[trigger] m.deps[i], target, section)
            && m.deps[i].key == key
}

/// Relies on toml_edit::Table::iter: the keys of the table-like
/// entries of one dependency section, in document order.
#[verifier::external_body]
pub fn dep_keys(
    d: &toml_edit::DocumentMut,
    target: Option<&String>,
    section: &DependencySection,
    section_key: &str,
) -> (r: Vec<String>)
    requires
        section_key@ == section.spec_key(),
    ensures
        forall|k1: int, k2: int| 0 <= k1 < k2 < r@.len() ==> r@[k1]@ != r@[k2]@,
        forall|i: int| #![auto]
            0 <= i < doc_model(*d).deps.len() && spec_in_host(
                doc_model(*d).deps[i],
                spec_target_view(target),
                *section,
            ) ==> exists|k: int| #![auto] 0 <= k < r@.len() && r@[k]@ == doc_model(*d).deps[i].key,
        forall|k: int|
            0 <= k < r@.len() ==> spec_key_of_row(
                doc_model(*d),
                spec_target_view(target),
                *section,
                (#[trigger] r@[k])@,
            ),
{
    let base = match target {
        None => Some(d.as_table()),
        Some(t) => d.as_table().get("target").and_then(|i| i.as_table()).and_then(|tt| tt.get(t.as_str())).and_then(|i| i.as_table()),
    };
    match base.and_then(|b| b.get(section_key)).and_then(|i| i.as_table()) {
        Some(t) => t.iter().filter(|(_, v)| v.is_table() || v.as_inline_table().is_some()).map(|(k, _)| k.to_owned()).collect(),
        None => Vec::new(),
    }
}

/// Relies on toml_edit::TableLike::get: reads one field of one
/// dependency entry.  `None`: no such entry or no such field;
/// `Some(None)`: present but not a string; `Some(Some(s))`: the string.
#[verifier::external_body]
pub fn dep_field(
    d: &toml_edit::DocumentMut,
    target: Option<&String>,
    section: &DependencySection,
    section_key: &str,
    key: &String,
    field: &str,
) -> (r: Option<Option<String>>)
    requires
        section_key@ == section.spec_key(),
        field@ == "package"@ || field@ == "version"@ || field@ == "path"@,
    ensures
        forall|i: int| #![auto]
            0 <= i < doc_model(*d).deps.len() && spec_at(
                doc_model(*d).deps[i],
                spec_target_view(target),
                *section,
                key@,
            ) ==> (match spec_field_sel(doc_model(*d).deps[i], field@) {
                FieldVal::Missing => r is None,
                FieldVal::NonStr => r == Some(Option::<String>::None),
                FieldVal::Str(s) => r matches Some(Some(v)) && v@ == s,
            }),
        (forall|i: int| #![auto]
            0 <= i < doc_model(*d).deps.len() ==> !spec_at(
                doc_model(*d).deps[i],
                spec_target_view(target),
                *section,
                key@,
            )) ==> r is None,
{
    let base = match target {
        None => Some(d.as_table()),
        Some(t) => d.as_table().get("target").and_then(|i| i.as_table()).and_then(|tt| tt.get(t.as_str())).and_then(|i| i.as_table()),
    };
    let entry = base.and_then(|b| b.get(section_key)).and_then(|i| i.as_table()).and_then(|t| t.get(key.as_str())).and_then(|i| i.as_table_like())?;
    let item = entry.get(field)?;
    Some(item.as_str().map(|s| s.to_owned()))
}

/// Relies on toml_edit::TableLike::insert and value decoration:
/// writes one field of one dependency entry as a single-space padded
/// string value, inserting the field if it was absent.
#[verifier::external_body]
pub fn dep_set_str(
    d: &mut toml_edit::DocumentMut,
    target: Option<&String>,
    section: &DependencySection,
    section_key: &str,
    key: &String,
    field: &str,
    value: &String,
)
    requires
        section_key@ == section.spec_key(),
        field@ == "package"@ || field@ == "version"@ || field@ == "path"@,
    ensures
        doc_model(*final(d)).targets == doc_model(*old(d)).targets,
        doc_model(*final(d)).features == doc_model(*old(d)).features,
        doc_model(*final(d)).scalars == doc_model(*old(d)).scalars,
        doc_model(*final(d)).scalar_hosts == doc_model(*old(d)).scalar_hosts,
        doc_model(*final(d)).deps.len() == doc_model(*old(d)).deps.len(),
        forall|i: int| #![auto]
            0 <= i < doc_model(*old(d)).deps.len() ==> doc_model(*final(d)).deps[i] == (
            if spec_at(doc_model(*old(d)).deps[i], spec_target_view(target), *section, key@) {
                spec_row_with(doc_model(*old(d)).deps[i], field@, value@)
            } else {
                doc_model(*old(d)).deps[i]
            }),
{
    let base = match target {
        None => Some(d.as_table_mut()),
        Some(t) => d.as_table_mut().get_mut("target").and_then(|i| i.as_table_mut()).and_then(|tt| tt.get_mut(t.as_str())).and_then(|i| i.as_table_mut()),
    };
    if let Some(entry) = base.and_then(|b| b.get_mut(section_key)).and_then(|i| i.as_table_mut()).and_then(|t| t.get_mut(key.as_str())).and_then(|i| i.as_table_like_mut()) {
        let v = toml_edit::Value::from(value.as_str()).decorated(" ", if entry.contains_key(field) { "" } else { " " });
        entry.insert(field, toml_edit::Item::Value(v));
    }
}

/// Relies on toml_edit::TableLike::remove: removes one dependency
/// entry.
#[verifier::external_body]
pub fn dep_remove(
    d: &mut toml_edit::DocumentMut,
    target: Option<&String>,
    section: &DependencySection,
    section_key: &str,
    key: &String,
)
    requires
        section_key@ == section.spec_key(),
    ensures
        doc_model(*final(d)).targets == doc_model(*old(d)).targets,
        doc_model(*final(d)).features == doc_model(*old(d)).features,
        doc_model(*final(d)).scalars == doc_model(*old(d)).scalars,
        doc_model(*final(d)).scalar_hosts == doc_model(*old(d)).scalar_hosts,
        doc_model(*final(d)).deps == doc_model(*old(d)).deps.filter(
            |r: DepRow| !spec_at(r, spec_target_view(target), *section, key@),
        ),
{
    let base = match target {
        None => Some(d.as_table_mut()),
        Some(t) => d.as_table_mut().get_mut("target").and_then(|i| i.as_table_mut()).and_then(|tt| tt.get_mut(t.as_str())).and_then(|i| i.as_table_mut()),
    };
    if let Some(t) = base.and_then(|b| b.get_mut(section_key)).and_then(|i| i.as_table_mut()) {
        if t.get(key.as_str()).map_or(false, |i| i.is_table() || i.as_inline_table().is_some()) {
            t.remove(key.as_str());
        }
    }
}

/// Relies on toml_edit::Table::iter: the names of the `features`
/// table, in document order.
#[verifier::external_body]
pub fn feature_names(d: &toml_edit::DocumentMut) -> (r: Vec<String>)
    ensures
        r@.len() == doc_model(*d).features.len(),
        forall|i: int| 0 <= i < r@.len() ==> r@[i]@ == doc_model(*d).features[i].name,
{
    match d.as_table().get("features").and_then(|i| i.as_table()) {
        Some(t) => t.iter().filter(|(_, v)| v.as_array().is_some()).map(|(k, _)| k.to_owned())
            .collect(),
        None => Vec::new(),
    }
}

/// How one modelled feature element reads back out.
pub open spec fn spec_elem_reads(e: FeatElem, o: Option<String>) -> bool {
    match e {
        FeatElem::StrElem(s) => o matches Some(v) && v@ == s,
        FeatElem::OtherElem => o is None,
    }
}

/// Relies on toml_edit::Array::iter: the elements of one feature
/// array; a non-string element reads as `None`.
#[verifier::external_body]
pub fn feature_elems(d: &toml_edit::DocumentMut, name: &String) -> (r: Vec<Option<String>>)
    ensures
        forall|i: int| #![auto]
            0 <= i < doc_model(*d).features.len() && doc_model(*d).features[i].name == name@
                ==> (r@.len() == doc_model(*d).features[i].elems.len() && forall|j: int|
                0 <= j < r@.len() ==> spec_elem_reads(
                    #[trigger] doc_model(*d).features[i].elems[j],
                    r@[j],
                )),
        (forall|i: int| #![auto]
            0 <= i < doc_model(*d).features.len() ==> doc_model(*d).features[i].name != name@)
            ==> r@.len() == 0,
{
    match d
        .as_table()
        .get("features")
        .and_then(|i| i.as_table())
        .and_then(|t| t.get(name.as_str()))
        .and_then(|i| i.as_array())
    {
        Some(a) => a.iter().map(|v| v.as_str().map(|s| s.to_owned())).collect(),
        None => Vec::new(),
    }
}

/// Relies on toml_edit::Array::remove: removes one element of one
/// feature array; out-of-range indices are left alone.
#[verifier::external_body]
pub fn feature_remove_elem(d: &mut toml_edit::DocumentMut, name: &String, idx: usize)
    ensures
        doc_model(*final(d)).targets == doc_model(*old(d)).targets,
        doc_model(*final(d)).deps == doc_model(*old(d)).deps,
        doc_model(*final(d)).scalars == doc_model(*old(d)).scalars,
        doc_model(*final(d)).scalar_hosts == doc_model(*old(d)).scalar_hosts,
        doc_model(*final(d)).features == doc_model(*old(d)).features.map_values(
            |f: FeatRow|
                if f.name == name@ && idx < f.elems.len() {
                    FeatRow { elems: f.elems.remove(idx as int), ..f }
                } else {
                    f
                },
        ),
{
    if let Some(a) = d
        .as_table_mut()
        .get_mut("features")
        .and_then(|i| i.as_table_mut())
        .and_then(|t| t.get_mut(name.as_str()))
        .and_then(|i| i.as_array_mut())
    {
        if idx < a.len() {
            a.remove(idx);
        }
    }
}

/// A scalar to be written into a manifest table.
pub enum ScalarArg {
    Bool(bool),
    Int(i64),
    Str(String),
}

impl View for ScalarArg {
    type V = ScalarVal;

    open spec fn view(&self) -> ScalarVal {
        match self {
            ScalarArg::Bool(b) => ScalarVal::SBool(*b),
            ScalarArg::Int(i) => ScalarVal::SInt(*i as int),
            ScalarArg::Str(s) => ScalarVal::SStr(s@),
        }
    }
}

/// Relies on toml_edit::Table::insert: sets one scalar field under the
/// given root table, creating the table when it is absent.  The root
/// key must not name a dependency host, the target tree or the
/// features table, which the model tracks separately.
#[verifier::external_body]
pub fn set_scalar(d: &mut toml_edit::DocumentMut, root: &String, key: &String, value: &ScalarArg)
    -> (r: bool)
    requires
        root@ != "dependencies"@,
        root@ != "dev-dependencies"@,
        root@ != "build-dependencies"@,
        root@ != "target"@,
        root@ != "features"@,
    ensures
        r == doc_model(*old(d)).scalar_hosts.contains(root@),
        doc_model(*final(d)).targets == doc_model(*old(d)).targets,
        doc_model(*final(d)).deps == doc_model(*old(d)).deps,
        doc_model(*final(d)).features == doc_model(*old(d)).features,
        r ==> doc_model(*final(d)).scalars == doc_model(*old(d)).scalars.insert(
            (root@, key@),
            value@,
        ) && doc_model(*final(d)).scalar_hosts == doc_model(*old(d)).scalar_hosts,
        !r ==> doc_model(*final(d)) == doc_model(*old(d)),
{
    let root_item = d.as_table_mut().entry(root.as_str()).or_insert(toml_edit::Item::Table(toml_edit::Table::new()));
    if let Some(t) = root_item.as_table_mut() {
        let v = match value {
            ScalarArg::Bool(b) => toml_edit::Value::from(*b),
            ScalarArg::Int(i) => toml_edit::Value::from(*i),
            ScalarArg::Str(s) => toml_edit::Value::from(s.as_str()),
        };
        t.insert(key.as_str(), toml_edit::Item::Value(v.decorated(" ", "")));
        true
    } else {
        false
    }
}

/// Relies on toml_edit::Table::remove: drops the top-level
/// `dev-dependencies` table.
#[verifier::external_body]
pub fn remove_dev_table(d: &mut toml_edit::DocumentMut)
    ensures
        doc_model(*final(d)).targets == doc_model(*old(d)).targets,
        doc_model(*final(d)).features == doc_model(*old(d)).features,
        doc_model(*final(d)).scalars == doc_model(*old(d)).scalars,
        doc_model(*final(d)).scalar_hosts == doc_model(*old(d)).scalar_hosts,
        doc_model(*final(d)).deps == doc_model(*old(d)).deps.filter(
            |r: DepRow| !(r.target is None && r.section == DependencySection::Dev),
        ),
{
    d.as_table_mut().remove("dev-dependencies");
}

} // verus!
