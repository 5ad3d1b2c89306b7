//! The rename engine: a package's declared name changes, and every
//! dependency entry in the workspace whose true name matches is given
//! an explicit `package` field with the new name, keeping its alias.
//! Entries are rewritten whether or not they carry a `path`: a local
//! rename propagates even to entries that pin a registry version.

use vstd::prelude::*;
use crate::cascade::spec_dep_name;
use crate::editor::DependencySection;
use crate::errors::Error;
use crate::strutil::str_eq;
use crate::workspace::PkgInfo;
use crate::toml_doc::{dep_field, dep_keys, dep_set_str, doc_model, lemma_field_names_distinct,
    lemma_package_root_ok, manifest_to_string, parse_manifest, set_scalar, spec_at,
    spec_field_sel, spec_in_host, spec_model_wf, spec_row_target_known, spec_target_view,
    target_names, toml_model_of, DepRow, FieldVal, ScalarArg, ScalarVal};

verus! {

/// The new name recorded for a package, if any.
pub open spec fn spec_new_name(u: Seq<(String, String)>, name: Seq<char>) -> Option<Seq<char>>
    decreases u.len(),
{
    if u.len() == 0 {
        None
    } else if u[0].0@ == name {
        Some(u[0].1@)
    } else {
        spec_new_name(u.drop_first(), name)
    }
}

/// Looks a package name up in the rename list.
#[verifier::loop_isolation(false)]
fn new_name_for(u: &Vec<(String, String)>, name: &str) -> (r: Option<String>)
    ensures
        match r {
            Some(v) => spec_new_name(u@, name@) == Some(v@),
            None => spec_new_name(u@, name@) is None,
        },
{
    let len = u.len();
    proof {
        assert(u@.skip(0) =~= u@);
    }
    for i in 0..len
        invariant
            spec_new_name(u@, name@) == spec_new_name(u@.skip(i as int), name@),
    {
        proof {
            assert(u@.skip(i as int)[0] == u@[i as int]);
            assert(u@.skip(i as int).drop_first() =~= u@.skip(i + 1));
        }
        let pair = &u[i];
        if str_eq(pair.0.as_str(), name) {
            return Some(pair.1.clone());
        }
    }
    proof {
        assert(u@.skip(len as int).len() == 0);
    }
    None
}

/// What the rename does to one dependency entry; `None` marks an
/// entry with a non-string `package` field.
pub open spec fn spec_rename_row(r: DepRow, u: Seq<(String, String)>) -> Option<DepRow> {
    match spec_dep_name(r) {
        None => None,
        Some(name) => match spec_new_name(u, name) {
            None => Some(r),
            Some(nn) => Some(DepRow { package: FieldVal::Str(nn), ..r }),
        },
    }
}

/// Is this key among the first `upto` keys?
spec fn key_in_prefix(keys: Seq<String>, upto: int, key: Seq<char>) -> bool {
    exists|j: int| 0 <= j < upto && (#[trigger] keys[j])@ == key
}

/// Rewrites the entries of one dependency section of one host table.
#[verifier::rlimit(100)]
#[verifier::loop_isolation(false)]
fn rename_host(
    d: &mut toml_edit::DocumentMut,
    target: Option<&String>,
    section: &DependencySection,
    updates: &Vec<(String, String)>,
    count: &mut u32,
) -> (r: Result<(), Error>)
    ensures
        doc_model(*final(d)).targets == doc_model(*old(d)).targets,
        doc_model(*final(d)).features == doc_model(*old(d)).features,
        doc_model(*final(d)).scalars == doc_model(*old(d)).scalars,
        doc_model(*final(d)).deps.len() == doc_model(*old(d)).deps.len(),
        forall|i: int| #![auto]
            0 <= i < doc_model(*old(d)).deps.len() && !spec_in_host(
                doc_model(*old(d)).deps[i],
                spec_target_view(target),
                *section,
            ) ==> doc_model(*final(d)).deps[i] == doc_model(*old(d)).deps[i],
        r is Ok ==> forall|i: int| #![auto]
            0 <= i < doc_model(*old(d)).deps.len() && spec_in_host(
                doc_model(*old(d)).deps[i],
                spec_target_view(target),
                *section,
            ) ==> spec_rename_row(doc_model(*old(d)).deps[i], updates@) == Some(
                doc_model(*final(d)).deps[i],
            ),
        r is Err ==> exists|i: int| #![auto]
            0 <= i < doc_model(*old(d)).deps.len() && spec_in_host(
                doc_model(*old(d)).deps[i],
                spec_target_view(target),
                *section,
            ) && spec_rename_row(doc_model(*old(d)).deps[i], updates@) is None,
{
    let ghost tv = spec_target_view(target);
    let keys = dep_keys(d, target, section, section.key());
    let ghost m0 = doc_model(*d);
    let klen = keys.len();
    for k in 0..klen
        invariant
            doc_model(*d).targets == m0.targets,
            doc_model(*d).features == m0.features,
            doc_model(*d).scalars == m0.scalars,
            doc_model(*d).deps.len() == m0.deps.len(),
            forall|i: int| #![auto]
                0 <= i < m0.deps.len() ==> doc_model(*d).deps[i] == (
                if spec_in_host(m0.deps[i], tv, *section) && key_in_prefix(
                    keys@,
                    k as int,
                    m0.deps[i].key,
                ) {
                    spec_rename_row(m0.deps[i], updates@)->Some_0
                } else {
                    m0.deps[i]
                }),
            forall|i: int| #![auto]
                0 <= i < m0.deps.len() && spec_in_host(m0.deps[i], tv, *section) && key_in_prefix(
                    keys@,
                    k as int,
                    m0.deps[i].key,
                ) ==> spec_rename_row(m0.deps[i], updates@) is Some,
    {
        let key = &keys[k];
        let ghost mc = doc_model(*d);
        proof {
            assert forall|i: int|
                0 <= i < mc.deps.len() && spec_at(mc.deps[i], tv, *section, key@) implies mc.deps[i]
                == m0.deps[i] && spec_at(m0.deps[i], tv, *section, key@) by {
                if spec_in_host(m0.deps[i], tv, *section) && key_in_prefix(
                    keys@,
                    k as int,
                    m0.deps[i].key,
                ) {
                    assert(mc.deps[i].key == m0.deps[i].key);
                    assert(key_in_prefix(keys@, k as int, key@));
                    assert(false);
                }
            }
        }
        let pkg = dep_field(d, target, section, section.key(), key, "package");
        if matches!(pkg, Some(None)) {
            proof {
                lemma_field_names_distinct();
                assert(exists|i: int| #![auto]
                    0 <= i < mc.deps.len() && spec_at(mc.deps[i], tv, *section, key@));
                let i = choose|i: int| #![auto]
                    0 <= i < mc.deps.len() && spec_at(mc.deps[i], tv, *section, key@);
                assert(spec_field_sel(mc.deps[i], "package"@) == mc.deps[i].package);
                assert(mc.deps[i] == m0.deps[i]);
                assert(spec_in_host(m0.deps[i], tv, *section));
                assert(spec_rename_row(m0.deps[i], updates@) is None);
            }
            return Err(Error::Parse("a dependency's package field is not a string".to_owned()));
        }
        let name: String = match pkg {
            Some(Some(p)) => p,
            _ => key.clone(),
        };
        proof {
            assert forall|i: int|
                0 <= i < m0.deps.len() && spec_at(m0.deps[i], tv, *section, key@) implies
                spec_dep_name(m0.deps[i]) == Some(name@) by {
                lemma_field_names_distinct();
                assert(spec_field_sel(mc.deps[i], "package"@) == mc.deps[i].package);
                assert(spec_at(mc.deps[i], tv, *section, key@));
            }
        }
        let nn = new_name_for(updates, name.as_str());
        proof {
            assert forall|i: int|
                0 <= i < m0.deps.len() && spec_at(m0.deps[i], tv, *section, key@) implies (
            (spec_rename_row(m0.deps[i], updates@) matches Some(rr) && rr == (
            match nn {
                Some(v) => DepRow { package: FieldVal::Str(v@), ..m0.deps[i] },
                None => m0.deps[i],
            }))) by {
                lemma_field_names_distinct();
            }
        }
        match &nn {
            Some(newname) => {
                dep_set_str(d, target, section, section.key(), key, "package", newname);
                if *count < u32::MAX {
                    *count = *count + 1;
                }
            },
            None => {},
        }
        proof {
            lemma_field_names_distinct();
            assert forall|i: int|
                0 <= i < m0.deps.len() implies doc_model(*d).deps[i] == (if spec_in_host(
                m0.deps[i],
                tv,
                *section,
            ) && key_in_prefix(keys@, k + 1, m0.deps[i].key) {
                spec_rename_row(m0.deps[i], updates@)->Some_0
            } else {
                m0.deps[i]
            }) && (spec_in_host(m0.deps[i], tv, *section) && key_in_prefix(
                keys@,
                k + 1,
                m0.deps[i].key,
            ) ==> spec_rename_row(m0.deps[i], updates@) is Some) by {
                if spec_in_host(m0.deps[i], tv, *section) && m0.deps[i].key == key@ {
                    assert(spec_at(m0.deps[i], tv, *section, key@));
                    assert(key_in_prefix(keys@, k + 1, m0.deps[i].key));
                } else {
                    if key_in_prefix(keys@, k + 1, m0.deps[i].key) && !key_in_prefix(
                        keys@,
                        k as int,
                        m0.deps[i].key,
                    ) {
                        assert((keys@[k as int])@ == m0.deps[i].key);
                    }
                }
            }
        }
    }
    proof {
        assert forall|i: int|
            0 <= i < m0.deps.len() && spec_in_host(m0.deps[i], tv, *section) implies key_in_prefix(
            keys@,
            klen as int,
            m0.deps[i].key,
        ) by {}
    }
    Ok(())
}

/// The rename never moves an entry.
proof fn lemma_rename_keeps_address(r: DepRow, u: Seq<(String, String)>)
    ensures
        spec_rename_row(r, u) matches Some(rr) ==> rr.target == r.target && rr.section == r.section
            && rr.key == r.key,
{
}

/// Rewrites all three dependency sections of one host table.
#[verifier::loop_isolation(false)]
fn rename_target(
    d: &mut toml_edit::DocumentMut,
    target: Option<&String>,
    updates: &Vec<(String, String)>,
    count: &mut u32,
) -> (r: Result<(), Error>)
    ensures
        doc_model(*final(d)).targets == doc_model(*old(d)).targets,
        doc_model(*final(d)).features == doc_model(*old(d)).features,
        doc_model(*final(d)).scalars == doc_model(*old(d)).scalars,
        doc_model(*final(d)).deps.len() == doc_model(*old(d)).deps.len(),
        forall|i: int| #![auto]
            0 <= i < doc_model(*old(d)).deps.len() && doc_model(*old(d)).deps[i].target
                != spec_target_view(target) ==> doc_model(*final(d)).deps[i] == doc_model(
                *old(d),
            ).deps[i],
        r is Ok ==> forall|i: int| #![auto]
            0 <= i < doc_model(*old(d)).deps.len() && doc_model(*old(d)).deps[i].target
                == spec_target_view(target) ==> spec_rename_row(
                doc_model(*old(d)).deps[i],
                updates@,
            ) == Some(doc_model(*final(d)).deps[i]),
        r is Err ==> exists|i: int| #![auto]
            0 <= i < doc_model(*old(d)).deps.len() && doc_model(*old(d)).deps[i].target
                == spec_target_view(target) && spec_rename_row(
                doc_model(*old(d)).deps[i],
                updates@,
            ) is None,
{
    let ghost tv = spec_target_view(target);
    let ghost m0 = doc_model(*d);
    let res = rename_host(d, target, &DependencySection::Regular, updates, count);
    if res.is_err() {
        return res;
    }
    let ghost m1 = doc_model(*d);
    let res = rename_host(d, target, &DependencySection::Dev, updates, count);
    if res.is_err() {
        proof {
            let i = choose|i: int| #![auto]
                0 <= i < m1.deps.len() && spec_in_host(m1.deps[i], tv, DependencySection::Dev)
                    && spec_rename_row(m1.deps[i], updates@) is None;
            assert(!spec_in_host(m0.deps[i], tv, DependencySection::Regular));
            assert(m1.deps[i] == m0.deps[i]);
        }
        return res;
    }
    let ghost m2 = doc_model(*d);
    let res = rename_host(d, target, &DependencySection::Build, updates, count);
    if res.is_err() {
        proof {
            let i = choose|i: int| #![auto]
                0 <= i < m2.deps.len() && spec_in_host(m2.deps[i], tv, DependencySection::Build)
                    && spec_rename_row(m2.deps[i], updates@) is None;
            assert(!spec_in_host(m0.deps[i], tv, DependencySection::Regular));
            assert(!spec_in_host(m1.deps[i], tv, DependencySection::Dev));
            assert(m1.deps[i] == m0.deps[i] && m2.deps[i] == m1.deps[i]);
        }
        return res;
    }
    proof {
        assert forall|i: int|
            0 <= i < m0.deps.len() && m0.deps[i].target == tv implies spec_rename_row(
            m0.deps[i],
            updates@,
        ) == Some(doc_model(*d).deps[i]) by {
            lemma_rename_keeps_address(m0.deps[i], updates@);
            if m0.deps[i].section == DependencySection::Regular {
                assert(spec_in_host(m0.deps[i], tv, DependencySection::Regular));
                assert(!spec_in_host(m1.deps[i], tv, DependencySection::Dev));
                assert(!spec_in_host(m2.deps[i], tv, DependencySection::Build));
            } else if m0.deps[i].section == DependencySection::Dev {
                assert(m1.deps[i] == m0.deps[i]);
                assert(spec_in_host(m1.deps[i], tv, DependencySection::Dev));
                assert(!spec_in_host(m2.deps[i], tv, DependencySection::Build));
            } else {
                assert(m1.deps[i] == m0.deps[i]);
                assert(m2.deps[i] == m0.deps[i]);
                assert(spec_in_host(m2.deps[i], tv, DependencySection::Build));
            }
        }
    }
    Ok(())
}

/// Rewrites every dependency entry of the document whose true name
/// was renamed.
#[verifier::loop_isolation(false)]
fn rename_doc(d: &mut toml_edit::DocumentMut, updates: &Vec<(String, String)>) -> (r: Result<
    u32,
    Error,
>)
    requires
        spec_model_wf(doc_model(*old(d))),
    ensures
        doc_model(*final(d)).targets == doc_model(*old(d)).targets,
        doc_model(*final(d)).features == doc_model(*old(d)).features,
        doc_model(*final(d)).scalars == doc_model(*old(d)).scalars,
        doc_model(*final(d)).deps.len() == doc_model(*old(d)).deps.len(),
        r is Ok ==> forall|i: int| #![auto]
            0 <= i < doc_model(*old(d)).deps.len() ==> spec_rename_row(
                doc_model(*old(d)).deps[i],
                updates@,
            ) == Some(doc_model(*final(d)).deps[i]),
        r is Err ==> exists|i: int| #![auto]
            0 <= i < doc_model(*old(d)).deps.len() && spec_rename_row(
                doc_model(*old(d)).deps[i],
                updates@,
            ) is None,
{
    let mut count: u32 = 0;
    let ghost m0 = doc_model(*d);
    let res = rename_target(d, None, updates, &mut count);
    if res.is_err() {
        return Err(res.unwrap_err());
    }
    let targets = target_names(d);
    let tlen = targets.len();
    for t in 0..tlen
        invariant
            doc_model(*d).targets == m0.targets,
            doc_model(*d).features == m0.features,
            doc_model(*d).scalars == m0.scalars,
            doc_model(*d).deps.len() == m0.deps.len(),
            tlen == targets@.len(),
            targets@.len() == m0.targets.len(),
            forall|j: int| 0 <= j < targets@.len() ==> (#[trigger] targets@[j])@ == m0.targets[j],
            forall|i: int| #![auto]
                0 <= i < m0.deps.len() ==> doc_model(*d).deps[i] == (
                if m0.deps[i].target is None || (exists|j: int|
                    0 <= j < t && Some((#[trigger] targets@[j])@) == m0.deps[i].target) {
                    spec_rename_row(m0.deps[i], updates@)->Some_0
                } else {
                    m0.deps[i]
                }),
            forall|i: int| #![auto]
                0 <= i < m0.deps.len() && (m0.deps[i].target is None || (exists|j: int|
                    0 <= j < t && Some((#[trigger] targets@[j])@) == m0.deps[i].target))
                    ==> spec_rename_row(m0.deps[i], updates@) is Some,
    {
        let ghost mc = doc_model(*d);
        let tname = &targets[t];
        proof {
            assert forall|i: int|
                0 <= i < m0.deps.len() && mc.deps[i].target == Some(tname@) implies mc.deps[i]
                == m0.deps[i] && m0.deps[i].target == Some(tname@) by {
                lemma_rename_keeps_address(m0.deps[i], updates@);
                if m0.deps[i].target is None {
                    assert(false);
                } else if exists|j: int|
                    0 <= j < t && Some((#[trigger] targets@[j])@) == m0.deps[i].target {
                    let j = choose|j: int|
                        0 <= j < t && Some((#[trigger] targets@[j])@) == m0.deps[i].target;
                    assert(m0.targets[j] == tname@);
                    assert(m0.targets[t as int] == tname@);
                    assert(false);
                }
            }
        }
        let res = rename_target(d, Some(tname), updates, &mut count);
        if res.is_err() {
            proof {
                let i = choose|i: int| #![auto]
                    0 <= i < mc.deps.len() && mc.deps[i].target == Some(tname@)
                        && spec_rename_row(mc.deps[i], updates@) is None;
                assert(mc.deps[i] == m0.deps[i]);
            }
            return Err(res.unwrap_err());
        }
        proof {
            assert forall|i: int|
                0 <= i < m0.deps.len() implies doc_model(*d).deps[i] == (
            if m0.deps[i].target is None || (exists|j: int|
                0 <= j < t + 1 && Some((#[trigger] targets@[j])@) == m0.deps[i].target) {
                spec_rename_row(m0.deps[i], updates@)->Some_0
            } else {
                m0.deps[i]
            }) && ((m0.deps[i].target is None || (exists|j: int|
                0 <= j < t + 1 && Some((#[trigger] targets@[j])@) == m0.deps[i].target))
                ==> spec_rename_row(m0.deps[i], updates@) is Some) by {
                lemma_rename_keeps_address(m0.deps[i], updates@);
                if mc.deps[i].target == Some(tname@) {
                    assert(m0.deps[i].target == Some(tname@));
                    assert(Some((targets@[t as int])@) == m0.deps[i].target);
                } else {
                    if m0.deps[i].target is None || (exists|j: int|
                        0 <= j < t && Some((#[trigger] targets@[j])@) == m0.deps[i].target) {
                        assert(mc.deps[i].target == m0.deps[i].target);
                    } else {
                        if exists|j: int|
                            0 <= j < t + 1 && Some((#[trigger] targets@[j])@)
                                == m0.deps[i].target {
                            let j = choose|j: int|
                                0 <= j < t + 1 && Some((#[trigger] targets@[j])@)
                                    == m0.deps[i].target;
                            assert(j == t);
                            assert(mc.deps[i] == m0.deps[i]);
                            assert(false);
                        }
                    }
                }
            }
        }
    }
    proof {
        assert forall|i: int|
            0 <= i < m0.deps.len() implies (m0.deps[i].target is None || (exists|j: int|
            0 <= j < tlen && Some((#[trigger] targets@[j])@) == m0.deps[i].target)) by {
            if m0.deps[i].target is Some {
                let tg = m0.deps[i].target->0;
                assert(spec_row_target_known(m0, m0.deps[i]));
                assert(m0.targets.contains(tg));
                let j = choose|j: int| 0 <= j < m0.targets.len() && m0.targets[j] == tg;
                assert((targets@[j])@ == tg);
            }
        }
    }
    Ok(count)
}

/// Rewrites one manifest text so every dependency entry on a renamed
/// package resolves to the new name through an explicit `package`
/// field, preserving its alias.
pub fn rename_manifest(text: &str, updates: &Vec<(String, String)>) -> (r: Result<String, Error>)
    ensures
        r is Ok <==> toml_model_of(text@) is Some && (forall|i: int| #![auto]
            0 <= i < (toml_model_of(text@)->Some_0).deps.len() ==> spec_rename_row(
                (toml_model_of(text@)->Some_0).deps[i],
                updates@,
            ) is Some),
        r matches Ok(out) ==> (toml_model_of(text@) matches Some(m0) && toml_model_of(out@)
            matches Some(m1) && m1.targets == m0.targets && m1.features == m0.features
            && m1.scalars == m0.scalars && m1.deps.len() == m0.deps.len() && forall|i: int|
            #![auto]
            0 <= i < m0.deps.len() ==> spec_rename_row(m0.deps[i], updates@) == Some(m1.deps[i])),
{
    let mut doc = match parse_manifest(text) {
        Some(d) => d,
        None => {
            return Err(Error::Parse("the manifest text cannot be parsed".to_owned()));
        },
    };
    match rename_doc(&mut doc, updates) {
        Ok(_) => Ok(manifest_to_string(&doc)),
        Err(e) => Err(e),
    }
}

/// Writes a package's new name into its own manifest.
pub fn apply_name_to_manifest(text: &str, name: &String) -> (r: Result<String, Error>)
    ensures
        r is Ok <==> toml_model_of(text@) is Some && (toml_model_of(
            text@,
        )->Some_0).scalar_hosts.contains("package"@),
        r matches Ok(out) ==> (toml_model_of(text@) matches Some(m0) && toml_model_of(out@)
            matches Some(m1) && m1.targets == m0.targets && m1.features == m0.features
            && m1.deps == m0.deps && m1.scalars == m0.scalars.insert(
            ("package"@, "name"@),
            ScalarVal::SStr(name@),
        )),
{
    let mut doc = match parse_manifest(text) {
        Some(d) => d,
        None => {
            return Err(Error::Parse("the manifest text cannot be parsed".to_owned()));
        },
    };
    proof {
        lemma_package_root_ok();
    }
    let root = String::from_str("package");
    let key = String::from_str("name");
    let ok = set_scalar(&mut doc, &root, &key, &ScalarArg::Str(name.clone()));
    if !ok {
        return Err(Error::Parse("the package table of the manifest is malformed".to_owned()));
    }
    Ok(manifest_to_string(&doc))
}

/// What the rename promises for one entry: if its true name was
/// renamed, the entry afterwards resolves to the new name; otherwise
/// it is untouched.
pub open spec fn spec_rename_claim(b: DepRow, a: DepRow, u: Seq<(String, String)>) -> bool {
    match spec_dep_name(b) {
        Some(name) => match spec_new_name(u, name) {
            Some(nn) => spec_dep_name(a) == Some(nn),
            None => a == b,
        },
        None => true,
    }
}

/// Rename cascade completeness: after the rename pass, every
/// dependency entry whose true name was a renamed package resolves to
/// the new name through an explicit `package` field.
pub proof fn lemma_rename_cascade_completeness(
    before: Seq<DepRow>,
    after: Seq<DepRow>,
    u: Seq<(String, String)>,
)
    requires
        before.len() == after.len(),
        forall|i: int| #![auto]
            0 <= i < before.len() ==> spec_rename_row(before[i], u) == Some(after[i]),
    ensures
        forall|i: int|
            0 <= i < after.len() ==> spec_rename_claim(#[trigger] before[i], after[i], u),
{
    assert forall|i: int|
        0 <= i < after.len() implies spec_rename_claim(#[trigger] before[i], after[i], u) by {
        assert(spec_rename_row(before[i], u) == Some(after[i]));
    }
}

/// What the rename does to one dependency entry for a single
/// old-to-new pair.
pub open spec fn spec_rename_one(r: DepRow, old_name: Seq<char>, new_name: Seq<char>) -> Option<
    DepRow,
> {
    match spec_dep_name(r) {
        None => None,
        Some(n) => if n == old_name {
            Some(DepRow { package: FieldVal::Str(new_name), ..r })
        } else {
            Some(r)
        },
    }
}

proof fn lemma_rename_single(r: DepRow, u: Seq<(String, String)>, old_name: Seq<char>, new_name: Seq<char>)
    requires
        u.len() == 1,
        u[0].0@ == old_name,
        u[0].1@ == new_name,
    ensures
        spec_rename_row(r, u) == spec_rename_one(r, old_name, new_name),
{
    assert(u.drop_first().len() == 0);
    if spec_dep_name(r) is Some {
        let n = spec_dep_name(r)->0;
        if n != old_name {
            assert(spec_new_name(u.drop_first(), n) is None);
        }
    }
}

/// What the whole rename pass makes of one manifest text.
pub open spec fn spec_rename_pass_file(
    t: Seq<char>,
    out: Seq<char>,
    old_name: Seq<char>,
    new_name: Seq<char>,
    is_renamed: bool,
) -> bool {
    &&& toml_model_of(t) is Some
    &&& toml_model_of(out) is Some
    &&& {
        let m0 = toml_model_of(t)->Some_0;
        let m1 = toml_model_of(out)->Some_0;
        &&& m1.targets == m0.targets
        &&& m1.features == m0.features
        &&& m1.deps.len() == m0.deps.len()
        &&& forall|j: int| #![auto]
            0 <= j < m0.deps.len() ==> spec_rename_one(m0.deps[j], old_name, new_name) == Some(
                m1.deps[j],
            )
        &&& m1.scalars == (if is_renamed {
            m0.scalars.insert(("package"@, "name"@), ScalarVal::SStr(new_name))
        } else {
            m0.scalars
        })
    }
}

/// What stops the rename pass on one manifest: an unparseable text, a
/// renamed package whose `package` table cannot be written, or a
/// dependency entry whose `package` field is not a string.
pub open spec fn spec_rename_pass_blocked(
    t: Seq<char>,
    old_name: Seq<char>,
    new_name: Seq<char>,
    is_renamed: bool,
) -> bool {
    ||| toml_model_of(t) is None
    ||| (is_renamed && !(toml_model_of(t)->Some_0).scalar_hosts.contains("package"@))
    ||| exists|j: int| #![auto]
        0 <= j < (toml_model_of(t)->Some_0).deps.len() && spec_rename_one(
            (toml_model_of(t)->Some_0).deps[j],
            old_name,
            new_name,
        ) is None
}

/// Renames the packages whose name matches `old_name` and rewrites
/// every consumer's dependency entries: the renamed package's own
/// manifest gets the new `package.name`, and each entry on the old
/// name an explicit `package` field.  With no matching package the
/// texts come back as they stand.
#[verifier::rlimit(60)]
#[verifier::loop_isolation(false)]
pub fn rename(
    texts: &Vec<String>,
    pkgs: &Vec<PkgInfo>,
    old_name: &String,
    new_name: &String,
) -> (r: Result<Vec<String>, Error>)
    requires
        pkgs@.len() == texts@.len(),
    ensures
        r matches Ok(outs) ==> outs@.len() == texts@.len(),
        !crate::workspace::spec_has_name(pkgs@, old_name@) ==> (r matches Ok(outs) && forall|
            i: int,
        |
            #![auto]
            0 <= i < texts@.len() ==> outs@[i]@ == texts@[i]@),
        crate::workspace::spec_has_name(pkgs@, old_name@) ==> (r is Ok <==> forall|i: int|
            #![auto]
            0 <= i < texts@.len() ==> !spec_rename_pass_blocked(
                texts@[i]@,
                old_name@,
                new_name@,
                pkgs@[i]@.name == old_name@,
            )),
        r matches Ok(outs) ==> crate::workspace::spec_has_name(pkgs@, old_name@) ==> forall|
            i: int,
        |
            #![auto]
            0 <= i < texts@.len() ==> spec_rename_pass_file(
                texts@[i]@,
                outs@[i]@,
                old_name@,
                new_name@,
                pkgs@[i]@.name == old_name@,
            ),
{
    let n = texts.len();
    let mut matched = false;
    let mut mids: Vec<String> = Vec::new();
    for i in 0..n
        invariant
            mids@.len() == i,
            matched == exists|j: int| 0 <= j < i && (#[trigger] pkgs@[j])@.name == old_name@,
            !matched ==> forall|j: int| 0 <= j < i ==> (#[trigger] mids@[j])@ == texts@[j]@,
            forall|j: int| #![auto]
                0 <= j < i ==> (if pkgs@[j]@.name == old_name@ {
                    toml_model_of(texts@[j]@) is Some && (toml_model_of(
                        texts@[j]@,
                    )->Some_0).scalar_hosts.contains("package"@) && toml_model_of(mids@[j]@)
                        is Some && {
                        let m0 = toml_model_of(texts@[j]@)->Some_0;
                        let mm = toml_model_of(mids@[j]@)->Some_0;
                        &&& mm.targets == m0.targets
                        &&& mm.features == m0.features
                        &&& mm.deps == m0.deps
                        &&& mm.scalars == m0.scalars.insert(
                            ("package"@, "name"@),
                            ScalarVal::SStr(new_name@),
                        )
                    }
                } else {
                    mids@[j]@ == texts@[j]@
                }),
    {
        if str_eq(pkgs[i].name.as_str(), old_name.as_str()) {
            matched = true;
            match apply_name_to_manifest(texts[i].as_str(), new_name) {
                Ok(out) => mids.push(out),
                Err(e) => {
                    proof {
                        assert(spec_rename_pass_blocked(
                            texts@[i as int]@,
                            old_name@,
                            new_name@,
                            true,
                        ));
                    }
                    return Err(e);
                },
            }
        } else {
            mids.push(texts[i].clone());
        }
    }
    if !matched {
        proof {
            assert forall|j: int|
                0 <= j < pkgs@.len() implies (#[trigger] pkgs@[j])@.name != old_name@ by {}
        }
        return Ok(mids);
    }
    let updates = vec![(old_name.clone(), new_name.clone())];
    let mut outs: Vec<String> = Vec::new();
    for i in 0..n
        invariant
            matched,
            mids@.len() == n,
            outs@.len() == i,
            updates@.len() == 1,
            updates@[0].0@ == old_name@,
            updates@[0].1@ == new_name@,
            forall|j: int| #![auto]
                0 <= j < n ==> (if pkgs@[j]@.name == old_name@ {
                    toml_model_of(texts@[j]@) is Some && (toml_model_of(
                        texts@[j]@,
                    )->Some_0).scalar_hosts.contains("package"@) && toml_model_of(mids@[j]@)
                        is Some && {
                        let m0 = toml_model_of(texts@[j]@)->Some_0;
                        let mm = toml_model_of(mids@[j]@)->Some_0;
                        &&& mm.targets == m0.targets
                        &&& mm.features == m0.features
                        &&& mm.deps == m0.deps
                        &&& mm.scalars == m0.scalars.insert(
                            ("package"@, "name"@),
                            ScalarVal::SStr(new_name@),
                        )
                    }
                } else {
                    mids@[j]@ == texts@[j]@
                }),
            forall|j: int| #![auto]
                0 <= j < i ==> spec_rename_pass_file(
                    texts@[j]@,
                    outs@[j]@,
                    old_name@,
                    new_name@,
                    pkgs@[j]@.name == old_name@,
                ) && !spec_rename_pass_blocked(
                    texts@[j]@,
                    old_name@,
                    new_name@,
                    pkgs@[j]@.name == old_name@,
                ),
    {
        match rename_manifest(mids[i].as_str(), &updates) {
            Ok(o) => {
                outs.push(o);
                proof {
                    let m0 = toml_model_of(texts@[i as int]@)->Some_0;
                    assert forall|j: int|
                        0 <= j < m0.deps.len() implies #[trigger] spec_rename_one(
                        m0.deps[j],
                        old_name@,
                        new_name@,
                    ) == Some((toml_model_of(outs@[i as int]@)->Some_0).deps[j]) by {
                        lemma_rename_single(m0.deps[j], updates@, old_name@, new_name@);
                    }
                    assert forall|j: int|
                        0 <= j < m0.deps.len() implies #[trigger] spec_rename_one(
                        m0.deps[j],
                        old_name@,
                        new_name@,
                    ) is Some by {}
                }
            },
            Err(e) => {
                proof {
                    if toml_model_of(mids@[i as int]@) is Some {
                        let mm = toml_model_of(mids@[i as int]@)->Some_0;
                        let j = choose|j: int| #![auto]
                            0 <= j < mm.deps.len() && spec_rename_row(mm.deps[j], updates@)
                                is None;
                        lemma_rename_single(mm.deps[j], updates@, old_name@, new_name@);
                        assert(spec_rename_pass_blocked(
                            texts@[i as int]@,
                            old_name@,
                            new_name@,
                            pkgs@[i as int]@.name == old_name@,
                        ));
                    } else {
                        assert(spec_rename_pass_blocked(
                            texts@[i as int]@,
                            old_name@,
                            new_name@,
                            pkgs@[i as int]@.name == old_name@,
                        ));
                    }
                }
                return Err(e);
            },
        }
    }
    Ok(outs)
}

} // verus!