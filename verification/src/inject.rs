//! Path injection for isolated verification: every dependency whose
//! true name is in the replacement map - the directories of already
//! verified siblings - gets a `path` field pointing there, so a
//! packaged crate compiles against locally verified sources before
//! its dependencies reach the registry.

use vstd::prelude::*;
use crate::cascade::spec_dep_name;
use crate::editor::DependencySection;
use crate::errors::Error;
use crate::strutil::str_eq;
use crate::toml_doc::{dep_field, dep_keys, dep_set_str, doc_model, lemma_field_names_distinct,
    manifest_to_string, parse_manifest, spec_at, spec_field_sel, spec_in_host, spec_model_wf,
    spec_row_target_known, spec_target_view, target_names, toml_model_of, DepRow, FieldVal};

verus! {

/// The replacement directory recorded for a package, if any.
pub open spec fn spec_replacement_dir(u: Seq<(String, String)>, name: Seq<char>) -> Option<Seq<char>>
    decreases u.len(),
{
    if u.len() == 0 {
        None
    } else if u[0].0@ == name {
        Some(u[0].1@)
    } else {
        spec_replacement_dir(u.drop_first(), name)
    }
}

/// Looks a package name up in the replacement map.
#[verifier::loop_isolation(false)]
fn replacement_for(u: &Vec<(String, String)>, name: &str) -> (r: Option<String>)
    ensures
        match r {
            Some(v) => spec_replacement_dir(u@, name@) == Some(v@),
            None => spec_replacement_dir(u@, name@) is None,
        },
{
    let len = u.len();
    proof {
        assert(u@.skip(0) =~= u@);
    }
    for i in 0..len
        invariant
            spec_replacement_dir(u@, name@) == spec_replacement_dir(u@.skip(i as int), name@),
    {
        proof {
            assert(u@.skip(i as int)[0] == u@[i as int]);
            assert(u@.skip(i as int).drop_first() =~= u@.skip(i + 1));
        }
        let pair = &u[i];
        if str_eq(pair.0.as_str(), name) {
            return Some(pair.1.clone());
        }
    }
    proof {
        assert(u@.skip(len as int).len() == 0);
    }
    None
}

/// What path injection does to one dependency entry; `None` marks an
/// entry with a non-string `package` field.
pub open spec fn spec_inject_row(r: DepRow, u: Seq<(String, String)>) -> Option<DepRow> {
    match spec_dep_name(r) {
        None => None,
        Some(name) => match spec_replacement_dir(u, name) {
            None => Some(r),
            Some(dir) => Some(DepRow { path: FieldVal::Str(dir), ..r }),
        },
    }
}

/// Is this key among the first `upto` keys?
spec fn key_in_prefix(keys: Seq<String>, upto: int, key: Seq<char>) -> bool {
    exists|j: int| 0 <= j < upto && (#[trigger] keys[j])@ == key
}

/// Injects paths into the entries of one dependency section of one
/// host table.
#[verifier::rlimit(100)]
#[verifier::loop_isolation(false)]
fn inject_host(
    d: &mut toml_edit::DocumentMut,
    target: Option<&String>,
    section: &DependencySection,
    updates: &Vec<(String, String)>,
    count: &mut u32,
) -> (r: Result<(), Error>)
    ensures
        doc_model(*final(d)).targets == doc_model(*old(d)).targets,
        doc_model(*final(d)).features == doc_model(*old(d)).features,
        doc_model(*final(d)).scalars == doc_model(*old(d)).scalars,
        doc_model(*final(d)).deps.len() == doc_model(*old(d)).deps.len(),
        forall|i: int| #![auto]
            0 <= i < doc_model(*old(d)).deps.len() && !spec_in_host(
                doc_model(*old(d)).deps[i],
                spec_target_view(target),
                *section,
            ) ==> doc_model(*final(d)).deps[i] == doc_model(*old(d)).deps[i],
        r is Ok ==> forall|i: int| #![auto]
            0 <= i < doc_model(*old(d)).deps.len() && spec_in_host(
                doc_model(*old(d)).deps[i],
                spec_target_view(target),
                *section,
            ) ==> spec_inject_row(doc_model(*old(d)).deps[i], updates@) == Some(
                doc_model(*final(d)).deps[i],
            ),
        r is Err ==> exists|i: int| #![auto]
            0 <= i < doc_model(*old(d)).deps.len() && spec_in_host(
                doc_model(*old(d)).deps[i],
                spec_target_view(target),
                *section,
            ) && spec_inject_row(doc_model(*old(d)).deps[i], updates@) is None,
{
    let ghost tv = spec_target_view(target);
    let keys = dep_keys(d, target, section, section.key());
    let ghost m0 = doc_model(*d);
    let klen = keys.len();
    for k in 0..klen
        invariant
            doc_model(*d).targets == m0.targets,
            doc_model(*d).features == m0.features,
            doc_model(*d).scalars == m0.scalars,
            doc_model(*d).deps.len() == m0.deps.len(),
            forall|i: int| #![auto]
                0 <= i < m0.deps.len() ==> doc_model(*d).deps[i] == (
                if spec_in_host(m0.deps[i], tv, *section) && key_in_prefix(
                    keys@,
                    k as int,
                    m0.deps[i].key,
                ) {
                    spec_inject_row(m0.deps[i], updates@)->Some_0
                } else {
                    m0.deps[i]
                }),
            forall|i: int| #![auto]
                0 <= i < m0.deps.len() && spec_in_host(m0.deps[i], tv, *section) && key_in_prefix(
                    keys@,
                    k as int,
                    m0.deps[i].key,
                ) ==> spec_inject_row(m0.deps[i], updates@) is Some,
    {
        let key = &keys[k];
        let ghost mc = doc_model(*d);
        proof {
            assert forall|i: int|
                0 <= i < mc.deps.len() && spec_at(mc.deps[i], tv, *section, key@) implies mc.deps[i]
                == m0.deps[i] && spec_at(m0.deps[i], tv, *section, key@) by {
                if spec_in_host(m0.deps[i], tv, *section) && key_in_prefix(
                    keys@,
                    k as int,
                    m0.deps[i].key,
                ) {
                    assert(mc.deps[i].key == m0.deps[i].key);
                    assert(key_in_prefix(keys@, k as int, key@));
                    assert(false);
                }
            }
        }
        let pkg = dep_field(d, target, section, section.key(), key, "package");
        if matches!(pkg, Some(None)) {
            proof {
                lemma_field_names_distinct();
                assert(exists|i: int| #![auto]
                    0 <= i < mc.deps.len() && spec_at(mc.deps[i], tv, *section, key@));
                let i = choose|i: int| #![auto]
                    0 <= i < mc.deps.len() && spec_at(mc.deps[i], tv, *section, key@);
                assert(spec_field_sel(mc.deps[i], "package"@) == mc.deps[i].package);
                assert(mc.deps[i] == m0.deps[i]);
                assert(spec_in_host(m0.deps[i], tv, *section));
                assert(spec_inject_row(m0.deps[i], updates@) is None);
            }
            return Err(Error::Parse("a dependency's package field is not a string".to_owned()));
        }
        let name: String = match pkg {
            Some(Some(p)) => p,
            _ => key.clone(),
        };
        proof {
            assert forall|i: int|
                0 <= i < m0.deps.len() && spec_at(m0.deps[i], tv, *section, key@) implies
                spec_dep_name(m0.deps[i]) == Some(name@) by {
                lemma_field_names_distinct();
                assert(spec_field_sel(mc.deps[i], "package"@) == mc.deps[i].package);
                assert(spec_at(mc.deps[i], tv, *section, key@));
            }
        }
        let nn = replacement_for(updates, name.as_str());
        proof {
            assert forall|i: int|
                0 <= i < m0.deps.len() && spec_at(m0.deps[i], tv, *section, key@) implies (
            (spec_inject_row(m0.deps[i], updates@) matches Some(rr) && rr == (
            match nn {
                Some(v) => DepRow { path: FieldVal::Str(v@), ..m0.deps[i] },
                None => m0.deps[i],
            }))) by {
                lemma_field_names_distinct();
            }
        }
        match &nn {
            Some(newdir) => {
                dep_set_str(d, target, section, section.key(), key, "path", newdir);
                if *count < u32::MAX {
                    *count = *count + 1;
                }
            },
            None => {},
        }
        proof {
            lemma_field_names_distinct();
            assert forall|i: int|
                0 <= i < m0.deps.len() implies doc_model(*d).deps[i] == (if spec_in_host(
                m0.deps[i],
                tv,
                *section,
            ) && key_in_prefix(keys@, k + 1, m0.deps[i].key) {
                spec_inject_row(m0.deps[i], updates@)->Some_0
            } else {
                m0.deps[i]
            }) && (spec_in_host(m0.deps[i], tv, *section) && key_in_prefix(
                keys@,
                k + 1,
                m0.deps[i].key,
            ) ==> spec_inject_row(m0.deps[i], updates@) is Some) by {
                if spec_in_host(m0.deps[i], tv, *section) && m0.deps[i].key == key@ {
                    assert(spec_at(m0.deps[i], tv, *section, key@));
                    assert(key_in_prefix(keys@, k + 1, m0.deps[i].key));
                } else {
                    if key_in_prefix(keys@, k + 1, m0.deps[i].key) && !key_in_prefix(
                        keys@,
                        k as int,
                        m0.deps[i].key,
                    ) {
                        assert((keys@[k as int])@ == m0.deps[i].key);
                    }
                }
            }
        }
    }
    proof {
        assert forall|i: int|
            0 <= i < m0.deps.len() && spec_in_host(m0.deps[i], tv, *section) implies key_in_prefix(
            keys@,
            klen as int,
            m0.deps[i].key,
        ) by {}
    }
    Ok(())
}

/// Path injection never moves an entry.
proof fn lemma_inject_keeps_address(r: DepRow, u: Seq<(String, String)>)
    ensures
        spec_inject_row(r, u) matches Some(rr) ==> rr.target == r.target && rr.section == r.section
            && rr.key == r.key,
{
}

/// Injects paths into all three dependency sections of one host
/// table.
#[verifier::loop_isolation(false)]
fn inject_target(
    d: &mut toml_edit::DocumentMut,
    target: Option<&String>,
    updates: &Vec<(String, String)>,
    count: &mut u32,
) -> (r: Result<(), Error>)
    ensures
        doc_model(*final(d)).targets == doc_model(*old(d)).targets,
        doc_model(*final(d)).features == doc_model(*old(d)).features,
        doc_model(*final(d)).scalars == doc_model(*old(d)).scalars,
        doc_model(*final(d)).deps.len() == doc_model(*old(d)).deps.len(),
        forall|i: int| #![auto]
            0 <= i < doc_model(*old(d)).deps.len() && doc_model(*old(d)).deps[i].target
                != spec_target_view(target) ==> doc_model(*final(d)).deps[i] == doc_model(
                *old(d),
            ).deps[i],
        r is Ok ==> forall|i: int| #![auto]
            0 <= i < doc_model(*old(d)).deps.len() && doc_model(*old(d)).deps[i].target
                == spec_target_view(target) ==> spec_inject_row(
                doc_model(*old(d)).deps[i],
                updates@,
            ) == Some(doc_model(*final(d)).deps[i]),
        r is Err ==> exists|i: int| #![auto]
            0 <= i < doc_model(*old(d)).deps.len() && doc_model(*old(d)).deps[i].target
                == spec_target_view(target) && spec_inject_row(
                doc_model(*old(d)).deps[i],
                updates@,
            ) is None,
{
    let ghost tv = spec_target_view(target);
    let ghost m0 = doc_model(*d);
    let res = inject_host(d, target, &DependencySection::Regular, updates, count);
    if res.is_err() {
        return res;
    }
    let ghost m1 = doc_model(*d);
    let res = inject_host(d, target, &DependencySection::Dev, updates, count);
    if res.is_err() {
        proof {
            let i = choose|i: int| #![auto]
                0 <= i < m1.deps.len() && spec_in_host(m1.deps[i], tv, DependencySection::Dev)
                    && spec_inject_row(m1.deps[i], updates@) is None;
            assert(!spec_in_host(m0.deps[i], tv, DependencySection::Regular));
            assert(m1.deps[i] == m0.deps[i]);
        }
        return res;
    }
    let ghost m2 = doc_model(*d);
    let res = inject_host(d, target, &DependencySection::Build, updates, count);
    if res.is_err() {
        proof {
            let i = choose|i: int| #![auto]
                0 <= i < m2.deps.len() && spec_in_host(m2.deps[i], tv, DependencySection::Build)
                    && spec_inject_row(m2.deps[i], updates@) is None;
            assert(!spec_in_host(m0.deps[i], tv, DependencySection::Regular));
            assert(!spec_in_host(m1.deps[i], tv, DependencySection::Dev));
            assert(m1.deps[i] == m0.deps[i] && m2.deps[i] == m1.deps[i]);
        }
        return res;
    }
    proof {
        assert forall|i: int|
            0 <= i < m0.deps.len() && m0.deps[i].target == tv implies spec_inject_row(
            m0.deps[i],
            updates@,
        ) == Some(doc_model(*d).deps[i]) by {
            lemma_inject_keeps_address(m0.deps[i], updates@);
            if m0.deps[i].section == DependencySection::Regular {
                assert(spec_in_host(m0.deps[i], tv, DependencySection::Regular));
                assert(!spec_in_host(m1.deps[i], tv, DependencySection::Dev));
                assert(!spec_in_host(m2.deps[i], tv, DependencySection::Build));
            } else if m0.deps[i].section == DependencySection::Dev {
                assert(m1.deps[i] == m0.deps[i]);
                assert(spec_in_host(m1.deps[i], tv, DependencySection::Dev));
                assert(!spec_in_host(m2.deps[i], tv, DependencySection::Build));
            } else {
                assert(m1.deps[i] == m0.deps[i]);
                assert(m2.deps[i] == m0.deps[i]);
                assert(spec_in_host(m2.deps[i], tv, DependencySection::Build));
            }
        }
    }
    Ok(())
}

/// Injects paths into every dependency entry of the document whose
/// true name has a replacement.
#[verifier::loop_isolation(false)]
fn inject_doc(d: &mut toml_edit::DocumentMut, updates: &Vec<(String, String)>) -> (r: Result<
    u32,
    Error,
>)
    requires
        spec_model_wf(doc_model(*old(d))),
    ensures
        doc_model(*final(d)).targets == doc_model(*old(d)).targets,
        doc_model(*final(d)).features == doc_model(*old(d)).features,
        doc_model(*final(d)).scalars == doc_model(*old(d)).scalars,
        doc_model(*final(d)).deps.len() == doc_model(*old(d)).deps.len(),
        r is Ok ==> forall|i: int| #![auto]
            0 <= i < doc_model(*old(d)).deps.len() ==> spec_inject_row(
                doc_model(*old(d)).deps[i],
                updates@,
            ) == Some(doc_model(*final(d)).deps[i]),
        r is Err ==> exists|i: int| #![auto]
            0 <= i < doc_model(*old(d)).deps.len() && spec_inject_row(
                doc_model(*old(d)).deps[i],
                updates@,
            ) is None,
{
    let mut count: u32 = 0;
    let ghost m0 = doc_model(*d);
    let res = inject_target(d, None, updates, &mut count);
    if res.is_err() {
        return Err(res.unwrap_err());
    }
    let targets = target_names(d);
    let tlen = targets.len();
    for t in 0..tlen
        invariant
            doc_model(*d).targets == m0.targets,
            doc_model(*d).features == m0.features,
            doc_model(*d).scalars == m0.scalars,
            doc_model(*d).deps.len() == m0.deps.len(),
            tlen == targets@.len(),
            targets@.len() == m0.targets.len(),
            forall|j: int| 0 <= j < targets@.len() ==> (#[trigger] targets@[j])@ == m0.targets[j],
            forall|i: int| #![auto]
                0 <= i < m0.deps.len() ==> doc_model(*d).deps[i] == (
                if m0.deps[i].target is None || (exists|j: int|
                    0 <= j < t && Some((#[trigger] targets@[j])@) == m0.deps[i].target) {
                    spec_inject_row(m0.deps[i], updates@)->Some_0
                } else {
                    m0.deps[i]
                }),
            forall|i: int| #![auto]
                0 <= i < m0.deps.len() && (m0.deps[i].target is None || (exists|j: int|
                    0 <= j < t && Some((#[trigger] targets@[j])@) == m0.deps[i].target))
                    ==> spec_inject_row(m0.deps[i], updates@) is Some,
    {
        let ghost mc = doc_model(*d);
        let tname = &targets[t];
        proof {
            assert forall|i: int|
                0 <= i < m0.deps.len() && mc.deps[i].target == Some(tname@) implies mc.deps[i]
                == m0.deps[i] && m0.deps[i].target == Some(tname@) by {
                lemma_inject_keeps_address(m0.deps[i], updates@);
                if m0.deps[i].target is None {
                    assert(false);
                } else if exists|j: int|
                    0 <= j < t && Some((#[trigger] targets@[j])@) == m0.deps[i].target {
                    let j = choose|j: int|
                        0 <= j < t && Some((#[trigger] targets@[j])@) == m0.deps[i].target;
                    assert(m0.targets[j] == tname@);
                    assert(m0.targets[t as int] == tname@);
                    assert(false);
                }
            }
        }
        let res = inject_target(d, Some(tname), updates, &mut count);
        if res.is_err() {
            proof {
                let i = choose|i: int| #![auto]
                    0 <= i < mc.deps.len() && mc.deps[i].target == Some(tname@)
                        && spec_inject_row(mc.deps[i], updates@) is None;
                assert(mc.deps[i] == m0.deps[i]);
            }
            return Err(res.unwrap_err());
        }
        proof {
            assert forall|i: int|
                0 <= i < m0.deps.len() implies doc_model(*d).deps[i] == (
            if m0.deps[i].target is None || (exists|j: int|
                0 <= j < t + 1 && Some((#[trigger] targets@[j])@) == m0.deps[i].target) {
                spec_inject_row(m0.deps[i], updates@)->Some_0
            } else {
                m0.deps[i]
            }) && ((m0.deps[i].target is None || (exists|j: int|
                0 <= j < t + 1 && Some((#[trigger] targets@[j])@) == m0.deps[i].target))
                ==> spec_inject_row(m0.deps[i], updates@) is Some) by {
                lemma_inject_keeps_address(m0.deps[i], updates@);
                if mc.deps[i].target == Some(tname@) {
                    assert(m0.deps[i].target == Some(tname@));
                    assert(Some((targets@[t as int])@) == m0.deps[i].target);
                } else {
                    if m0.deps[i].target is None || (exists|j: int|
                        0 <= j < t && Some((#[trigger] targets@[j])@) == m0.deps[i].target) {
                        assert(mc.deps[i].target == m0.deps[i].target);
                    } else {
                        if exists|j: int|
                            0 <= j < t + 1 && Some((#[trigger] targets@[j])@)
                                == m0.deps[i].target {
                            let j = choose|j: int|
                                0 <= j < t + 1 && Some((#[trigger] targets@[j])@)
                                    == m0.deps[i].target;
                            assert(j == t);
                            assert(mc.deps[i] == m0.deps[i]);
                            assert(false);
                        }
                    }
                }
            }
        }
    }
    proof {
        assert forall|i: int|
            0 <= i < m0.deps.len() implies (m0.deps[i].target is None || (exists|j: int|
            0 <= j < tlen && Some((#[trigger] targets@[j])@) == m0.deps[i].target)) by {
            if m0.deps[i].target is Some {
                let tg = m0.deps[i].target->0;
                assert(spec_row_target_known(m0, m0.deps[i]));
                assert(m0.targets.contains(tg));
                let j = choose|j: int| 0 <= j < m0.targets.len() && m0.targets[j] == tg;
                assert((targets@[j])@ == tg);
            }
        }
    }
    Ok(count)
}

/// Rewrites one unpacked manifest so every dependency with a locally
/// verified replacement compiles from that directory: the `path`
/// field is set (or added) on each such entry.
pub fn inject_replacements(text: &str, replacements: &Vec<(String, String)>) -> (r: Result<
    String,
    Error,
>)
    ensures
        r is Ok <==> toml_model_of(text@) is Some && (forall|i: int| #![auto]
            0 <= i < (toml_model_of(text@)->Some_0).deps.len() ==> spec_inject_row(
                (toml_model_of(text@)->Some_0).deps[i],
                replacements@,
            ) is Some),
        r matches Ok(out) ==> (toml_model_of(text@) matches Some(m0) && toml_model_of(out@)
            matches Some(m1) && m1.targets == m0.targets && m1.features == m0.features
            && m1.scalars == m0.scalars && m1.deps.len() == m0.deps.len() && forall|i: int|
            #![auto]
            0 <= i < m0.deps.len() ==> spec_inject_row(m0.deps[i], replacements@) == Some(
                m1.deps[i],
            )),
{
    let mut doc = match parse_manifest(text) {
        Some(d) => d,
        None => {
            return Err(Error::Parse("the manifest text cannot be parsed".to_owned()));
        },
    };
    match inject_doc(&mut doc, replacements) {
        Ok(_) => Ok(manifest_to_string(&doc)),
        Err(e) => Err(e),
    }
}

} // verus!
