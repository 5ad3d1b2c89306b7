//! The version cascade: after versions have been assigned, every
//! dependency entry across the whole workspace that points at an
//! updated package through a `path` is rewritten so its version
//! requirement matches the new version.

use vstd::prelude::*;
use crate::editor::DependencySection;
use crate::errors::Error;
use crate::semver_io::{req_matches, spec_parsed_version, spec_req_matches, spec_req_ok};
use crate::strutil::str_eq;
use crate::toml_doc::{dep_field, dep_keys, dep_set_str, doc_model, lemma_field_names_distinct,
    lemma_package_root_ok, manifest_to_string, parse_manifest, set_scalar, spec_at,
    spec_field_sel, spec_in_host, spec_model_wf, spec_row_with, spec_row_target_known,
    spec_target_view, target_names, toml_model_of, DepRow, FieldVal, ManifestModel, ScalarArg,
    ScalarVal};
use crate::version::{apply_mapper, mapper_in_range, spec_apply_mapper, spec_mapper_in_range,
    spec_mapper_ok, spec_version_str, version_string, Version, VersionMapper, VersionView};
use crate::workspace::PkgInfo;

verus! {

/// The new version recorded for a package name, if any: the first
/// matching entry of the updates list counts.
pub open spec fn spec_update_for(u: Seq<(String, Version)>, name: Seq<char>) -> Option<VersionView>
    decreases u.len(),
{
    if u.len() == 0 {
        None
    } else if u[0].0@ == name {
        Some(u[0].1@)
    } else {
        spec_update_for(u.drop_first(), name)
    }
}

/// Looks a package name up in the updates list.
#[verifier::loop_isolation(false)]
fn update_for(u: &Vec<(String, Version)>, name: &str) -> (r: Option<Version>)
    ensures
        match r {
            Some(v) => spec_update_for(u@, name@) == Some(v@),
            None => spec_update_for(u@, name@) is None,
        },
{
    let len = u.len();
    proof {
        assert(u@.skip(0) =~= u@);
    }
    for i in 0..len
        invariant
            spec_update_for(u@, name@) == spec_update_for(u@.skip(i as int), name@),
    {
        proof {
            assert(u@.skip(i as int)[0] == u@[i as int]);
            assert(u@.skip(i as int).drop_first() =~= u@.skip(i + 1));
        }
        let pair = &u[i];
        if str_eq(pair.0.as_str(), name) {
            return Some(pair.1.clone());
        }
    }
    proof {
        assert(u@.skip(len as int).len() == 0);
    }
    None
}

/// The true name of a dependency entry: the `package` field when it is
/// set, else the entry's key.  `None` marks a malformed entry whose
/// `package` field is not a string.
pub open spec fn spec_dep_name(r: DepRow) -> Option<Seq<char>> {
    match r.package {
        FieldVal::Str(p) => Some(p),
        FieldVal::Missing => Some(r.key),
        FieldVal::NonStr => None,
    }
}

/// What the cascade does to one dependency entry; `None` marks an
/// entry the cascade must reject: a non-string `package` or `version`
/// field, or a version requirement the semver grammar refuses.
pub open spec fn spec_cascade_row(r: DepRow, u: Seq<(String, Version)>, force: bool) -> Option<
    DepRow,
> {
    match spec_dep_name(r) {
        None => None,
        Some(name) => match spec_update_for(u, name) {
            None => Some(r),
            Some(nv) => {
                if r.path is Missing {
                    Some(r)
                } else {
                    match r.version {
                        FieldVal::Missing => if r.section == DependencySection::Dev {
                            Some(r)
                        } else {
                            Some(DepRow { version: FieldVal::Str(spec_version_str(nv)), ..r })
                        },
                        FieldVal::NonStr => None,
                        FieldVal::Str(s) => if !(spec_req_ok(s) && spec_parsed_version(
                            spec_version_str(nv),
                        ) is Some) {
                            None
                        } else if force || !spec_req_matches(
                            s,
                            spec_parsed_version(spec_version_str(nv))->Some_0,
                        ) {
                            Some(DepRow { version: FieldVal::Str(spec_version_str(nv)), ..r })
                        } else {
                            Some(r)
                        },
                    }
                }
            },
        },
    }
}

/// Does the cascade leave this entry entirely alone: no update for
/// its name, no local path, a dev entry without a version, or a
/// requirement that already matches without a forced update.
pub open spec fn spec_cascade_skips(r: DepRow, u: Seq<(String, Version)>, force: bool) -> bool {
    match spec_dep_name(r) {
        None => false,
        Some(name) => match spec_update_for(u, name) {
            None => true,
            Some(nv) => {
                ||| r.path is Missing
                ||| (r.version is Missing && r.section == DependencySection::Dev)
                ||| (r.version matches FieldVal::Str(s) && spec_req_ok(s) && spec_parsed_version(
                    spec_version_str(nv),
                ) is Some && !force && spec_req_matches(
                    s,
                    spec_parsed_version(spec_version_str(nv))->Some_0,
                ))
            },
        },
    }
}

/// Is this key among the first `upto` keys?
pub open spec fn spec_key_in_prefix(keys: Seq<String>, upto: int, key: Seq<char>) -> bool {
    exists|j: int| 0 <= j < upto && (#[trigger] keys[j])@ == key
}

/// Runs the cascade over the entries of one dependency section of one
/// host table.
#[verifier::rlimit(100)]
#[verifier::loop_isolation(false)]
fn cascade_host(
    d: &mut toml_edit::DocumentMut,
    target: Option<&String>,
    section: &DependencySection,
    updates: &Vec<(String, Version)>,
    force: bool,
    count: &mut u32,
) -> (r: Result<(), Error>)
    ensures
        doc_model(*final(d)).targets == doc_model(*old(d)).targets,
        doc_model(*final(d)).features == doc_model(*old(d)).features,
        doc_model(*final(d)).scalars == doc_model(*old(d)).scalars,
        doc_model(*final(d)).deps.len() == doc_model(*old(d)).deps.len(),
        forall|i: int| #![auto]
            0 <= i < doc_model(*old(d)).deps.len() && !spec_in_host(
                doc_model(*old(d)).deps[i],
                spec_target_view(target),
                *section,
            ) ==> doc_model(*final(d)).deps[i] == doc_model(*old(d)).deps[i],
        r is Ok ==> forall|i: int| #![auto]
            0 <= i < doc_model(*old(d)).deps.len() && spec_in_host(
                doc_model(*old(d)).deps[i],
                spec_target_view(target),
                *section,
            ) ==> (spec_cascade_row(doc_model(*old(d)).deps[i], updates@, force) matches Some(rr)
                && doc_model(*final(d)).deps[i] == rr),
        r is Err ==> exists|i: int| #![auto]
            0 <= i < doc_model(*old(d)).deps.len() && spec_in_host(
                doc_model(*old(d)).deps[i],
                spec_target_view(target),
                *section,
            ) && spec_cascade_row(doc_model(*old(d)).deps[i], updates@, force) is None,
        (forall|i: int| #![auto]
            0 <= i < doc_model(*old(d)).deps.len() && spec_in_host(
                doc_model(*old(d)).deps[i],
                spec_target_view(target),
                *section,
            ) ==> spec_cascade_skips(doc_model(*old(d)).deps[i], updates@, force)) && r is Ok
            ==> *final(d) == *old(d),
{
    let ghost tv = spec_target_view(target);
    let keys = dep_keys(d, target, section, section.key());
    let ghost m0 = doc_model(*d);
    let ghost d0 = *d;
    let klen = keys.len();
    for k in 0..klen
        invariant
            (forall|i: int| #![auto]
                0 <= i < m0.deps.len() && spec_in_host(m0.deps[i], tv, *section)
                    && spec_key_in_prefix(keys@, k as int, m0.deps[i].key)
                    ==> spec_cascade_skips(m0.deps[i], updates@, force)) ==> *d == d0,
            doc_model(*d).targets == m0.targets,
            doc_model(*d).features == m0.features,
            doc_model(*d).scalars == m0.scalars,
            doc_model(*d).deps.len() == m0.deps.len(),
            forall|i: int| #![auto]
                0 <= i < m0.deps.len() ==> doc_model(*d).deps[i] == (
                if spec_in_host(m0.deps[i], tv, *section) && spec_key_in_prefix(
                    keys@,
                    k as int,
                    m0.deps[i].key,
                ) {
                    spec_cascade_row(m0.deps[i], updates@, force)->Some_0
                } else {
                    m0.deps[i]
                }),
            forall|i: int| #![auto]
                0 <= i < m0.deps.len() && spec_in_host(m0.deps[i], tv, *section)
                    && spec_key_in_prefix(keys@, k as int, m0.deps[i].key) ==> spec_cascade_row(
                    m0.deps[i],
                    updates@,
                    force,
                ) is Some,
    {
        let key = &keys[k];
        let ghost mc = doc_model(*d);
        proof {
            reveal_strlit("version");
            reveal_strlit("package");
            reveal_strlit("path");
            // the row for this key, if any, is still untouched
            assert forall|i: int|
                0 <= i < mc.deps.len() && spec_at(mc.deps[i], tv, *section, key@) implies mc.deps[i]
                == m0.deps[i] && spec_at(m0.deps[i], tv, *section, key@) by {
                assert(doc_model(*d).deps[i] == (if spec_in_host(m0.deps[i], tv, *section)
                    && spec_key_in_prefix(keys@, k as int, m0.deps[i].key) {
                    spec_cascade_row(m0.deps[i], updates@, force)->Some_0
                } else {
                    m0.deps[i]
                }));
                if spec_in_host(m0.deps[i], tv, *section) && spec_key_in_prefix(
                    keys@,
                    k as int,
                    m0.deps[i].key,
                ) {
                    // a transformed row keeps its address, and a key in the
                    // prefix cannot equal the current key
                    assert(mc.deps[i].key == m0.deps[i].key);
                    assert(spec_key_in_prefix(keys@, k as int, key@));
                    assert(false);
                }
            }
        }
        let pkg = dep_field(d, target, section, section.key(), key, "package");
        if matches!(pkg, Some(None)) {
            proof {
                lemma_err_witness(mc, m0, tv, *section, key@, updates@, force);
            }
            return Err(Error::Parse("a dependency's package field is not a string".to_owned()));
        }
        let name: String = match pkg {
            Some(Some(p)) => p,
            _ => key.clone(),
        };
        proof {
            assert forall|i: int|
                0 <= i < m0.deps.len() && spec_at(m0.deps[i], tv, *section, key@) implies
                spec_dep_name(m0.deps[i]) == Some(name@) by {
                lemma_field_names_distinct();
                assert(spec_field_sel(mc.deps[i], "package"@) == mc.deps[i].package);
                assert(spec_at(mc.deps[i], tv, *section, key@));
            }
        }
        let upd = update_for(updates, name.as_str());
        let path = dep_field(d, target, section, section.key(), key, "path");
        let ver = dep_field(d, target, section, section.key(), key, "version");
        let relevant = upd.is_some() && path.is_some();
        if relevant && matches!(ver, Some(None)) {
            proof {
                assert forall|i: int|
                    0 <= i < mc.deps.len() && spec_at(mc.deps[i], tv, *section, key@) implies
                    spec_cascade_row(mc.deps[i], updates@, force) is None by {
                    lemma_field_names_distinct();
                    assert(spec_field_sel(mc.deps[i], "package"@) == mc.deps[i].package);
                    assert(spec_field_sel(mc.deps[i], "version"@) == mc.deps[i].version);
                    assert(spec_field_sel(mc.deps[i], "path"@) == mc.deps[i].path);
                    assert(mc.deps[i] == m0.deps[i]);
                    assert(spec_dep_name(mc.deps[i]) == Some(name@));
                    assert(spec_update_for(updates@, name@) is Some);
                    assert(!(mc.deps[i].path is Missing));
                    assert(mc.deps[i].version is NonStr);
                }
                lemma_err_witness(mc, m0, tv, *section, key@, updates@, force);
            }
            return Err(Error::Parse("a dependency's version field is not a string".to_owned()));
        }
        let mut set_to: Option<String> = None;
        let mut req_failed = false;
        if relevant {
            match (&upd, &ver) {
                (Some(nv), None) => {
                    if !(*section == DependencySection::Dev) {
                        set_to = Some(version_string(nv));
                    }
                },
                (Some(nv), Some(Some(s))) => {
                    let vstr = version_string(nv);
                    match req_matches(s.as_str(), vstr.as_str()) {
                        None => {
                            req_failed = true;
                        },
                        Some(matched) => {
                            if force || !matched {
                                set_to = Some(vstr);
                            }
                        },
                    }
                },
                _ => {},
            }
        }
        if req_failed {
            proof {
                assert forall|i: int|
                    0 <= i < mc.deps.len() && spec_at(mc.deps[i], tv, *section, key@) implies
                    spec_cascade_row(mc.deps[i], updates@, force) is None by {
                    lemma_field_names_distinct();
                    assert(spec_field_sel(mc.deps[i], "package"@) == mc.deps[i].package);
                    assert(spec_field_sel(mc.deps[i], "version"@) == mc.deps[i].version);
                    assert(spec_field_sel(mc.deps[i], "path"@) == mc.deps[i].path);
                    assert(mc.deps[i] == m0.deps[i]);
                    assert(spec_dep_name(mc.deps[i]) == Some(name@));
                    assert(spec_update_for(updates@, name@) is Some);
                    assert(!(mc.deps[i].path is Missing));
                    assert(mc.deps[i].version matches FieldVal::Str(sv) && sv == (ver->Some_0->Some_0)@);
                }
                lemma_err_witness(mc, m0, tv, *section, key@, updates@, force);
            }
            return Err(Error::Parse("a version requirement cannot be parsed".to_owned()));
        }
        proof {
            assert forall|i: int|
                0 <= i < m0.deps.len() && spec_at(m0.deps[i], tv, *section, key@) implies (
            (spec_cascade_row(m0.deps[i], updates@, force) matches Some(rr) && rr == (
            match set_to {
                Some(v) => spec_row_with(m0.deps[i], "version"@, v@),
                None => m0.deps[i],
            }))) by {
                lemma_field_names_distinct();
                let row = m0.deps[i];
                assert(spec_field_sel(row, "package"@) == row.package);
                assert(spec_field_sel(row, "version"@) == row.version);
                assert(spec_field_sel(row, "path"@) == row.path);
                assert(spec_at(mc.deps[i], tv, *section, key@));
                assert(mc.deps[i] == row);
                assert(spec_dep_name(row) == Some(name@));
                if upd is Some {
                    let nv = upd->Some_0;
                    assert(spec_update_for(updates@, name@) == Some(nv@));
                    if path is Some {
                        assert(!(row.path is Missing));
                        if ver is None {
                            assert(row.version is Missing);
                            assert(row.section == *section);
                        } else {
                            assert(row.version matches FieldVal::Str(sv) && sv == (
                            ver->Some_0->Some_0)@);
                        }
                    } else {
                        assert(row.path is Missing);
                        assert(set_to is None);
                    }
                } else {
                    assert(spec_update_for(updates@, name@) is None);
                    assert(set_to is None);
                }
            }
        }
        match &set_to {
            Some(vstr) => {
                proof {
                    assert forall|i: int|
                        0 <= i < m0.deps.len() && spec_at(m0.deps[i], tv, *section, key@) implies
                        !spec_cascade_skips(m0.deps[i], updates@, force) by {
                        lemma_field_names_distinct();
                        assert(spec_field_sel(mc.deps[i], "package"@) == mc.deps[i].package);
                        assert(spec_field_sel(mc.deps[i], "version"@) == mc.deps[i].version);
                        assert(spec_field_sel(mc.deps[i], "path"@) == mc.deps[i].path);
                        assert(spec_at(mc.deps[i], tv, *section, key@));
                        assert(mc.deps[i] == m0.deps[i]);
                        assert(spec_dep_name(m0.deps[i]) == Some(name@));
                    }
                }
                dep_set_str(d, target, section, section.key(), key, "version", vstr);
                if *count < u32::MAX {
                    *count = *count + 1;
                }
            },
            None => {},
        }
        proof {
            assert forall|i: int|
                0 <= i < m0.deps.len() implies doc_model(*d).deps[i] == (if spec_in_host(
                m0.deps[i],
                tv,
                *section,
            ) && spec_key_in_prefix(keys@, k + 1, m0.deps[i].key) {
                spec_cascade_row(m0.deps[i], updates@, force)->Some_0
            } else {
                m0.deps[i]
            }) && (spec_in_host(m0.deps[i], tv, *section) && spec_key_in_prefix(
                keys@,
                k + 1,
                m0.deps[i].key,
            ) ==> spec_cascade_row(m0.deps[i], updates@, force) is Some) by {
                if spec_in_host(m0.deps[i], tv, *section) && m0.deps[i].key == key@ {
                    assert(spec_at(m0.deps[i], tv, *section, key@));
                    assert(spec_key_in_prefix(keys@, k + 1, m0.deps[i].key));
                } else {
                    if spec_key_in_prefix(keys@, k + 1, m0.deps[i].key) && !spec_key_in_prefix(
                        keys@,
                        k as int,
                        m0.deps[i].key,
                    ) {
                        assert((keys@[k as int])@ == m0.deps[i].key);
                    }
                }
            }
        }
    }
    proof {
        assert forall|i: int|
            0 <= i < m0.deps.len() && spec_in_host(m0.deps[i], tv, *section) implies
            spec_key_in_prefix(keys@, klen as int, m0.deps[i].key) by {}
    }
    Ok(())
}

/// When a field read shows a malformed entry at this key, some row of
/// the original model is one the cascade rejects.
proof fn lemma_err_witness(
    mc: ManifestModel,
    m0: ManifestModel,
    tv: Option<Seq<char>>,
    section: DependencySection,
    key: Seq<char>,
    u: Seq<(String, Version)>,
    force: bool,
)
    requires
        mc.deps.len() == m0.deps.len(),
        forall|i: int| #![auto]
            0 <= i < mc.deps.len() && spec_at(mc.deps[i], tv, section, key) ==> mc.deps[i]
                == m0.deps[i],
        forall|i: int| #![auto]
            0 <= i < mc.deps.len() && spec_at(mc.deps[i], tv, section, key) ==> spec_cascade_row(
                mc.deps[i],
                u,
                force,
            ) is None,
        exists|i: int| #![auto] 0 <= i < mc.deps.len() && spec_at(mc.deps[i], tv, section, key),
    ensures
        exists|i: int| #![auto]
            0 <= i < m0.deps.len() && spec_in_host(m0.deps[i], tv, section) && spec_cascade_row(
                m0.deps[i],
                u,
                force,
            ) is None,
{
    let i = choose|i: int| 0 <= i < mc.deps.len() && spec_at(#[trigger] mc.deps[i], tv, section, key);
    assert(spec_in_host(m0.deps[i], tv, section));
    assert(spec_cascade_row(m0.deps[i], u, force) is None);
}

} // verus!

verus! {

/// The cascade never moves an entry: target, section and key stay.
proof fn lemma_cascade_keeps_address(r: DepRow, u: Seq<(String, Version)>, force: bool)
    ensures
        spec_cascade_row(r, u, force) matches Some(rr) ==> rr.target == r.target && rr.section
            == r.section && rr.key == r.key,
{
}

/// Runs the cascade over all three dependency sections of one host
/// table.
#[verifier::rlimit(100)]
#[verifier::loop_isolation(false)]
fn cascade_target(
    d: &mut toml_edit::DocumentMut,
    target: Option<&String>,
    updates: &Vec<(String, Version)>,
    force: bool,
    count: &mut u32,
) -> (r: Result<(), Error>)
    ensures
        doc_model(*final(d)).targets == doc_model(*old(d)).targets,
        doc_model(*final(d)).features == doc_model(*old(d)).features,
        doc_model(*final(d)).scalars == doc_model(*old(d)).scalars,
        doc_model(*final(d)).deps.len() == doc_model(*old(d)).deps.len(),
        forall|i: int| #![auto]
            0 <= i < doc_model(*old(d)).deps.len() && doc_model(*old(d)).deps[i].target
                != spec_target_view(target) ==> doc_model(*final(d)).deps[i] == doc_model(
                *old(d),
            ).deps[i],
        r is Ok ==> forall|i: int| #![auto]
            0 <= i < doc_model(*old(d)).deps.len() && doc_model(*old(d)).deps[i].target
                == spec_target_view(target) ==> (spec_cascade_row(
                doc_model(*old(d)).deps[i],
                updates@,
                force,
            ) matches Some(rr) && doc_model(*final(d)).deps[i] == rr),
        r is Err ==> exists|i: int| #![auto]
            0 <= i < doc_model(*old(d)).deps.len() && doc_model(*old(d)).deps[i].target
                == spec_target_view(target) && spec_cascade_row(
                doc_model(*old(d)).deps[i],
                updates@,
                force,
            ) is None,
        (forall|i: int| #![auto]
            0 <= i < doc_model(*old(d)).deps.len() && doc_model(*old(d)).deps[i].target
                == spec_target_view(target) ==> spec_cascade_skips(
                doc_model(*old(d)).deps[i],
                updates@,
                force,
            )) && r is Ok ==> *final(d) == *old(d),
{
    let ghost tv = spec_target_view(target);
    let ghost m0 = doc_model(*d);
    let ghost d0 = *d;
    let res = cascade_host(d, target, &DependencySection::Regular, updates, force, count);
    if res.is_err() {
        return res;
    }
    let ghost m1 = doc_model(*d);
    let res = cascade_host(d, target, &DependencySection::Dev, updates, force, count);
    if res.is_err() {
        proof {
            let i = choose|i: int| #![auto]
                0 <= i < m1.deps.len() && spec_in_host(m1.deps[i], tv, DependencySection::Dev)
                    && spec_cascade_row(m1.deps[i], updates@, force) is None;
            assert(!spec_in_host(m0.deps[i], tv, DependencySection::Regular));
            assert(m1.deps[i] == m0.deps[i]);
        }
        return res;
    }
    let ghost m2 = doc_model(*d);
    let res = cascade_host(d, target, &DependencySection::Build, updates, force, count);
    if res.is_err() {
        proof {
            let i = choose|i: int| #![auto]
                0 <= i < m2.deps.len() && spec_in_host(m2.deps[i], tv, DependencySection::Build)
                    && spec_cascade_row(m2.deps[i], updates@, force) is None;
            assert(!spec_in_host(m0.deps[i], tv, DependencySection::Regular));
            assert(!spec_in_host(m1.deps[i], tv, DependencySection::Dev));
            assert(m1.deps[i] == m0.deps[i] && m2.deps[i] == m1.deps[i]);
        }
        return res;
    }
    proof {
        assert forall|i: int|
            0 <= i < m0.deps.len() && m0.deps[i].target == tv implies (spec_cascade_row(
            m0.deps[i],
            updates@,
            force,
        ) matches Some(rr) && doc_model(*d).deps[i] == rr) by {
            lemma_cascade_keeps_address(m0.deps[i], updates@, force);
            if m0.deps[i].section == DependencySection::Regular {
                assert(spec_in_host(m0.deps[i], tv, DependencySection::Regular));
                assert(m1.deps[i] == spec_cascade_row(m0.deps[i], updates@, force)->Some_0);
                assert(!spec_in_host(m1.deps[i], tv, DependencySection::Dev));
                assert(!spec_in_host(m2.deps[i], tv, DependencySection::Build));
            } else if m0.deps[i].section == DependencySection::Dev {
                assert(m1.deps[i] == m0.deps[i]);
                assert(spec_in_host(m1.deps[i], tv, DependencySection::Dev));
                assert(m2.deps[i] == spec_cascade_row(m0.deps[i], updates@, force)->Some_0);
                assert(!spec_in_host(m2.deps[i], tv, DependencySection::Build));
            } else {
                assert(m1.deps[i] == m0.deps[i]);
                assert(m2.deps[i] == m0.deps[i]);
                assert(spec_in_host(m2.deps[i], tv, DependencySection::Build));
            }
        }
    }
    Ok(())
}

/// Runs the cascade over the whole document: the top-level sections
/// and every `target.*` subtable.
#[verifier::loop_isolation(false)]
fn cascade_doc(
    d: &mut toml_edit::DocumentMut,
    updates: &Vec<(String, Version)>,
    force: bool,
) -> (r: Result<u32, Error>)
    requires
        spec_model_wf(doc_model(*old(d))),
    ensures
        doc_model(*final(d)).targets == doc_model(*old(d)).targets,
        doc_model(*final(d)).features == doc_model(*old(d)).features,
        doc_model(*final(d)).scalars == doc_model(*old(d)).scalars,
        doc_model(*final(d)).deps.len() == doc_model(*old(d)).deps.len(),
        r is Ok ==> forall|i: int| #![auto]
            0 <= i < doc_model(*old(d)).deps.len() ==> spec_cascade_row(
                doc_model(*old(d)).deps[i],
                updates@,
                force,
            ) == Some(doc_model(*final(d)).deps[i]),
        r is Err ==> exists|i: int| #![auto]
            0 <= i < doc_model(*old(d)).deps.len() && spec_cascade_row(
                doc_model(*old(d)).deps[i],
                updates@,
                force,
            ) is None,
        (forall|i: int| #![auto]
            0 <= i < doc_model(*old(d)).deps.len() ==> spec_cascade_skips(
                doc_model(*old(d)).deps[i],
                updates@,
                force,
            )) && r is Ok ==> *final(d) == *old(d),
{
    let mut count: u32 = 0;
    let ghost m0 = doc_model(*d);
    let ghost d0 = *d;
    let res = cascade_target(d, None, updates, force, &mut count);
    if res.is_err() {
        return Err(res.unwrap_err());
    }
    let targets = target_names(d);
    let tlen = targets.len();
    for t in 0..tlen
        invariant
            doc_model(*d).targets == m0.targets,
            doc_model(*d).features == m0.features,
            doc_model(*d).scalars == m0.scalars,
            doc_model(*d).deps.len() == m0.deps.len(),
            tlen == targets@.len(),
            targets@.len() == m0.targets.len(),
            forall|j: int| 0 <= j < targets@.len() ==> (#[trigger] targets@[j])@ == m0.targets[j],
            forall|i: int| #![auto]
                0 <= i < m0.deps.len() ==> doc_model(*d).deps[i] == (
                if m0.deps[i].target is None || (exists|j: int|
                    0 <= j < t && Some((#[trigger] targets@[j])@) == m0.deps[i].target) {
                    spec_cascade_row(m0.deps[i], updates@, force)->Some_0
                } else {
                    m0.deps[i]
                }),
            forall|i: int| #![auto]
                0 <= i < m0.deps.len() && (m0.deps[i].target is None || (exists|j: int|
                    0 <= j < t && Some((#[trigger] targets@[j])@) == m0.deps[i].target))
                    ==> spec_cascade_row(m0.deps[i], updates@, force) is Some,
            (forall|i: int| #![auto]
                0 <= i < m0.deps.len() ==> spec_cascade_skips(m0.deps[i], updates@, force))
                ==> *d == d0,
    {
        let ghost mc = doc_model(*d);
        let tname = &targets[t];
        proof {
            assert forall|i: int|
                0 <= i < m0.deps.len() && mc.deps[i].target == Some(tname@) implies mc.deps[i]
                == m0.deps[i] && m0.deps[i].target == Some(tname@) by {
                lemma_cascade_keeps_address(m0.deps[i], updates@, force);
                if m0.deps[i].target is None {
                    assert(false);
                } else if exists|j: int|
                    0 <= j < t && Some((#[trigger] targets@[j])@) == m0.deps[i].target {
                    let j = choose|j: int|
                        0 <= j < t && Some((#[trigger] targets@[j])@) == m0.deps[i].target;
                    assert(m0.targets[j] == tname@);
                    assert(m0.targets[t as int] == tname@);
                    assert(false);
                }
            }
        }
        let res = cascade_target(d, Some(tname), updates, force, &mut count);
        if res.is_err() {
            proof {
                let i = choose|i: int| #![auto]
                    0 <= i < mc.deps.len() && mc.deps[i].target == Some(tname@)
                        && spec_cascade_row(mc.deps[i], updates@, force) is None;
                assert(mc.deps[i] == m0.deps[i]);
            }
            return Err(res.unwrap_err());
        }
        proof {
            assert forall|i: int|
                0 <= i < m0.deps.len() implies doc_model(*d).deps[i] == (
            if m0.deps[i].target is None || (exists|j: int|
                0 <= j < t + 1 && Some((#[trigger] targets@[j])@) == m0.deps[i].target) {
                spec_cascade_row(m0.deps[i], updates@, force)->Some_0
            } else {
                m0.deps[i]
            }) && ((m0.deps[i].target is None || (exists|j: int|
                0 <= j < t + 1 && Some((#[trigger] targets@[j])@) == m0.deps[i].target))
                ==> spec_cascade_row(m0.deps[i], updates@, force) is Some) by {
                lemma_cascade_keeps_address(m0.deps[i], updates@, force);
                if mc.deps[i].target == Some(tname@) {
                    assert(m0.deps[i].target == Some(tname@));
                    assert(Some((targets@[t as int])@) == m0.deps[i].target);
                } else {
                    if m0.deps[i].target is None || (exists|j: int|
                        0 <= j < t && Some((#[trigger] targets@[j])@) == m0.deps[i].target) {
                        assert(mc.deps[i].target == m0.deps[i].target);
                    } else {
                        if exists|j: int|
                            0 <= j < t + 1 && Some((#[trigger] targets@[j])@)
                                == m0.deps[i].target {
                            let j = choose|j: int|
                                0 <= j < t + 1 && Some((#[trigger] targets@[j])@)
                                    == m0.deps[i].target;
                            assert(j == t);
                            assert(mc.deps[i] == m0.deps[i]);
                            assert(false);
                        }
                    }
                }
            }
        }
    }
    proof {
        assert forall|i: int|
            0 <= i < m0.deps.len() implies (m0.deps[i].target is None || (exists|j: int|
            0 <= j < tlen && Some((#[trigger] targets@[j])@) == m0.deps[i].target)) by {
            if m0.deps[i].target is Some {
                let tg = m0.deps[i].target->0;
                assert(spec_row_target_known(m0, m0.deps[i]));
                assert(m0.targets.contains(tg));
                let j = choose|j: int| 0 <= j < m0.targets.len() && m0.targets[j] == tg;
                assert((targets@[j])@ == tg);
            }
        }
    }
    Ok(count)
}

/// Applies the version cascade to one manifest text: every dependency
/// entry whose true name has a new version and which points at a local
/// sibling through a `path` gets its requirement rewritten.  The text
/// comes back byte-identical outside the rewritten value spans.
pub fn cascade_manifest(text: &str, updates: &Vec<(String, Version)>, force: bool) -> (r: Result<
    String,
    Error,
>)
    ensures
        r is Ok <==> toml_model_of(text@) is Some && (forall|i: int| #![auto]
            0 <= i < (toml_model_of(text@)->Some_0).deps.len() ==> spec_cascade_row(
                (toml_model_of(text@)->Some_0).deps[i],
                updates@,
                force,
            ) is Some),
        r matches Ok(out) ==> (toml_model_of(text@) matches Some(m0) && toml_model_of(out@)
            matches Some(m1) && m1.targets == m0.targets && m1.features == m0.features
            && m1.scalars == m0.scalars && m1.deps.len() == m0.deps.len() && forall|i: int|
            #![auto]
            0 <= i < m0.deps.len() ==> spec_cascade_row(m0.deps[i], updates@, force) == Some(
                m1.deps[i],
            )),
        (forall|i: int| #![auto]
            0 <= i < (toml_model_of(text@)->Some_0).deps.len() ==> spec_cascade_skips(
                (toml_model_of(text@)->Some_0).deps[i],
                updates@,
                force,
            )) ==> (r matches Ok(out) ==> out@ == text@),
{
    let mut doc = match parse_manifest(text) {
        Some(d) => d,
        None => {
            return Err(Error::Parse("the manifest text cannot be parsed".to_owned()));
        },
    };
    match cascade_doc(&mut doc, updates, force) {
        Ok(_) => Ok(manifest_to_string(&doc)),
        Err(e) => Err(e),
    }
}

/// What the cascade promises for one entry, stated over the entry
/// before and after the pass.
pub open spec fn spec_cascade_claim(
    b: DepRow,
    a: DepRow,
    u: Seq<(String, Version)>,
    force: bool,
) -> bool {
    match spec_dep_name(b) {
        Some(name) => match spec_update_for(u, name) {
            Some(nv) => !(b.path is Missing) ==> (match b.version {
                FieldVal::Missing => if b.section == DependencySection::Dev {
                    a == b
                } else {
                    a.version == FieldVal::Str(spec_version_str(nv))
                },
                FieldVal::Str(s) => if force || !spec_req_matches(
                    s,
                    spec_parsed_version(spec_version_str(nv))->Some_0,
                ) {
                    a.version == FieldVal::Str(spec_version_str(nv))
                } else {
                    a == b
                },
                FieldVal::NonStr => true,
            }),
            None => a == b,
        },
        None => true,
    }
}

/// Version cascade completeness: after the cascade, every dependency
/// entry whose true name received a new version and which points at a
/// local sibling through a `path` records a requirement equal to the
/// new version's exact string - unless the old requirement already
/// matched and no forced update was asked for, in which case the entry
/// is unchanged.
pub proof fn lemma_version_cascade_completeness(
    before: Seq<DepRow>,
    after: Seq<DepRow>,
    u: Seq<(String, Version)>,
    force: bool,
)
    requires
        before.len() == after.len(),
        forall|i: int| #![auto]
            0 <= i < before.len() ==> spec_cascade_row(before[i], u, force) == Some(after[i]),
    ensures
        forall|i: int| #![auto] 0 <= i < after.len() ==> spec_cascade_claim(before[i], after[i], u, force),
{
    assert forall|i: int| #![auto]
        0 <= i < after.len() implies spec_cascade_claim(before[i], after[i], u, force) by {
        assert(spec_cascade_row(before[i], u, force) == Some(after[i]));
    }
}

} // verus!

verus! {

/// Writes a package's new version into its own manifest.
pub fn apply_version_to_manifest(text: &str, v: &Version) -> (r: Result<String, Error>)
    ensures
        r is Ok <==> toml_model_of(text@) is Some && (toml_model_of(
            text@,
        )->Some_0).scalar_hosts.contains("package"@),
        r matches Ok(out) ==> (toml_model_of(text@) matches Some(m0) && toml_model_of(out@)
            matches Some(m1) && m1.targets == m0.targets && m1.features == m0.features
            && m1.deps == m0.deps && m1.scalars == m0.scalars.insert(
            ("package"@, "version"@),
            ScalarVal::SStr(spec_version_str(v@)),
        )),
{
    let mut doc = match parse_manifest(text) {
        Some(d) => d,
        None => {
            return Err(Error::Parse("the manifest text cannot be parsed".to_owned()));
        },
    };
    proof {
        lemma_package_root_ok();
    }
    let root = String::from_str("package");
    let key = String::from_str("version");
    let vstr = version_string(v);
    let ok = set_scalar(&mut doc, &root, &key, &ScalarArg::Str(vstr));
    if !ok {
        return Err(Error::Parse("the package table of the manifest is malformed".to_owned()));
    }
    Ok(manifest_to_string(&doc))
}

/// The updates that the assignment pass records: one entry per
/// selected package whose mapper yields a new version, in order.
pub open spec fn spec_updates(pkgs: Seq<PkgInfo>, selected: Seq<bool>, m: &VersionMapper) -> Seq<
    (Seq<char>, VersionView),
>
    decreases pkgs.len(),
{
    if pkgs.len() == 0 {
        Seq::empty()
    } else {
        let rest = spec_updates(pkgs.drop_last(), selected.drop_last(), m);
        if selected.len() == pkgs.len() && selected.last() && spec_apply_mapper(
            m,
            pkgs.last()@.version,
        ) is Some {
            rest.push((pkgs.last()@.name, spec_apply_mapper(m, pkgs.last()@.version)->Some_0))
        } else {
            rest
        }
    }
}

/// What `set_version` promises of one manifest: the whole-file
/// cascade, plus the package's own new version when one was assigned.
pub open spec fn spec_set_version_file(
    t: Seq<char>,
    out: Seq<char>,
    u: Seq<(String, Version)>,
    assigned: Option<VersionView>,
    force: bool,
) -> bool {
    &&& toml_model_of(t) matches Some(m0)
    &&& toml_model_of(out) matches Some(m1)
    &&& {
        let m0 = toml_model_of(t)->Some_0;
        let m1 = toml_model_of(out)->Some_0;
        &&& m1.targets == m0.targets
        &&& m1.features == m0.features
        &&& m1.deps.len() == m0.deps.len()
        &&& forall|j: int| #![auto]
            0 <= j < m0.deps.len() ==> spec_cascade_row(m0.deps[j], u, force) == Some(m1.deps[j])
        &&& m1.scalars == (match assigned {
            Some(nv) => m0.scalars.insert(
                ("package"@, "version"@),
                ScalarVal::SStr(spec_version_str(nv)),
            ),
            None => m0.scalars,
        })
    }
}

/// The view of the updates list.
pub open spec fn spec_updates_view(u: Seq<(String, Version)>) -> Seq<(Seq<char>, VersionView)> {
    u.map_values(|p: (String, Version)| (p.0@, p.1@))
}

/// The new version recorded for a package name, over views.
pub open spec fn spec_update_for_view(u: Seq<(Seq<char>, VersionView)>, name: Seq<char>) -> Option<
    VersionView,
>
    decreases u.len(),
{
    if u.len() == 0 {
        None
    } else if u[0].0 == name {
        Some(u[0].1)
    } else {
        spec_update_for_view(u.drop_first(), name)
    }
}

proof fn lemma_update_for_view(u: Seq<(String, Version)>, name: Seq<char>)
    ensures
        spec_update_for(u, name) == spec_update_for_view(spec_updates_view(u), name),
    decreases u.len(),
{
    if u.len() > 0 {
        lemma_update_for_view(u.drop_first(), name);
        assert(spec_updates_view(u).drop_first() =~= spec_updates_view(u.drop_first()));
    }
}

/// What the cascade does to one dependency entry, over the view of
/// the updates list.
pub open spec fn spec_cascade_row_v(
    r: DepRow,
    u: Seq<(Seq<char>, VersionView)>,
    force: bool,
) -> Option<DepRow> {
    match spec_dep_name(r) {
        None => None,
        Some(name) => match spec_update_for_view(u, name) {
            None => Some(r),
            Some(nv) => {
                if r.path is Missing {
                    Some(r)
                } else {
                    match r.version {
                        FieldVal::Missing => if r.section == DependencySection::Dev {
                            Some(r)
                        } else {
                            Some(DepRow { version: FieldVal::Str(spec_version_str(nv)), ..r })
                        },
                        FieldVal::NonStr => None,
                        FieldVal::Str(s) => if !(spec_req_ok(s) && spec_parsed_version(
                            spec_version_str(nv),
                        ) is Some) {
                            None
                        } else if force || !spec_req_matches(
                            s,
                            spec_parsed_version(spec_version_str(nv))->Some_0,
                        ) {
                            Some(DepRow { version: FieldVal::Str(spec_version_str(nv)), ..r })
                        } else {
                            Some(r)
                        },
                    }
                }
            },
        },
    }
}

proof fn lemma_cascade_row_view(r: DepRow, u: Seq<(String, Version)>, force: bool)
    ensures
        spec_cascade_row(r, u, force) == spec_cascade_row_v(r, spec_updates_view(u), force),
{
    if spec_dep_name(r) is Some {
        lemma_update_for_view(u, spec_dep_name(r)->0);
    }
}

/// What the assignment pass does to one manifest: the package's own
/// version field is rewritten when a version was assigned; otherwise
/// the text is untouched.
pub open spec fn spec_assign_file(t: Seq<char>, mid: Seq<char>, assigned: Option<VersionView>)
    -> bool {
    match assigned {
        Some(nv) => toml_model_of(t) matches Some(m0) && toml_model_of(mid) matches Some(mm) && {
            let m0 = toml_model_of(t)->Some_0;
            let mm = toml_model_of(mid)->Some_0;
            &&& mm.targets == m0.targets
            &&& mm.features == m0.features
            &&& mm.deps == m0.deps
            &&& mm.scalars == m0.scalars.insert(
                ("package"@, "version"@),
                ScalarVal::SStr(spec_version_str(nv)),
            )
        },
        None => mid == t,
    }
}

/// The version a package is assigned, if any.
pub open spec fn spec_assigned_version(
    pkg: PkgInfo,
    sel: bool,
    m: &VersionMapper,
) -> Option<VersionView> {
    if sel {
        spec_apply_mapper(m, pkg@.version)
    } else {
        None
    }
}

/// What stops the two-pass version run on one package: a mapper out
/// of machine range or with a rejected argument, an unparseable
/// manifest, a `package` table that cannot be written, or a
/// dependency entry the cascade rejects.
pub open spec fn spec_set_version_blocked(
    texts: Seq<String>,
    pkgs: Seq<PkgInfo>,
    selected: Seq<bool>,
    mapper: &VersionMapper,
    force: bool,
    i: int,
) -> bool {
    ||| selected[i] && !spec_mapper_in_range(mapper, pkgs[i]@.version)
    ||| selected[i] && !spec_mapper_ok(mapper)
    ||| toml_model_of(texts[i]@) is None
    ||| (selected[i] && spec_apply_mapper(mapper, pkgs[i]@.version) is Some && toml_model_of(
        texts[i]@,
    ) is Some && !(toml_model_of(texts[i]@)->Some_0).scalar_hosts.contains("package"@))
    ||| (toml_model_of(texts[i]@) is Some && exists|j: int| #![auto]
        0 <= j < (toml_model_of(texts[i]@)->Some_0).deps.len() && spec_cascade_row_v(
            (toml_model_of(texts[i]@)->Some_0).deps[j],
            spec_updates(pkgs, selected, mapper),
            force,
        ) is None)
}

/// Sets versions in two passes, exactly as the release flow does it:
/// first every selected package has the mapper applied and its own
/// manifest's `package.version` rewritten; then every manifest of the
/// workspace has its dependency requirements cascaded to the new
/// versions.  Returns the rewritten manifest texts and the recorded
/// updates.
#[verifier::loop_isolation(false)]
#[verifier::rlimit(50)]
pub fn set_version(
    texts: &Vec<String>,
    pkgs: &Vec<PkgInfo>,
    selected: &Vec<bool>,
    mapper: &VersionMapper,
    force: bool,
) -> (r: Result<(Vec<String>, Vec<(String, Version)>), Error>)
    requires
        texts@.len() == pkgs@.len(),
        selected@.len() == pkgs@.len(),
    ensures
        r matches Ok(p) ==> ({
            let outs = p.0;
            let updates = p.1;
            &&& outs@.len() == texts@.len()
            &&& spec_updates_view(updates@) == spec_updates(pkgs@, selected@, mapper)
            &&& forall|i: int| #![auto]
                0 <= i < texts@.len() ==> spec_set_version_file(
                    texts@[i]@,
                    outs@[i]@,
                    updates@,
                    spec_assigned_version(pkgs@[i], selected@[i], mapper),
                    force,
                )
        }),
        r is Err <==> exists|i: int|
            0 <= i < texts@.len() && #[trigger] spec_set_version_blocked(
                texts@,
                pkgs@,
                selected@,
                mapper,
                force,
                i,
            ),
{
    let n = texts.len();
    let mut mids: Vec<String> = Vec::new();
    let mut updates: Vec<(String, Version)> = Vec::new();
    for i in 0..n
        invariant
            mids@.len() == i,
            spec_updates_view(updates@) == spec_updates(
                pkgs@.subrange(0, i as int),
                selected@.subrange(0, i as int),
                mapper,
            ),
            forall|j: int|
                0 <= j < i ==> spec_assign_file(
                    texts@[j]@,
                    (#[trigger] mids@[j])@,
                    spec_assigned_version(pkgs@[j], selected@[j], mapper),
                ),
            forall|j: int| #![auto]
                0 <= j < i && selected@[j] ==> spec_mapper_in_range(mapper, pkgs@[j]@.version),
            (exists|j: int| 0 <= j < i && #[trigger] selected@[j]) ==> spec_mapper_ok(mapper),
            forall|j: int| #![auto]
                0 <= j < i && selected@[j] && spec_apply_mapper(mapper, pkgs@[j]@.version)
                    is Some ==> toml_model_of(texts@[j]@) is Some && (toml_model_of(
                    texts@[j]@,
                )->Some_0).scalar_hosts.contains("package"@),
    {
        proof {
            assert(pkgs@.subrange(0, i + 1).drop_last() =~= pkgs@.subrange(0, i as int));
            assert(selected@.subrange(0, i + 1).drop_last() =~= selected@.subrange(0, i as int));
            assert(pkgs@.subrange(0, i + 1).last() == pkgs@[i as int]);
            assert(selected@.subrange(0, i + 1).last() == selected@[i as int]);
        }
        if selected[i] {
            if !mapper_in_range(mapper, &pkgs[i].version) {
                proof {
                    assert(spec_set_version_blocked(
                        texts@,
                        pkgs@,
                        selected@,
                        mapper,
                        force,
                        i as int,
                    ));
                }
                return Err(
                    Error::Configuration("the version bump would overflow a number".to_owned()),
                );
            }
            match apply_mapper(mapper, &pkgs[i].version) {
                Err(e) => {
                    proof {
                        assert(spec_set_version_blocked(
                            texts@,
                            pkgs@,
                            selected@,
                            mapper,
                            force,
                            i as int,
                        ));
                    }
                    return Err(e);
                },
                Ok(None) => {
                    mids.push(texts[i].clone());
                },
                Ok(Some(nv)) => {
                    match apply_version_to_manifest(texts[i].as_str(), &nv) {
                        Ok(mid) => {
                            mids.push(mid);
                            updates.push((pkgs[i].name.clone(), nv));
                            proof {
                                assert(spec_updates_view(updates@) =~= spec_updates_view(
                                    updates@.drop_last(),
                                ).push((pkgs@[i as int]@.name, spec_apply_mapper(
                                    mapper,
                                    pkgs@[i as int]@.version,
                                )->Some_0)));
                            }
                        },
                        Err(e) => {
                            proof {
                                assert(spec_set_version_blocked(
                                    texts@,
                                    pkgs@,
                                    selected@,
                                    mapper,
                                    force,
                                    i as int,
                                ));
                            }
                            return Err(e);
                        },
                    }
                },
            }
        } else {
            mids.push(texts[i].clone());
        }
    }
    proof {
        assert(pkgs@.subrange(0, n as int) =~= pkgs@);
        assert(selected@.subrange(0, n as int) =~= selected@);
    }
    let mut outs: Vec<String> = Vec::new();
    for i in 0..n
        invariant
            mids@.len() == n,
            outs@.len() == i,
            spec_updates_view(updates@) == spec_updates(pkgs@, selected@, mapper),
            forall|j: int|
                0 <= j < n ==> spec_assign_file(
                    texts@[j]@,
                    (#[trigger] mids@[j])@,
                    spec_assigned_version(pkgs@[j], selected@[j], mapper),
                ),
            forall|j: int| #![auto]
                0 <= j < n && selected@[j] ==> spec_mapper_in_range(mapper, pkgs@[j]@.version),
            (exists|j: int| 0 <= j < n && #[trigger] selected@[j]) ==> spec_mapper_ok(mapper),
            forall|j: int| #![auto]
                0 <= j < n && selected@[j] && spec_apply_mapper(mapper, pkgs@[j]@.version)
                    is Some ==> toml_model_of(texts@[j]@) is Some && (toml_model_of(
                    texts@[j]@,
                )->Some_0).scalar_hosts.contains("package"@),
            forall|j: int| #![auto]
                0 <= j < i ==> spec_set_version_file(
                    texts@[j]@,
                    outs@[j]@,
                    updates@,
                    spec_assigned_version(pkgs@[j], selected@[j], mapper),
                    force,
                ),
            forall|j: int| #![auto] 0 <= j < i ==> toml_model_of(texts@[j]@) is Some,
    {
        match cascade_manifest(mids[i].as_str(), &updates, force) {
            Ok(o) => {
                outs.push(o);
            },
            Err(e) => {
                proof {
                    if toml_model_of(mids@[i as int]@) is None {
                        assert(toml_model_of(texts@[i as int]@) is None);
                    } else {
                        let mm = toml_model_of(mids@[i as int]@)->Some_0;
                        let m0 = toml_model_of(texts@[i as int]@)->Some_0;
                        assert(mm.deps == m0.deps);
                        let j = choose|j: int| #![auto]
                            0 <= j < mm.deps.len() && spec_cascade_row(
                                mm.deps[j],
                                updates@,
                                force,
                            ) is None;
                        lemma_cascade_row_view(mm.deps[j], updates@, force);
                    }
                    assert(spec_set_version_blocked(
                        texts@,
                        pkgs@,
                        selected@,
                        mapper,
                        force,
                        i as int,
                    ));
                }
                return Err(e);
            },
        }
    }
    proof {
        assert forall|i: int|
            0 <= i < texts@.len() implies !spec_set_version_blocked(
            texts@,
            pkgs@,
            selected@,
            mapper,
            force,
            i,
        ) by {
            assert(toml_model_of(texts@[i]@) is Some);
            let m0 = toml_model_of(texts@[i]@)->Some_0;
            let mm = toml_model_of(mids@[i]@)->Some_0;
            assert(mm.deps == m0.deps);
            assert forall|j: int| #![auto]
                0 <= j < m0.deps.len() implies spec_cascade_row_v(
                m0.deps[j],
                spec_updates(pkgs@, selected@, mapper),
                force,
            ) is Some by {
                assert(spec_cascade_row(mm.deps[j], updates@, force) is Some);
                lemma_cascade_row_view(mm.deps[j], updates@, force);
            }
        }
    }
    Ok((outs, updates))
}

} // verus!
