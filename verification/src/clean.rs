//! The dead-dependency cleaner: a declared dependency whose alias
//! (hyphens as underscores) is found nowhere in the package's sources
//! as a whole identifier is removed - or only reported, in check
//! mode - and feature references to removed aliases are pruned.

use vstd::prelude::*;
use crate::editor::DependencySection;
use crate::errors::Error;
use crate::search::{spec_used_in_files, used_in_files};
use crate::selection::spec_name_listed;
use crate::strutil::{find_char, replace_char, spec_replace_char, str_eq, str_prefix};
use crate::toml_doc::{dep_keys, dep_remove, doc_model, feature_elems, feature_names,
    feature_remove_elem, manifest_to_string, parse_manifest, spec_at, spec_in_host,
    spec_row_target_known, spec_target_view, target_names, toml_model_of, DepRow, FeatElem,
    FeatRow, ManifestModel};

verus! {

/// Whether a dependency entry counts as used: an empty key is left
/// alone, any other key must occur (hyphens as underscores) in some
/// source file.
pub open spec fn spec_dep_used(files: Seq<String>, key: Seq<char>) -> bool {
    key.len() == 0 || spec_used_in_files(files, spec_replace_char(key, '-', '_'))
}

/// Filters agree on every element, so the filtered sequences agree.
proof fn lemma_filter_agree(s: Seq<DepRow>, p: spec_fn(DepRow) -> bool, q: spec_fn(DepRow) -> bool)
    requires
        forall|i: int| 0 <= i < s.len() ==> p(#[trigger] s[i]) == q(s[i]),
    ensures
        s.filter(p) == s.filter(q),
    decreases s.len(),
{
    reveal(Seq::filter);
    if s.len() != 0 {
        assert forall|i: int| 0 <= i < s.drop_last().len() implies p(
            #[trigger] s.drop_last()[i],
        ) == q(s.drop_last()[i]) by {
            assert(s.drop_last()[i] == s[i]);
        }
        lemma_filter_agree(s.drop_last(), p, q);
        assert(p(s.last()) == q(s.last()));
    }
}

/// Filtering by a predicate that holds everywhere changes nothing.
proof fn lemma_filter_all(s: Seq<DepRow>, p: spec_fn(DepRow) -> bool)
    requires
        forall|i: int| 0 <= i < s.len() ==> p(#[trigger] s[i]),
    ensures
        s.filter(p) == s,
    decreases s.len(),
{
    reveal(Seq::filter);
    if s.len() != 0 {
        assert forall|i: int| 0 <= i < s.drop_last().len() implies p(
            #[trigger] s.drop_last()[i],
        ) by {
            assert(s.drop_last()[i] == s[i]);
        }
        lemma_filter_all(s.drop_last(), p);
        assert(p(s.last()));
        assert(s.drop_last().push(s.last()) =~= s);
    }
}

/// Every element of a filtered sequence is an element of the
/// original.
proof fn lemma_filter_member(s: Seq<DepRow>, p: spec_fn(DepRow) -> bool, i: int)
    requires
        0 <= i < s.filter(p).len(),
    ensures
        s.contains(s.filter(p)[i]),
    decreases s.len(),
{
    reveal(Seq::filter);
    if s.len() > 0 {
        if p(s.last()) {
            if i < s.filter(p).len() - 1 {
                lemma_filter_member(s.drop_last(), p, i);
                let x = s.drop_last().filter(p)[i];
                let j = choose|j: int|
                    0 <= j < s.drop_last().len() && #[trigger] s.drop_last()[j] == x;
                assert(s[j] == x);
            } else {
                assert(s.filter(p)[i] == s.last());
                assert(s[s.len() - 1] == s.last());
            }
        } else {
            lemma_filter_member(s.drop_last(), p, i);
            let x = s.drop_last().filter(p)[i];
            let j = choose|j: int|
                0 <= j < s.drop_last().len() && #[trigger] s.drop_last()[j] == x;
            assert(s[j] == x);
        }
    }
}

/// Filtering twice is filtering by the conjunction.
proof fn lemma_filter_compose(
    s: Seq<DepRow>,
    p: spec_fn(DepRow) -> bool,
    q: spec_fn(DepRow) -> bool,
    pq: spec_fn(DepRow) -> bool,
)
    requires
        forall|i: int| 0 <= i < s.len() ==> pq(#[trigger] s[i]) == (p(s[i]) && q(s[i])),
    ensures
        s.filter(p).filter(q) == s.filter(pq),
    decreases s.len(),
{
    reveal(Seq::filter);
    if s.len() == 0 {
        assert(s.filter(p) =~= Seq::<DepRow>::empty());
        assert(s.filter(p).filter(q) =~= Seq::<DepRow>::empty());
        assert(s.filter(pq) =~= Seq::<DepRow>::empty());
    } else {
        assert forall|i: int| 0 <= i < s.drop_last().len() implies pq(
            #[trigger] s.drop_last()[i],
        ) == (p(s.drop_last()[i]) && q(s.drop_last()[i])) by {
            assert(s.drop_last()[i] == s[i]);
        }
        lemma_filter_compose(s.drop_last(), p, q, pq);
        let l = s.last();
        assert(pq(l) == (p(l) && q(l)));
        if p(l) {
            assert(s.filter(p) == s.drop_last().filter(p).push(l));
            assert(s.filter(p).drop_last() =~= s.drop_last().filter(p));
            assert(s.filter(p).last() == l);
            if q(l) {
                assert(s.filter(p).filter(q) == s.filter(p).drop_last().filter(q).push(l));
            } else {
                assert(s.filter(p).filter(q) == s.filter(p).drop_last().filter(q));
            }
        } else {
            assert(s.filter(p) == s.drop_last().filter(p));
        }
    }
}

/// Cleans one top-level dependency section: every unused entry is
/// removed, or only counted in check mode.
#[verifier::rlimit(60)]
#[verifier::loop_isolation(false)]
fn clean_host(
    d: &mut toml_edit::DocumentMut,
    target: Option<&String>,
    section: &DependencySection,
    files: &Vec<String>,
    check_only: bool,
    count: &mut u32,
    removed: &mut Vec<String>,
) -> (found: bool)
    ensures
        doc_model(*final(d)).targets == doc_model(*old(d)).targets,
        doc_model(*final(d)).features == doc_model(*old(d)).features,
        doc_model(*final(d)).scalars == doc_model(*old(d)).scalars,
        doc_model(*final(d)).scalar_hosts == doc_model(*old(d)).scalar_hosts,
        check_only ==> doc_model(*final(d)).deps == doc_model(*old(d)).deps,
        !check_only ==> doc_model(*final(d)).deps == doc_model(*old(d)).deps.filter(
            |r: DepRow|
                !spec_in_host(r, spec_target_view(target), *section) || spec_dep_used(
                    files@,
                    r.key,
                ),
        ),
        final(removed)@.len() >= old(removed)@.len(),
        forall|i: int|
            0 <= i < old(removed)@.len() ==> final(removed)@[i] == #[trigger] old(removed)@[i],
        found == exists|i: int| #![auto]
            0 <= i < doc_model(*old(d)).deps.len() && spec_in_host(
                doc_model(*old(d)).deps[i],
                spec_target_view(target),
                *section,
            ) && !spec_dep_used(files@, doc_model(*old(d)).deps[i].key),
        *final(count) >= *old(count),
        (*final(count) > 0) == (*old(count) > 0 || found),
        !check_only ==> forall|i: int| #![auto]
            0 <= i < doc_model(*old(d)).deps.len() && spec_in_host(
                doc_model(*old(d)).deps[i],
                spec_target_view(target),
                *section,
            ) && !spec_dep_used(files@, doc_model(*old(d)).deps[i].key) ==> exists|k: int|
                0 <= k < final(removed)@.len() && (#[trigger] final(removed)@[k])@ == doc_model(
                    *old(d),
                ).deps[i].key,
{
    let keys = dep_keys(d, target, section, section.key());
    let ghost m0 = doc_model(*d);
    let ghost tv = spec_target_view(target);
    let klen = keys.len();
    let ghost r0 = removed@;
    let ghost c0 = *count;
    let mut found = false;
    proof {
        let p0 = |r: DepRow|
            !(spec_in_host(r, tv, *section) && crate::cascade::spec_key_in_prefix(
                keys@,
                0,
                r.key,
            ) && !spec_dep_used(files@, r.key));
        assert forall|i: int| 0 <= i < m0.deps.len() implies p0(#[trigger] m0.deps[i]) by {
            assert(!crate::cascade::spec_key_in_prefix(keys@, 0, m0.deps[i].key));
        }
        lemma_filter_all(m0.deps, p0);
    }
    for k in 0..klen
        invariant
            doc_model(*d).targets == m0.targets,
            doc_model(*d).features == m0.features,
            doc_model(*d).scalars == m0.scalars,
            doc_model(*d).scalar_hosts == m0.scalar_hosts,
            check_only ==> doc_model(*d).deps == m0.deps,
            !check_only ==> doc_model(*d).deps == m0.deps.filter(
                |r: DepRow|
                    !(spec_in_host(r, tv, *section) && crate::cascade::spec_key_in_prefix(
                        keys@,
                        k as int,
                        r.key,
                    ) && !spec_dep_used(files@, r.key)),
            ),
            removed@.len() >= r0.len(),
            forall|i: int| 0 <= i < r0.len() ==> removed@[i] == #[trigger] r0[i],
            found == exists|i: int| #![auto]
                0 <= i < m0.deps.len() && spec_in_host(m0.deps[i], tv, *section)
                    && crate::cascade::spec_key_in_prefix(keys@, k as int, m0.deps[i].key)
                    && !spec_dep_used(files@, m0.deps[i].key),
            *count >= c0,
            (*count > 0) == (c0 > 0 || found),
            !check_only ==> forall|i: int| #![auto]
                0 <= i < m0.deps.len() && spec_in_host(m0.deps[i], tv, *section)
                    && crate::cascade::spec_key_in_prefix(keys@, k as int, m0.deps[i].key)
                    && !spec_dep_used(files@, m0.deps[i].key) ==> exists|q: int|
                    0 <= q < removed@.len() && (#[trigger] removed@[q])@ == m0.deps[i].key,
    {
        let ghost pred_k = |r: DepRow|
            !(spec_in_host(r, tv, *section) && crate::cascade::spec_key_in_prefix(
                keys@,
                k as int,
                r.key,
            ) && !spec_dep_used(files@, r.key));
        let ghost pred_k1 = |r: DepRow|
            !(spec_in_host(r, tv, *section) && crate::cascade::spec_key_in_prefix(
                keys@,
                k + 1,
                r.key,
            ) && !spec_dep_used(files@, r.key));
        let key = &keys[k];
        let ident = replace_char(key.as_str(), '-', '_');
        let used = if key.as_str().is_empty() {
            true
        } else {
            used_in_files(files, ident.as_str())
        };
        if !used {
            if *count < u32::MAX {
                *count = *count + 1;
            }
            proof {
                assert(crate::toml_doc::spec_key_of_row(m0, tv, *section, key@));
                assert(crate::cascade::spec_key_in_prefix(keys@, k + 1, key@));
            }
            found = true;
            if !check_only {
                let ghost mc = doc_model(*d);
                let ghost rpre = removed@;
                dep_remove(d, target, section, section.key(), key);
                removed.push(key.clone());
                proof {
                    let q = |r: DepRow| !spec_at(r, tv, *section, key@);
                    assert forall|i: int| 0 <= i < m0.deps.len() implies #[trigger] pred_k1(
                        m0.deps[i],
                    ) == (pred_k(m0.deps[i]) && q(m0.deps[i])) by {
                        let r = m0.deps[i];
                        if spec_in_host(r, tv, *section) && r.key == key@ {
                            assert(crate::cascade::spec_key_in_prefix(keys@, k + 1, r.key));
                            assert(!crate::cascade::spec_key_in_prefix(keys@, k as int, r.key));
                        } else {
                            if crate::cascade::spec_key_in_prefix(keys@, k + 1, r.key)
                                && !crate::cascade::spec_key_in_prefix(keys@, k as int, r.key) {
                                assert((keys@[k as int])@ == r.key);
                            }
                        }
                    }
                    lemma_filter_compose(m0.deps, pred_k, q, pred_k1);
                    assert(mc.deps.filter(q) == m0.deps.filter(pred_k).filter(q));
                    assert(removed@ == rpre.push(removed@.last()));
                    assert(removed@.last()@ == key@);
                    assert forall|i: int| #![auto]
                        0 <= i < m0.deps.len() && spec_in_host(m0.deps[i], tv, *section)
                            && crate::cascade::spec_key_in_prefix(keys@, k + 1, m0.deps[i].key)
                            && !spec_dep_used(files@, m0.deps[i].key) implies exists|qq: int|
                        0 <= qq < removed@.len() && (#[trigger] removed@[qq])@
                            == m0.deps[i].key by {
                        if crate::cascade::spec_key_in_prefix(keys@, k as int, m0.deps[i].key) {
                            let qq = choose|qq: int|
                                0 <= qq < rpre.len() && (#[trigger] rpre[qq])@ == m0.deps[i].key;
                            assert(removed@[qq] == rpre[qq]);
                        } else {
                            assert((keys@[k as int])@ == m0.deps[i].key);
                            assert(removed@[removed@.len() - 1]@ == m0.deps[i].key);
                        }
                    }
                }
            }
        } else {
            proof {
                if !check_only {
                    assert forall|i: int| 0 <= i < m0.deps.len() implies pred_k(
                        #[trigger] m0.deps[i],
                    ) == pred_k1(m0.deps[i]) by {
                        let r = m0.deps[i];
                        if crate::cascade::spec_key_in_prefix(keys@, k + 1, r.key)
                            && !crate::cascade::spec_key_in_prefix(keys@, k as int, r.key) {
                            assert((keys@[k as int])@ == r.key);
                            assert(spec_dep_used(files@, r.key));
                        }
                    }
                    lemma_filter_agree(m0.deps, pred_k, pred_k1);
                }
            }
        }
    }
    proof {
        if !check_only {
            let pred_end = |r: DepRow|
                !(spec_in_host(r, tv, *section) && crate::cascade::spec_key_in_prefix(
                    keys@,
                    klen as int,
                    r.key,
                ) && !spec_dep_used(files@, r.key));
            let target_pred = |r: DepRow|
                !spec_in_host(r, tv, *section) || spec_dep_used(files@, r.key);
            assert forall|i: int| 0 <= i < m0.deps.len() implies pred_end(
                #[trigger] m0.deps[i],
            ) == target_pred(m0.deps[i]) by {
                let r = m0.deps[i];
                if spec_in_host(r, tv, *section) {
                    assert(crate::cascade::spec_key_in_prefix(keys@, klen as int, r.key));
                }
            }
            lemma_filter_agree(m0.deps, pred_end, target_pred);
        }
    }
    found
}

} // verus!

verus! {

/// Index of the first `/` in a feature array element, if any.
pub open spec fn spec_first_slash(s: Seq<char>) -> Option<int>
    decreases s.len(),
{
    if s.len() == 0 {
        None
    } else if s[0] == '/' {
        Some(0)
    } else {
        match spec_first_slash(s.drop_first()) {
            Some(i) => Some(i + 1),
            None => None,
        }
    }
}

pub proof fn lemma_first_slash_some(s: Seq<char>, i: int)
    requires
        0 <= i < s.len(),
        s[i] == '/',
        forall|j: int| 0 <= j < i ==> s[j] != '/',
    ensures
        spec_first_slash(s) == Some(i),
    decreases i,
{
    if i == 0 {
    } else {
        assert(s.drop_first()[i - 1] == s[i]);
        assert forall|j: int| 0 <= j < i - 1 implies s.drop_first()[j] != '/' by {
            assert(s.drop_first()[j] == s[j + 1]);
        }
        lemma_first_slash_some(s.drop_first(), i - 1);
    }
}

pub proof fn lemma_first_slash_none(s: Seq<char>)
    requires
        forall|j: int| 0 <= j < s.len() ==> s[j] != '/',
    ensures
        spec_first_slash(s) is None,
    decreases s.len(),
{
    if s.len() > 0 {
        assert forall|j: int| 0 <= j < s.drop_first().len() implies s.drop_first()[j] != '/' by {
            assert(s.drop_first()[j] == s[j + 1]);
        }
        lemma_first_slash_none(s.drop_first());
    }
}

/// The part of a feature element before the optional `/`.
pub open spec fn spec_feat_prefix(s: Seq<char>) -> Seq<char> {
    match spec_first_slash(s) {
        Some(i) => s.subrange(0, i),
        None => s,
    }
}

/// Does the element refer to one of the removed aliases?
pub open spec fn spec_elem_refers(s: Seq<char>, removed: Seq<String>) -> bool {
    exists|k: int| 0 <= k < removed.len() && (#[trigger] removed[k])@ == spec_feat_prefix(s)
}

/// Decides whether one feature element refers to a removed alias.
#[verifier::loop_isolation(false)]
fn elem_refers(s: &str, removed: &Vec<String>) -> (r: bool)
    ensures
        r == spec_elem_refers(s@, removed@),
{
    let prefix = match find_char(s, '/') {
        Some(i) => {
            proof {
                lemma_first_slash_some(s@, i as int);
            }
            str_prefix(s, i)
        },
        None => {
            proof {
                lemma_first_slash_none(s@);
            }
            s.to_owned()
        },
    };
    let len = removed.len();
    for k in 0..len
        invariant
            prefix@ == spec_feat_prefix(s@),
            forall|q: int| 0 <= q < k ==> (#[trigger] removed@[q])@ != spec_feat_prefix(s@),
    {
        if str_eq(removed[k].as_str(), prefix.as_str()) {
            return true;
        }
    }
    false
}

/// Is the feature element kept by the pruning: everything except a
/// string element that refers to a removed alias.
pub open spec fn spec_elem_kept(e: FeatElem, removed: Seq<String>) -> bool {
    match e {
        FeatElem::StrElem(s) => !spec_elem_refers(s, removed),
        FeatElem::OtherElem => true,
    }
}

proof fn lemma_feat_filter_all(s: Seq<FeatElem>, p: spec_fn(FeatElem) -> bool)
    requires
        forall|i: int| 0 <= i < s.len() ==> p(#[trigger] s[i]),
    ensures
        s.filter(p) == s,
    decreases s.len(),
{
    reveal(Seq::filter);
    if s.len() != 0 {
        assert forall|i: int| 0 <= i < s.drop_last().len() implies p(
            #[trigger] s.drop_last()[i],
        ) by {
            assert(s.drop_last()[i] == s[i]);
        }
        lemma_feat_filter_all(s.drop_last(), p);
        assert(p(s.last()));
        assert(s.drop_last().push(s.last()) =~= s);
    }
}

/// Removing an element the filter drops anyway leaves the filtered
/// sequence unchanged.
proof fn lemma_feat_filter_remove(s: Seq<FeatElem>, p: spec_fn(FeatElem) -> bool, j: int)
    requires
        0 <= j < s.len(),
        !p(s[j]),
    ensures
        s.remove(j).filter(p) == s.filter(p),
{
    broadcast use vstd::seq_lib::group_filter_ensures;

    let pre = s.subrange(0, j);
    let mid = seq![s[j]];
    let post = s.subrange(j + 1, s.len() as int);
    assert(s =~= pre + mid + post);
    assert(s.remove(j) =~= pre + post);
    Seq::filter_distributes_over_add(pre + mid, post, p);
    Seq::filter_distributes_over_add(pre, mid, p);
    Seq::filter_distributes_over_add(pre, post, p);
    assert(mid.filter(p) =~= Seq::<FeatElem>::empty()) by {
        reveal(Seq::filter);
        assert(mid.drop_last() =~= Seq::<FeatElem>::empty());
        assert(mid.last() == s[j]);
        assert(mid.drop_last().filter(p) =~= Seq::<FeatElem>::empty());
    }
    assert((pre + mid).filter(p) =~= pre.filter(p));
    assert(s.filter(p) =~= pre.filter(p) + post.filter(p));
    assert(s.remove(j).filter(p) =~= pre.filter(p) + post.filter(p));
}

/// A feature row with no element referring to a removed alias.
pub open spec fn spec_row_pruned(f: FeatRow, removed: Seq<String>) -> bool {
    forall|j: int|
        0 <= j < f.elems.len() ==> (match #[trigger] f.elems[j] {
            FeatElem::StrElem(s) => !spec_elem_refers(s, removed),
            FeatElem::OtherElem => true,
        })
}

/// Drops every feature array element that refers (by the prefix
/// before the optional `/`) to a removed dependency alias.
#[verifier::rlimit(60)]
#[verifier::loop_isolation(false)]
fn prune_features(d: &mut toml_edit::DocumentMut, removed: &Vec<String>)
    requires
        forall|i: int, j: int|
            0 <= i < j < doc_model(*old(d)).features.len() ==> doc_model(
                *old(d),
            ).features[i].name != doc_model(*old(d)).features[j].name,
    ensures
        doc_model(*final(d)).targets == doc_model(*old(d)).targets,
        doc_model(*final(d)).deps == doc_model(*old(d)).deps,
        doc_model(*final(d)).scalars == doc_model(*old(d)).scalars,
        doc_model(*final(d)).features.len() == doc_model(*old(d)).features.len(),
        forall|i: int| #![auto]
            0 <= i < doc_model(*old(d)).features.len() ==> doc_model(*final(d)).features[i].name
                == doc_model(*old(d)).features[i].name,
        forall|i: int|
            0 <= i < doc_model(*final(d)).features.len() ==> spec_row_pruned(
                #[trigger] doc_model(*final(d)).features[i],
                removed@,
            ),
        doc_model(*final(d)).scalar_hosts == doc_model(*old(d)).scalar_hosts,
        forall|i: int| #![auto]
            0 <= i < doc_model(*old(d)).features.len() ==> doc_model(*final(d)).features[i].elems
                == doc_model(*old(d)).features[i].elems.filter(
                |e: FeatElem| spec_elem_kept(e, removed@),
            ),
{
    let names = feature_names(d);
    let ghost m0 = doc_model(*d);
    let flen = names.len();
    for fi in 0..flen
        invariant
            doc_model(*d).targets == m0.targets,
            doc_model(*d).deps == m0.deps,
            doc_model(*d).scalars == m0.scalars,
            doc_model(*d).scalar_hosts == m0.scalar_hosts,
            doc_model(*d).features.len() == m0.features.len(),
            flen == names@.len(),
            names@.len() == m0.features.len(),
            forall|j: int| 0 <= j < names@.len() ==> (#[trigger] names@[j])@ == m0.features[j].name,
            forall|i: int| #![auto]
                0 <= i < m0.features.len() ==> doc_model(*d).features[i].name
                    == m0.features[i].name,
            forall|i: int| #![auto]
                0 <= i < m0.features.len() ==> doc_model(*d).features[i].elems.filter(
                    |e: FeatElem| spec_elem_kept(e, removed@),
                ) == m0.features[i].elems.filter(|e: FeatElem| spec_elem_kept(e, removed@)),
            forall|i: int|
                0 <= i < fi ==> spec_row_pruned(#[trigger] doc_model(*d).features[i], removed@)
                    && doc_model(*d).features[i].elems == m0.features[i].elems.filter(
                    |e: FeatElem| spec_elem_kept(e, removed@),
                ),
    {
        let name = &names[fi];
        loop
            invariant
                doc_model(*d).targets == m0.targets,
                doc_model(*d).deps == m0.deps,
                doc_model(*d).scalars == m0.scalars,
                doc_model(*d).features.len() == m0.features.len(),
                forall|i: int| #![auto]
                    0 <= i < m0.features.len() ==> doc_model(*d).features[i].name
                        == m0.features[i].name,
                doc_model(*d).scalar_hosts == m0.scalar_hosts,
                forall|i: int| #![auto]
                    0 <= i < m0.features.len() ==> doc_model(*d).features[i].elems.filter(
                        |e: FeatElem| spec_elem_kept(e, removed@),
                    ) == m0.features[i].elems.filter(|e: FeatElem| spec_elem_kept(e, removed@)),
                forall|i: int|
                    0 <= i < fi ==> spec_row_pruned(
                        #[trigger] doc_model(*d).features[i],
                        removed@,
                    ) && doc_model(*d).features[i].elems == m0.features[i].elems.filter(
                        |e: FeatElem| spec_elem_kept(e, removed@),
                    ),
            decreases doc_model(*d).features[fi as int].elems.len(),
        {
            let elems = feature_elems(d, name);
            let elen = elems.len();
            let mut bad: Option<usize> = None;
            for j in 0..elen
                invariant
                    elen == elems@.len(),
                    bad is None ==> forall|q: int|
                        0 <= q < j ==> (match #[trigger] elems@[q] {
                            Some(s) => !spec_elem_refers(s@, removed@),
                            None => true,
                        }),
                    bad matches Some(b) ==> 0 <= b < elen && (elems@[b as int] matches Some(s)
                        && spec_elem_refers(s@, removed@)),
            {
                match &elems[j] {
                    Some(s) => {
                        if elem_refers(s.as_str(), removed) {
                            bad = Some(j);
                            break;
                        }
                    },
                    None => {},
                }
            }
            match bad {
                Some(b) => {
                    let ghost before = doc_model(*d);
                    proof {
                        assert(elems@.len() == doc_model(*d).features[fi as int].elems.len());
                    }
                    feature_remove_elem(d, name, b);
                    proof {
                        assert forall|i: int|
                            0 <= i < fi implies spec_row_pruned(
                            #[trigger] doc_model(*d).features[i],
                            removed@,
                        ) && doc_model(*d).features[i].elems == m0.features[i].elems.filter(
                            |e: FeatElem| spec_elem_kept(e, removed@),
                        ) by {
                            assert(m0.features[i].name != m0.features[fi as int].name);
                        }
                        assert forall|i: int| #![auto]
                            0 <= i < m0.features.len() implies doc_model(
                            *d,
                        ).features[i].elems.filter(|e: FeatElem| spec_elem_kept(e, removed@))
                            == m0.features[i].elems.filter(
                            |e: FeatElem| spec_elem_kept(e, removed@),
                        ) by {
                            if before.features[i].name == name@ {
                                assert(crate::toml_doc::spec_elem_reads(
                                    before.features[i].elems[b as int],
                                    elems@[b as int],
                                ));
                                assert(!spec_elem_kept(before.features[i].elems[b as int], removed@));
                                lemma_feat_filter_remove(
                                    before.features[i].elems,
                                    |e: FeatElem| spec_elem_kept(e, removed@),
                                    b as int,
                                );
                            }
                        }
                    }
                },
                None => {
                    proof {
                        assert forall|j: int|
                            0 <= j < doc_model(*d).features[fi as int].elems.len() implies (
                        match #[trigger] doc_model(*d).features[fi as int].elems[j] {
                            FeatElem::StrElem(s) => !spec_elem_refers(s, removed@),
                            FeatElem::OtherElem => true,
                        }) by {
                            assert(crate::toml_doc::spec_elem_reads(
                                doc_model(*d).features[fi as int].elems[j],
                                elems@[j],
                            ));
                        }
                        assert(spec_row_pruned(doc_model(*d).features[fi as int], removed@));
                        lemma_feat_filter_all(
                            doc_model(*d).features[fi as int].elems,
                            |e: FeatElem| spec_elem_kept(e, removed@),
                        );
                    }
                    break;
                },
            }
        }
    }
}

/// Cleans one manifest: unused top-level dependencies are removed (or
/// only counted, in check mode) and feature references to removed
/// aliases are pruned.  Returns the new text, the number of flagged
/// dependencies, and the removed aliases.
/// Cleans all three dependency sections of one host table.
#[verifier::rlimit(80)]
#[verifier::loop_isolation(false)]
fn clean_target(
    d: &mut toml_edit::DocumentMut,
    target: Option<&String>,
    files: &Vec<String>,
    check_only: bool,
    count: &mut u32,
    removed: &mut Vec<String>,
) -> (found: bool)
    ensures
        doc_model(*final(d)).targets == doc_model(*old(d)).targets,
        doc_model(*final(d)).features == doc_model(*old(d)).features,
        doc_model(*final(d)).scalars == doc_model(*old(d)).scalars,
        doc_model(*final(d)).scalar_hosts == doc_model(*old(d)).scalar_hosts,
        check_only ==> doc_model(*final(d)).deps == doc_model(*old(d)).deps,
        !check_only ==> doc_model(*final(d)).deps == doc_model(*old(d)).deps.filter(
            |r: DepRow| r.target != spec_target_view(target) || spec_dep_used(files@, r.key),
        ),
        final(removed)@.len() >= old(removed)@.len(),
        forall|i: int|
            0 <= i < old(removed)@.len() ==> final(removed)@[i] == #[trigger] old(removed)@[i],
        found == exists|i: int| #![auto]
            0 <= i < doc_model(*old(d)).deps.len() && doc_model(*old(d)).deps[i].target
                == spec_target_view(target) && !spec_dep_used(
                files@,
                doc_model(*old(d)).deps[i].key,
            ),
        *final(count) >= *old(count),
        (*final(count) > 0) == (*old(count) > 0 || found),
        !check_only ==> forall|i: int| #![auto]
            0 <= i < doc_model(*old(d)).deps.len() && doc_model(*old(d)).deps[i].target
                == spec_target_view(target) && !spec_dep_used(
                files@,
                doc_model(*old(d)).deps[i].key,
            ) ==> spec_name_listed(final(removed)@, doc_model(*old(d)).deps[i].key),
{
    let ghost tv = spec_target_view(target);
    let ghost m0 = doc_model(*d);
    let ghost r0 = removed@;
    let f1 = clean_host(d, target, &DependencySection::Regular, files, check_only, count, removed);
    let ghost m1 = doc_model(*d);
    let ghost r2 = removed@;
    let f2 = clean_host(d, target, &DependencySection::Dev, files, check_only, count, removed);
    let ghost m2 = doc_model(*d);
    let ghost r3 = removed@;
    let f3 = clean_host(d, target, &DependencySection::Build, files, check_only, count, removed);
    proof {
        let reg = DependencySection::Regular;
        let dev = DependencySection::Dev;
        let bld = DependencySection::Build;
        let keep_reg = |r: DepRow|
            !spec_in_host(r, tv, DependencySection::Regular) || spec_dep_used(files@, r.key);
        let keep_dev = |r: DepRow|
            !spec_in_host(r, tv, DependencySection::Dev) || spec_dep_used(files@, r.key);
        let keep_bld = |r: DepRow|
            !spec_in_host(r, tv, DependencySection::Build) || spec_dep_used(files@, r.key);
        // rows the later hosts saw are rows of this host's entry model
        assert forall|i: int|
            0 <= i < m1.deps.len() implies m0.deps.contains(#[trigger] m1.deps[i]) by {
            if check_only {
                assert(m1.deps[i] == m0.deps[i]);
            } else {
                lemma_filter_member(m0.deps, keep_reg, i);
            }
        }
        assert forall|i: int|
            0 <= i < m2.deps.len() implies m0.deps.contains(#[trigger] m2.deps[i]) by {
            if check_only {
                assert(m2.deps[i] == m1.deps[i]);
            } else {
                lemma_filter_member(m1.deps, keep_dev, i);
                let j = choose|j: int| 0 <= j < m1.deps.len() && #[trigger] m1.deps[j] == m2.deps[i];
            }
        }
        assert((f1 || f2 || f3) ==> exists|i: int| #![auto]
            0 <= i < m0.deps.len() && m0.deps[i].target == tv && !spec_dep_used(
                files@,
                m0.deps[i].key,
            )) by {
            if f1 {
            } else if f2 {
                let i = choose|i: int| #![auto]
                    0 <= i < m1.deps.len() && spec_in_host(m1.deps[i], tv, dev)
                        && !spec_dep_used(files@, m1.deps[i].key);
                let j = choose|j: int| 0 <= j < m0.deps.len() && #[trigger] m0.deps[j] == m1.deps[i];
            } else if f3 {
                let i = choose|i: int| #![auto]
                    0 <= i < m2.deps.len() && spec_in_host(m2.deps[i], tv, bld)
                        && !spec_dep_used(files@, m2.deps[i].key);
                let j = choose|j: int| 0 <= j < m0.deps.len() && #[trigger] m0.deps[j] == m2.deps[i];
            }
        }
        assert forall|i: int| #![auto]
            0 <= i < m0.deps.len() && m0.deps[i].target == tv && !spec_dep_used(
                files@,
                m0.deps[i].key,
            ) implies (f1 || f2 || f3) && (!check_only ==> spec_name_listed(
            removed@,
            m0.deps[i].key,
        )) by {
            let row = m0.deps[i];
            if row.section == reg {
                assert(spec_in_host(row, tv, reg));
                assert(f1);
                if !check_only {
                    let k = choose|k: int|
                        0 <= k < r2.len() && (#[trigger] r2[k])@ == row.key;
                    assert(removed@[k] == r2[k]);
                }
            } else if row.section == dev {
                if check_only {
                    assert(m1.deps[i] == m0.deps[i]);
                    assert(f2);
                } else {
                    m0.deps.lemma_filter_contains(keep_reg, i);
                    let i1 = choose|i1: int|
                        0 <= i1 < m1.deps.len() && #[trigger] m1.deps[i1] == row;
                    assert(spec_in_host(m1.deps[i1], tv, dev));
                    assert(f2);
                    let k = choose|k: int|
                        0 <= k < r3.len() && (#[trigger] r3[k])@ == row.key;
                    assert(removed@[k] == r3[k]);
                }
            } else {
                assert(row.section == bld);
                if check_only {
                    assert(m1.deps[i] == m0.deps[i] && m2.deps[i] == m1.deps[i]);
                    assert(f3);
                } else {
                    m0.deps.lemma_filter_contains(keep_reg, i);
                    let i1 = choose|i1: int|
                        0 <= i1 < m1.deps.len() && #[trigger] m1.deps[i1] == row;
                    m1.deps.lemma_filter_contains(keep_dev, i1);
                    let i2 = choose|i2: int|
                        0 <= i2 < m2.deps.len() && #[trigger] m2.deps[i2] == row;
                    assert(spec_in_host(m2.deps[i2], tv, bld));
                    assert(f3);
                    assert(exists|k: int|
                        0 <= k < removed@.len() && (#[trigger] removed@[k])@
                            == m2.deps[i2].key);
                }
            }
        }
        if !check_only {
            let pall = |r: DepRow| r.target != tv || spec_dep_used(files@, r.key);
            let prd = |r: DepRow| (keep_reg(r) && keep_dev(r));
            assert(m1.deps == m0.deps.filter(keep_reg));
            assert(m2.deps == m1.deps.filter(keep_dev));
            assert(doc_model(*d).deps == m2.deps.filter(keep_bld));
            assert forall|i: int| 0 <= i < m0.deps.len() implies #[trigger] prd(m0.deps[i]) == (
            keep_reg(m0.deps[i]) && keep_dev(m0.deps[i])) by {}
            lemma_filter_compose(m0.deps, keep_reg, keep_dev, prd);
            assert(m2.deps == m0.deps.filter(prd));
            assert forall|i: int| 0 <= i < m0.deps.len() implies #[trigger] pall(m0.deps[i]) == (
            prd(m0.deps[i]) && keep_bld(m0.deps[i])) by {
                let r = m0.deps[i];
                if r.target == tv {
                    assert(r.section == reg || r.section == dev || r.section == bld);
                }
            }
            lemma_filter_compose(m0.deps, prd, keep_bld, pall);
        }
    }
    f1 || f2 || f3
}

/// Does the manifest declare a dependency no source file uses?
pub open spec fn spec_has_unused(m: ManifestModel, files: Seq<String>) -> bool {
    exists|i: int|
        0 <= i < m.deps.len() && !spec_dep_used(files, (#[trigger] m.deps[i]).key)
}

pub fn clean_manifest(text: &str, files: &Vec<String>, check_only: bool) -> (r: Result<
    (String, u32, Vec<String>),
    Error,
>)
    ensures
        r is Ok <==> toml_model_of(text@) is Some,
        r matches Ok(p) ==> (toml_model_of(text@) matches Some(m0) && toml_model_of(p.0@)
            matches Some(m1) && {
            let m0 = toml_model_of(text@)->Some_0;
            let m1 = toml_model_of(p.0@)->Some_0;
            &&& m1.targets == m0.targets
            &&& m1.scalars == m0.scalars
            &&& ((p.1 > 0) == spec_has_unused(m0, files@))
            &&& (check_only ==> m1.deps == m0.deps && p.0@ == text@)
            &&& (!check_only ==> m1.deps == m0.deps.filter(
                |row: DepRow| spec_dep_used(files@, row.key),
            ))
            &&& (!check_only ==> forall|i: int| #![auto]
                0 <= i < m0.deps.len() && !spec_dep_used(files@, m0.deps[i].key)
                    ==> spec_name_listed(p.2@, m0.deps[i].key))
            &&& (!check_only ==> forall|i: int|
                0 <= i < m1.features.len() ==> spec_row_pruned(
                    #[trigger] m1.features[i],
                    p.2@,
                ))
            &&& m1.features.len() == m0.features.len()
            &&& (forall|i: int| #![auto]
                0 <= i < m0.features.len() ==> m1.features[i].name == m0.features[i].name)
            &&& (!check_only ==> forall|i: int| #![auto]
                0 <= i < m0.features.len() ==> m1.features[i].elems
                    == m0.features[i].elems.filter(|e: FeatElem| spec_elem_kept(e, p.2@)))
        }),
{
    let mut doc = match parse_manifest(text) {
        Some(d) => d,
        None => {
            return Err(Error::Parse("the manifest text cannot be parsed".to_owned()));
        },
    };
    let ghost m0 = doc_model(doc);
    let mut count: u32 = 0;
    let mut removed: Vec<String> = Vec::new();
    let mut found = clean_target(&mut doc, None, files, check_only, &mut count, &mut removed);
    let targets = target_names(&doc);
    let tlen = targets.len();
    proof {
        if !check_only {
            let p_host = |r: DepRow|
                r.target != spec_target_view(Option::<&String>::None) || spec_dep_used(
                    files@,
                    r.key,
                );
            let p0 = |r: DepRow|
                !((r.target is None || (exists|j: int|
                    0 <= j < 0 && Some((#[trigger] targets@[j])@) == r.target))
                    && !spec_dep_used(files@, r.key));
            assert(doc_model(doc).deps == m0.deps.filter(p_host));
            assert forall|i: int| 0 <= i < m0.deps.len() implies #[trigger] p_host(m0.deps[i])
                == p0(m0.deps[i]) by {}
            lemma_filter_agree(m0.deps, p_host, p0);
        }
    }
    #[verifier::loop_isolation(false)]
    for t in 0..tlen
        invariant
            doc_model(doc).targets == m0.targets,
            doc_model(doc).features == m0.features,
            doc_model(doc).scalars == m0.scalars,
            doc_model(doc).scalar_hosts == m0.scalar_hosts,
            tlen == targets@.len(),
            targets@.len() == m0.targets.len(),
            forall|j: int| 0 <= j < targets@.len() ==> (#[trigger] targets@[j])@ == m0.targets[j],
            check_only ==> doc_model(doc).deps == m0.deps,
            !check_only ==> doc_model(doc).deps == m0.deps.filter(
                |r: DepRow|
                    !((r.target is None || (exists|j: int|
                        0 <= j < t && Some((#[trigger] targets@[j])@) == r.target))
                        && !spec_dep_used(files@, r.key)),
            ),
            found == exists|i: int| #![auto]
                0 <= i < m0.deps.len() && (m0.deps[i].target is None || (exists|j: int|
                    0 <= j < t && Some((#[trigger] targets@[j])@) == m0.deps[i].target))
                    && !spec_dep_used(files@, m0.deps[i].key),
            (count > 0) == found,
            !check_only ==> forall|i: int| #![auto]
                0 <= i < m0.deps.len() && (m0.deps[i].target is None || (exists|j: int|
                    0 <= j < t && Some((#[trigger] targets@[j])@) == m0.deps[i].target))
                    && !spec_dep_used(files@, m0.deps[i].key) ==> spec_name_listed(
                    removed@,
                    m0.deps[i].key,
                ),
    {
        let ghost mc = doc_model(doc);
        let ghost rc = removed@;
        let tname = &targets[t];
        let here = clean_target(&mut doc, Some(tname), files, check_only, &mut count, &mut removed);
        if here {
            found = true;
        }
        proof {
            let tv = Some(tname@);
            let done_t = |r: DepRow|
                !((r.target is None || (exists|j: int|
                    0 <= j < t && Some((#[trigger] targets@[j])@) == r.target))
                    && !spec_dep_used(files@, r.key));
            let keep_t = |r: DepRow| r.target != tv || spec_dep_used(files@, r.key);
            let done_t1 = |r: DepRow|
                !((r.target is None || (exists|j: int|
                    0 <= j < t + 1 && Some((#[trigger] targets@[j])@) == r.target))
                    && !spec_dep_used(files@, r.key));
            // a row of the walked host was still present unchanged
            assert forall|i: int|
                0 <= i < mc.deps.len() implies m0.deps.contains(#[trigger] mc.deps[i]) by {
                if check_only {
                    assert(mc.deps[i] == m0.deps[i]);
                } else {
                    lemma_filter_member(m0.deps, done_t, i);
                }
            }
            if !check_only {
                assert forall|i: int| 0 <= i < m0.deps.len() implies #[trigger] done_t1(
                    m0.deps[i],
                ) == (done_t(m0.deps[i]) && keep_t(m0.deps[i])) by {
                    let r = m0.deps[i];
                    if r.target == tv && !spec_dep_used(files@, r.key) {
                        assert(Some((targets@[t as int])@) == r.target);
                        assert(!done_t1(r) && !keep_t(r));
                    } else {
                        if !done_t1(r) && done_t(r) {
                            let j = choose|j: int|
                                0 <= j < t + 1 && Some((#[trigger] targets@[j])@) == r.target;
                            assert(j == t);
                            assert(r.target == tv);
                        }
                    }
                }
                lemma_filter_compose(m0.deps, done_t, keep_t, done_t1);
            }
            // found and removed accumulate
            assert forall|i: int| #![auto]
                0 <= i < m0.deps.len() && (m0.deps[i].target is None || (exists|j: int|
                    0 <= j < t + 1 && Some((#[trigger] targets@[j])@) == m0.deps[i].target))
                    && !spec_dep_used(files@, m0.deps[i].key) implies (found || here) && (
            !check_only ==> spec_name_listed(removed@, m0.deps[i].key)) by {
                let r = m0.deps[i];
                let in_prior = r.target is None || (exists|j: int|
                    0 <= j < t && Some((#[trigger] targets@[j])@) == r.target);
                if in_prior {
                    if !check_only {
                        let k = choose|k: int|
                            0 <= k < rc.len() && (#[trigger] rc[k])@ == r.key;
                        assert(removed@[k] == rc[k]);
                    }
                } else {
                    let j = choose|j: int|
                        0 <= j < t + 1 && Some((#[trigger] targets@[j])@) == r.target;
                    assert(j == t);
                    assert(r.target == tv);
                    // the row was still present when this host ran
                    if check_only {
                        assert(mc.deps[i] == m0.deps[i]);
                        assert(here);
                    } else {
                        m0.deps.lemma_filter_contains(done_t, i);
                        let ic = choose|ic: int|
                            0 <= ic < mc.deps.len() && #[trigger] mc.deps[ic] == r;
                        assert(mc.deps[ic].target == tv);
                        assert(here);
                        assert(spec_name_listed(removed@, mc.deps[ic].key));
                    }
                }
            }
            // the other direction of the found flag
            if found || here {
                assert(exists|i: int| #![auto]
                    0 <= i < m0.deps.len() && (m0.deps[i].target is None || (exists|j: int|
                        0 <= j < t + 1 && Some((#[trigger] targets@[j])@) == m0.deps[i].target))
                        && !spec_dep_used(files@, m0.deps[i].key)) by {
                    if here {
                        let i = choose|i: int| #![auto]
                            0 <= i < mc.deps.len() && mc.deps[i].target == tv && !spec_dep_used(
                                files@,
                                mc.deps[i].key,
                            );
                        let j0 = choose|j0: int|
                            0 <= j0 < m0.deps.len() && #[trigger] m0.deps[j0] == mc.deps[i];
                        assert(Some((targets@[t as int])@) == m0.deps[j0].target);
                    }
                }
            }
        }
    }
    proof {
        // every row's host was walked
        assert forall|i: int|
            0 <= i < m0.deps.len() implies (m0.deps[i].target is None || (exists|j: int|
            0 <= j < tlen && Some((#[trigger] targets@[j])@) == m0.deps[i].target)) by {
            if m0.deps[i].target is Some {
                let tg = m0.deps[i].target->0;
                assert(spec_row_target_known(m0, m0.deps[i]));
                assert(m0.targets.contains(tg));
                let j = choose|j: int| 0 <= j < m0.targets.len() && m0.targets[j] == tg;
                assert((targets@[j])@ == tg);
            }
        }
        if !check_only {
            let done_all = |r: DepRow|
                !((r.target is None || (exists|j: int|
                    0 <= j < tlen && Some((#[trigger] targets@[j])@) == r.target))
                    && !spec_dep_used(files@, r.key));
            let keep = |row: DepRow| spec_dep_used(files@, row.key);
            assert forall|i: int| 0 <= i < m0.deps.len() implies #[trigger] done_all(
                m0.deps[i],
            ) == keep(m0.deps[i]) by {}
            lemma_filter_agree(m0.deps, done_all, keep);
        }
    }
    if check_only {
        return Ok((text.to_owned(), count, removed));
    }
    prune_features(&mut doc, &removed);
    proof {
        let m0p = toml_model_of(text@)->Some_0;
        assert(m0p == m0);
        assert forall|i: int| #![auto]
            0 <= i < m0p.deps.len() && !spec_dep_used(files@, m0p.deps[i].key) implies
            spec_name_listed(removed@, m0p.deps[i].key) by {
            assert(m0p.deps[i] == m0.deps[i]);
        }
    }
    Ok((manifest_to_string(&doc), count, removed))
}

/// Dead-dependency removal: after a cleaning pass, every remaining
/// dependency entry's alias occurs (hyphens as underscores) as a
/// whole identifier in some source file of the package.
pub proof fn lemma_clean_keeps_only_used(
    before: Seq<DepRow>,
    after: Seq<DepRow>,
    files: Seq<String>,
)
    requires
        after == before.filter(|row: DepRow| spec_dep_used(files, row.key)),
    ensures
        forall|i: int| 0 <= i < after.len() ==> spec_dep_used(files, (#[trigger] after[i]).key),
{
    assert forall|i: int|
        0 <= i < after.len() implies spec_dep_used(files, (#[trigger] after[i]).key) by {
        before.lemma_filter_pred(|row: DepRow| spec_dep_used(files, row.key), i);
    }
}

/// What a cleaning pass leaves of one manifest text.
pub open spec fn spec_cleaned_text(
    t: Seq<char>,
    out: Seq<char>,
    files: Seq<String>,
    check_only: bool,
) -> bool {
    &&& toml_model_of(t) matches Some(m0)
    &&& toml_model_of(out) matches Some(m1)
    &&& {
        let m0 = toml_model_of(t)->Some_0;
        let m1 = toml_model_of(out)->Some_0;
        &&& m1.targets == m0.targets
        &&& m1.scalars == m0.scalars
        &&& (check_only ==> m1.deps == m0.deps && out == t)
        &&& (!check_only ==> m1.deps == m0.deps.filter(
            |row: DepRow| spec_dep_used(files, row.key),
        ))
    }
}

/// Cleans every selected manifest; in check mode nothing is changed,
/// and any unused dependency makes the whole pass fail after all
/// packages were looked at.
#[verifier::loop_isolation(false)]
pub fn clean_up_unused_dependencies(
    texts: &Vec<String>,
    files: &Vec<Vec<String>>,
    selected: &Vec<bool>,
    check_only: bool,
) -> (r: Result<(Vec<String>, u32), Error>)
    requires
        files@.len() == texts@.len(),
        selected@.len() == texts@.len(),
    ensures
        r matches Ok(p) ==> p.0@.len() == texts@.len() && forall|i: int| #![auto]
            0 <= i < texts@.len() ==> (if selected@[i] {
                spec_cleaned_text(texts@[i]@, p.0@[i]@, files@[i]@, check_only)
            } else {
                p.0@[i]@ == texts@[i]@
            }),
        r is Err <==> (exists|i: int| #![auto]
            0 <= i < texts@.len() && selected@[i] && toml_model_of(texts@[i]@) is None) || (
        check_only && exists|i: int|
            #![auto]
            0 <= i < texts@.len() && selected@[i] && toml_model_of(texts@[i]@) is Some
                && spec_has_unused(toml_model_of(texts@[i]@)->Some_0, files@[i]@)),
{
    let n = texts.len();
    let mut outs: Vec<String> = Vec::new();
    let mut total: u32 = 0;
    let mut any_unused = false;
    for i in 0..n
        invariant
            outs@.len() == i,
            forall|j: int| #![auto]
                0 <= j < i ==> (if selected@[j] {
                    spec_cleaned_text(texts@[j]@, outs@[j]@, files@[j]@, check_only)
                } else {
                    outs@[j]@ == texts@[j]@
                }),
            forall|j: int| #![auto]
                0 <= j < i && selected@[j] ==> toml_model_of(texts@[j]@) is Some,
            any_unused == exists|j: int| #![auto]
                0 <= j < i && selected@[j] && toml_model_of(texts@[j]@) is Some
                    && spec_has_unused(toml_model_of(texts@[j]@)->Some_0, files@[j]@),
    {
        if selected[i] {
            match clean_manifest(texts[i].as_str(), &files[i], check_only) {
                Ok((out, count, _removed)) => {
                    if count > 0 {
                        any_unused = true;
                    }
                    outs.push(out);
                    if count <= u32::MAX - total {
                        total = total + count;
                    } else {
                        total = u32::MAX;
                    }
                },
                Err(e) => {
                    return Err(e);
                },
            }
        } else {
            outs.push(texts[i].clone());
        }
    }
    if check_only && any_unused {
        return Err(
            Error::Check(vec!["unused dependencies were found; see the flagged entries".to_owned()]),
        );
    }
    Ok((outs, total))
}

} // verus!
