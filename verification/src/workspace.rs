//! What the library knows about one workspace package: its name, its
//! version and whether its manifest allows publishing.  The list of
//! members-deep packages is composed here from the declared members
//! and the path-linked siblings the resolver found.

use vstd::prelude::*;
use crate::strutil::str_eq;
use crate::version::{Version, VersionView};

verus! {

/// One package of the workspace, as the selection and planning logic
/// sees it.
#[derive(Debug)]
pub struct PkgInfo {
    pub name: String,
    pub version: Version,
    /// False when the manifest restricts publishing (`publish = false`
    /// or a registry list).
    pub publish: bool,
}

pub struct PkgInfoView {
    pub name: Seq<char>,
    pub version: VersionView,
    pub publish: bool,
}

impl View for PkgInfo {
    type V = PkgInfoView;

    open spec fn view(&self) -> PkgInfoView {
        PkgInfoView { name: self.name@, version: self.version@, publish: self.publish }
    }
}

impl Clone for PkgInfo {
    fn clone(&self) -> (r: Self)
        ensures
            r@ == self@,
    {
        PkgInfo { name: self.name.clone(), version: self.version.clone(), publish: self.publish }
    }
}

/// Does one of the packages in the list read as this view?
pub open spec fn spec_from_list(pkgs: Seq<PkgInfo>, p: PkgInfoView) -> bool {
    exists|j: int| 0 <= j < pkgs.len() && (#[trigger] pkgs[j])@ == p
}

/// Is a package of this name in the list?
pub open spec fn spec_has_name(pkgs: Seq<PkgInfo>, name: Seq<char>) -> bool {
    exists|i: int| 0 <= i < pkgs.len() && (#[trigger] pkgs[i])@.name == name
}

fn has_name(pkgs: &Vec<PkgInfo>, name: &str) -> (r: bool)
    ensures
        r == spec_has_name(pkgs@, name@),
{
    let len = pkgs.len();
    for i in 0..len
        invariant
            len == pkgs@.len(),
            forall|j: int| 0 <= j < i ==> (#[trigger] pkgs@[j])@.name != name@,
    {
        if str_eq(pkgs[i].name.as_str(), name) {
            return true;
        }
    }
    false
}

/// All workspace members plus any path-linked sibling that is not
/// itself a member: the members come first, in order; a sibling is
/// appended only when no package of its name is already in the list.
pub fn members_deep(members: Vec<PkgInfo>, path_siblings: Vec<PkgInfo>) -> (r: Vec<PkgInfo>)
    ensures
        r@.len() >= members@.len(),
        forall|i: int| 0 <= i < members@.len() ==> r@[i] == members@[i],
        forall|i: int|
            members@.len() <= i < r@.len() ==> spec_from_list(
                path_siblings@,
                (#[trigger] r@[i])@,
            ),
        forall|j: int|
            0 <= j < path_siblings@.len() ==> spec_has_name(r@, (#[trigger] path_siblings@[j])@.name),
{
    let mut total = members;
    let mut rest = path_siblings;
    let ghost sibs = rest@;
    let ghost mems = total@;
    let mut k: usize = 0;
    #[verifier::loop_isolation(false)]
    while k < rest.len()
        invariant
            k <= rest@.len(),
            rest@ == sibs,
            total@.len() >= mems.len(),
            forall|i: int| 0 <= i < mems.len() ==> total@[i] == mems[i],
            forall|i: int|
                mems.len() <= i < total@.len() ==> spec_from_list(sibs, (#[trigger] total@[i])@),
            forall|j: int| 0 <= j < k ==> spec_has_name(total@, (#[trigger] sibs[j])@.name),
        decreases rest@.len() - k,
    {
        let ghost before = total@;
        let present = has_name(&total, rest[k].name.as_str());
        if !present {
            let one = rest[k].clone();
            total.push(one);
            proof {
                assert(total@[total@.len() - 1]@.name == sibs[k as int]@.name);
                assert((sibs[k as int])@ == total@[total@.len() - 1]@);
            }
        }
        proof {
            assert forall|j: int| 0 <= j < k + 1 implies spec_has_name(
                total@,
                (#[trigger] sibs[j])@.name,
            ) by {
                if j < k {
                    let w = choose|w: int|
                        0 <= w < before.len() && (#[trigger] before[w])@.name == sibs[j]@.name;
                    assert(total@[w] == before[w]);
                    assert((total@[w])@.name == sibs[j]@.name);
                } else {
                    if present {
                        let w = choose|w: int|
                            0 <= w < before.len() && (#[trigger] before[w])@.name
                                == sibs[k as int]@.name;
                        assert(total@[w] == before[w]);
                        assert((total@[w])@.name == sibs[j]@.name);
                    } else {
                        assert((total@[total@.len() - 1])@.name == sibs[j]@.name);
                    }
                }
            }
        }
        k = k + 1;
    }
    total
}

} // verus!
