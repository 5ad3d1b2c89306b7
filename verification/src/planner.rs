//! The release planner: a directed graph over the packages that are
//! selected and not already published, an edge for every dependency
//! between them, strongly connected components for cycle diagnosis,
//! and a reverse topological publish order (dependencies first).

use vstd::prelude::*;
use crate::errors::Error;
use crate::strutil::{push_str, str_eq};
use crate::version::spec_dec;
use crate::workspace::PkgInfo;

verus! {

#[verifier::external_type_specification]
#[verifier::external_body]
#[verifier::reject_recursive_types(N)]
#[verifier::reject_recursive_types(E)]
#[verifier::reject_recursive_types(Ty)]
#[verifier::reject_recursive_types(Ix)]
pub struct ExGraph<N, E, Ty, Ix>(petgraph::graph::Graph<N, E, Ty, Ix>);

#[verifier::external_type_specification]
#[verifier::external_body]
pub struct ExDirected(petgraph::Directed);

/// How many nodes the graph holds.
pub uninterp spec fn graph_node_count(g: petgraph::graph::Graph<(), (), petgraph::Directed, u32>)
    -> int;

/// The edges of the graph, as pairs of node indices, in insertion
/// order.
pub uninterp spec fn graph_edges(g: petgraph::graph::Graph<(), (), petgraph::Directed, u32>)
    -> Seq<(int, int)>;

/// Relies on petgraph::graph::Graph::new: an empty directed graph.
#[verifier::external_body]
fn graph_new() -> (g: petgraph::graph::Graph<(), (), petgraph::Directed, u32>)
    ensures
        graph_node_count(g) == 0,
        graph_edges(g) == Seq::<(int, int)>::empty(),
{
    petgraph::graph::Graph::new()
}

/// Relies on petgraph::graph::Graph::add_node: node indices are handed
/// out consecutively while no node is removed.
#[verifier::external_body]
fn graph_add_node(g: &mut petgraph::graph::Graph<(), (), petgraph::Directed, u32>) -> (idx: usize)
    requires
        graph_node_count(*old(g)) < u32::MAX as int,
    ensures
        graph_node_count(*final(g)) == graph_node_count(*old(g)) + 1,
        graph_edges(*final(g)) == graph_edges(*old(g)),
        idx as int == graph_node_count(*old(g)),
{
    g.add_node(()).index()
}

/// Relies on petgraph::graph::Graph::add_edge: appends one directed
/// edge between existing nodes.  The bound on the edge count excludes
/// the panic on exhausted edge indices.
#[verifier::external_body]
fn graph_add_edge(
    g: &mut petgraph::graph::Graph<(), (), petgraph::Directed, u32>,
    a: usize,
    b: usize,
)
    requires
        (a as int) < graph_node_count(*old(g)),
        (b as int) < graph_node_count(*old(g)),
        graph_edges(*old(g)).len() < u32::MAX as int,
    ensures
        graph_node_count(*final(g)) == graph_node_count(*old(g)),
        graph_edges(*final(g)) == graph_edges(*old(g)).push((a as int, b as int)),
{
    g.add_edge(
        petgraph::graph::NodeIndex::new(a),
        petgraph::graph::NodeIndex::new(b),
        (),
    );
}

/// Is the node listed in the order?
pub open spec fn spec_in_order(order: Seq<usize>, n: int) -> bool {
    exists|a: int| 0 <= a < order.len() && #[trigger] order[a] as int == n
}

/// Is the node among the components?
pub open spec fn spec_in_comps(comps: Seq<Vec<usize>>, n: int) -> bool {
    exists|c: int, j: int|
        #![auto]
        0 <= c < comps.len() && 0 <= j < comps[c]@.len() && comps[c]@[j] as int == n
}

/// A walk along graph edges, as a sequence of node indices.
pub open spec fn spec_edge_walk(edges: Seq<(int, int)>, p: Seq<int>) -> bool {
    p.len() >= 1 && forall|k: int|
        0 <= k < p.len() - 1 ==> #[trigger] edges.contains((p[k], p[k + 1]))
}

/// Is there a walk along the edges from `u` to `v`?
pub open spec fn spec_connected(edges: Seq<(int, int)>, u: int, v: int) -> bool {
    exists|p: Seq<int>|
        #[trigger] spec_edge_walk(edges, p) && p.first() == u && p.last() == v
}

/// Relies on petgraph::algo::kosaraju_scc: the result is a partition
/// of the node indices into strongly connected components, listed in
/// reverse topological order - for every edge the target's component
/// comes no later than the source's, and within one component every
/// node reaches every other along the edges.
#[verifier::external_body]
fn graph_scc(g: &petgraph::graph::Graph<(), (), petgraph::Directed, u32>) -> (r: Vec<Vec<usize>>)
    ensures
        forall|c: int, j: int| #![auto]
            0 <= c < r@.len() && 0 <= j < r@[c]@.len() ==> (r@[c]@[j] as int)
                < graph_node_count(*g),
        forall|n: int| 0 <= n < graph_node_count(*g) ==> #[trigger] spec_in_comps(r@, n),
        forall|c: int| 0 <= c < r@.len() ==> (#[trigger] r@[c])@.len() >= 1,
        forall|c1: int, j1: int, c2: int, j2: int| #![auto]
            0 <= c1 < r@.len() && 0 <= j1 < r@[c1]@.len() && 0 <= c2 < r@.len() && 0 <= j2
                < r@[c2]@.len() && r@[c1]@[j1] == r@[c2]@[j2] ==> c1 == c2 && j1 == j2,
        forall|e: int, c1: int, j1: int, c2: int, j2: int| #![auto]
            0 <= e < graph_edges(*g).len() && 0 <= c1 < r@.len() && 0 <= j1 < r@[c1]@.len() && 0
                <= c2 < r@.len() && 0 <= j2 < r@[c2]@.len() && r@[c1]@[j1] as int == graph_edges(
                *g,
            )[e].0 && r@[c2]@[j2] as int == graph_edges(*g)[e].1 ==> c2 <= c1,
        forall|c: int, j1: int, j2: int| #![auto]
            0 <= c < r@.len() && 0 <= j1 < r@[c]@.len() && 0 <= j2 < r@[c]@.len() && j1 != j2
                ==> spec_connected(graph_edges(*g), r@[c]@[j1] as int, r@[c]@[j2] as int),
{
    petgraph::algo::kosaraju_scc(g)
        .into_iter()
        .map(|comp| comp.into_iter().map(|i| i.index()).collect())
        .collect()
}

/// The first package of this name, if any: dependency entries resolve
/// against the member list front to back.
pub open spec fn spec_name_index(pkgs: Seq<PkgInfo>, name: Seq<char>) -> Option<int>
    decreases pkgs.len(),
{
    if pkgs.len() == 0 {
        None
    } else if pkgs[0]@.name == name {
        Some(0int)
    } else {
        match spec_name_index(pkgs.drop_first(), name) {
            Some(i) => Some(i + 1),
            None => None,
        }
    }
}

#[verifier::loop_isolation(false)]
fn name_index(pkgs: &Vec<PkgInfo>, name: &str) -> (r: Option<usize>)
    ensures
        match r {
            Some(i) => spec_name_index(pkgs@, name@) == Some(i as int) && i < pkgs@.len(),
            None => spec_name_index(pkgs@, name@) is None,
        },
{
    let len = pkgs.len();
    for i in 0..len
        invariant
            forall|j: int| 0 <= j < i ==> (#[trigger] pkgs@[j])@.name != name@,
    {
        if str_eq(pkgs[i].name.as_str(), name) {
            proof {
                lemma_name_index_found(pkgs@, name@, i as int);
            }
            return Some(i);
        }
    }
    proof {
        lemma_name_index_missing(pkgs@, name@);
    }
    None
}

proof fn lemma_name_index_found(pkgs: Seq<PkgInfo>, name: Seq<char>, i: int)
    requires
        0 <= i < pkgs.len(),
        pkgs[i]@.name == name,
        forall|j: int| 0 <= j < i ==> (#[trigger] pkgs[j])@.name != name,
    ensures
        spec_name_index(pkgs, name) == Some(i),
    decreases i,
{
    if i == 0 {
    } else {
        assert forall|j: int| 0 <= j < i - 1 implies (#[trigger] pkgs.drop_first()[j])@.name
            != name by {
            assert(pkgs.drop_first()[j] == pkgs[j + 1]);
        }
        assert(pkgs.drop_first()[i - 1] == pkgs[i]);
        lemma_name_index_found(pkgs.drop_first(), name, i - 1);
    }
}

proof fn lemma_name_index_missing(pkgs: Seq<PkgInfo>, name: Seq<char>)
    requires
        forall|j: int| 0 <= j < pkgs.len() ==> (#[trigger] pkgs[j])@.name != name,
    ensures
        spec_name_index(pkgs, name) is None,
    decreases pkgs.len(),
{
    if pkgs.len() > 0 {
        assert forall|j: int| 0 <= j < pkgs.drop_first().len() implies (#[trigger]
        pkgs.drop_first()[j])@.name != name by {
            assert(pkgs.drop_first()[j] == pkgs[j + 1]);
        }
        lemma_name_index_missing(pkgs.drop_first(), name);
    }
}

/// Does package `i` depend on package `j`: some declared dependency
/// name of `i` resolves (first match) to `j`.
pub open spec fn spec_depends(
    pkgs: Seq<PkgInfo>,
    deps: Seq<Vec<String>>,
    i: int,
    j: int,
) -> bool {
    exists|d: int|
        0 <= d < deps[i]@.len() && spec_name_index(pkgs, (#[trigger] deps[i]@[d])@) == Some(j)
}

/// A package belongs to the plan exactly when it is selected and not
/// already published at its version.
pub open spec fn spec_planned(selected: Seq<bool>, published: Seq<bool>, i: int) -> bool {
    selected[i] && !published[i]
}

/// Does the plan list the package at this index?
pub open spec fn spec_in_plan(plan: Seq<usize>, i: int) -> bool {
    exists|a: int| 0 <= a < plan.len() && #[trigger] plan[a] as int == i
}

/// Builds one graph node per selected, not-yet-published package.
#[verifier::rlimit(60)]
#[verifier::loop_isolation(false)]
fn plan_nodes(
    graph: &mut petgraph::graph::Graph<(), (), petgraph::Directed, u32>,
    pkgs: &Vec<PkgInfo>,
    selected: &Vec<bool>,
    published: &Vec<bool>,
    planned: &mut Vec<usize>,
    node_of: &mut Vec<Option<usize>>,
) -> (r: Result<(), Error>)
    requires
        selected@.len() == pkgs@.len(),
        published@.len() == pkgs@.len(),
        graph_node_count(*old(graph)) == 0,
        graph_edges(*old(graph)) == Seq::<(int, int)>::empty(),
        old(planned)@.len() == 0,
        old(node_of)@.len() == 0,
    ensures
        r matches Err(e) ==> e matches Error::Configuration(_) && pkgs@.len() >= u32::MAX as int,
        r is Ok ==> ({
            &&& final(node_of)@.len() == pkgs@.len()
            &&& final(planned)@.len() == graph_node_count(*final(graph))
            &&& graph_edges(*final(graph)) == Seq::<(int, int)>::empty()
            &&& forall|k: int|
                0 <= k < final(planned)@.len() ==> 0 <= #[trigger] final(planned)@[k]
                    < pkgs@.len() && spec_planned(
                    selected@,
                    published@,
                    final(planned)@[k] as int,
                )
            &&& forall|k1: int, k2: int|
                0 <= k1 < k2 < final(planned)@.len() ==> final(planned)@[k1] != final(planned)@[k2]
            &&& forall|j: int|
                0 <= j < pkgs@.len() ==> (match #[trigger] final(node_of)@[j] {
                    Some(k) => 0 <= k < final(planned)@.len() && final(planned)@[k as int] == j
                        && spec_planned(selected@, published@, j),
                    None => !spec_planned(selected@, published@, j),
                })
        }),
{
    let n = pkgs.len();
    for i in 0..n
        invariant
            node_of@.len() == i,
            planned@.len() == graph_node_count(*graph),
            graph_edges(*graph) == Seq::<(int, int)>::empty(),
            planned@.len() <= i,
            forall|k: int|
                0 <= k < planned@.len() ==> 0 <= #[trigger] planned@[k] < i && spec_planned(
                    selected@,
                    published@,
                    planned@[k] as int,
                ),
            forall|k1: int, k2: int|
                0 <= k1 < k2 < planned@.len() ==> planned@[k1] != planned@[k2],
            forall|j: int|
                0 <= j < i ==> (match #[trigger] node_of@[j] {
                    Some(k) => 0 <= k < planned@.len() && planned@[k as int] == j && spec_planned(
                        selected@,
                        published@,
                        j,
                    ),
                    None => !spec_planned(selected@, published@, j),
                }),
    {
        if selected[i] && !published[i] {
            if planned.len() >= u32::MAX as usize {
                return Err(
                    Error::Configuration("too many packages for the release graph".to_owned()),
                );
            }
            let k = graph_add_node(graph);
            planned.push(i);
            node_of.push(Some(k));
        } else {
            node_of.push(None);
        }
    }
    Ok(())
}

/// Is this the name of a selected, not-yet-published package?
pub open spec fn spec_planned_name(
    pkgs: Seq<PkgInfo>,
    selected: Seq<bool>,
    published: Seq<bool>,
    name: Seq<char>,
) -> bool {
    exists|i: int|
        0 <= i < pkgs.len() && spec_planned(selected, published, i) && (#[trigger] pkgs[i])@.name
            == name
}

/// The total number of declared dependency names.
pub open spec fn spec_total_deps(deps: Seq<Vec<String>>) -> int
    decreases deps.len(),
{
    if deps.len() == 0 {
        0
    } else {
        spec_total_deps(deps.drop_last()) + deps.last()@.len()
    }
}

proof fn lemma_total_deps_nonneg(deps: Seq<Vec<String>>)
    ensures
        spec_total_deps(deps) >= 0,
    decreases deps.len(),
{
    if deps.len() > 0 {
        lemma_total_deps_nonneg(deps.drop_last());
    }
}

proof fn lemma_total_deps_prefix(deps: Seq<Vec<String>>, i: int)
    requires
        0 <= i < deps.len(),
    ensures
        spec_total_deps(deps.subrange(0, i + 1)) == spec_total_deps(deps.subrange(0, i))
            + deps[i]@.len(),
        spec_total_deps(deps.subrange(0, i + 1)) <= spec_total_deps(deps),
    decreases deps.len() - i,
{
    assert(deps.subrange(0, i + 1).drop_last() =~= deps.subrange(0, i));
    assert(deps.subrange(0, i + 1).last() == deps[i]);
    if i + 1 == deps.len() {
        assert(deps.subrange(0, i + 1) =~= deps);
    } else {
        lemma_total_deps_prefix(deps, i + 1);
        lemma_total_deps_nonneg(Seq::<Vec<String>>::empty());
        assert(deps.subrange(0, i + 2).drop_last() =~= deps.subrange(0, i + 1));
    }
}

/// A closed dependency walk through the planned packages that visits
/// at least two of them: the witness of a dependency cycle.
pub open spec fn spec_dep_walk(
    pkgs: Seq<PkgInfo>,
    deps: Seq<Vec<String>>,
    selected: Seq<bool>,
    published: Seq<bool>,
    w: Seq<int>,
) -> bool {
    &&& w.len() >= 2
    &&& w.first() == w.last()
    &&& forall|k: int|
        0 <= k < w.len() ==> 0 <= #[trigger] w[k] < pkgs.len() && spec_planned(
            selected,
            published,
            w[k],
        )
    &&& forall|k: int| 0 <= k < w.len() - 1 ==> spec_depends(pkgs, deps, #[trigger] w[k], w[k + 1])
    &&& exists|k: int| 0 <= k < w.len() && #[trigger] w[k] != w.first()
}

/// Do the selected, not-yet-published packages depend on each other in
/// a circle?
pub open spec fn spec_dep_cycle(
    pkgs: Seq<PkgInfo>,
    deps: Seq<Vec<String>>,
    selected: Seq<bool>,
    published: Seq<bool>,
) -> bool {
    exists|w: Seq<int>| #[trigger] spec_dep_walk(pkgs, deps, selected, published, w)
}

/// Adds one edge for every dependency between two planned packages;
/// fails only when the graph's edge indices would run out.
#[verifier::rlimit(100)]
#[verifier::loop_isolation(false)]
fn plan_edges(
    graph: &mut petgraph::graph::Graph<(), (), petgraph::Directed, u32>,
    pkgs: &Vec<PkgInfo>,
    deps: &Vec<Vec<String>>,
    planned: &Vec<usize>,
    node_of: &Vec<Option<usize>>,
    edge_list: &mut Vec<(usize, usize)>,
) -> (r: Result<(), Error>)
    requires
        deps@.len() == pkgs@.len(),
        node_of@.len() == pkgs@.len(),
        graph_node_count(*old(graph)) == planned@.len(),
        graph_edges(*old(graph)) == Seq::<(int, int)>::empty(),
        old(edge_list)@.len() == 0,
        forall|k: int| 0 <= k < planned@.len() ==> 0 <= #[trigger] planned@[k] < pkgs@.len(),
        forall|j: int|
            0 <= j < pkgs@.len() ==> (match #[trigger] node_of@[j] {
                Some(k) => 0 <= k < planned@.len() && planned@[k as int] == j,
                None => true,
            }),
    ensures
        graph_node_count(*final(graph)) == planned@.len(),
        forall|e: int|
            0 <= e < graph_edges(*final(graph)).len() ==> ({
                let ed = #[trigger] graph_edges(*final(graph))[e];
                &&& 0 <= ed.0 < planned@.len()
                &&& 0 <= ed.1 < planned@.len()
                &&& spec_depends(pkgs@, deps@, planned@[ed.0] as int, planned@[ed.1] as int)
            }),
        r is Ok ==> forall|i: int, d: int|
            0 <= i < pkgs@.len() && 0 <= d < deps@[i]@.len() && (#[trigger] node_of@[i]) is Some
                ==> (match spec_name_index(pkgs@, (#[trigger] deps@[i]@[d])@) {
                Some(j) => (node_of@[j] matches Some(k2) ==> graph_edges(
                    *final(graph),
                ).contains((node_of@[i]->0 as int, k2 as int))),
                None => true,
            }),
        r matches Err(e) ==> e matches Error::Configuration(_) && spec_total_deps(deps@)
            >= u32::MAX as int,
        final(edge_list)@.len() == graph_edges(*final(graph)).len(),
        forall|e: int| #![auto]
            0 <= e < final(edge_list)@.len() ==> (final(edge_list)@[e].0 as int,
            final(edge_list)@[e].1 as int) == graph_edges(*final(graph))[e],
{
    let n = pkgs.len();
    let mut ec: usize = 0;
    proof {
        assert(deps@.subrange(0, 0) =~= Seq::<Vec<String>>::empty());
    }
    for i in 0..n
        invariant
            graph_node_count(*graph) == planned@.len(),
            ec as int == graph_edges(*graph).len(),
            edge_list@.len() == graph_edges(*graph).len(),
            forall|e: int| #![auto]
                0 <= e < edge_list@.len() ==> (edge_list@[e].0 as int, edge_list@[e].1 as int)
                    == graph_edges(*graph)[e],
            graph_edges(*graph).len() <= spec_total_deps(deps@.subrange(0, i as int)),
            forall|e: int|
                0 <= e < graph_edges(*graph).len() ==> ({
                    let ed = #[trigger] graph_edges(*graph)[e];
                    &&& 0 <= ed.0 < planned@.len()
                    &&& 0 <= ed.1 < planned@.len()
                    &&& spec_depends(pkgs@, deps@, planned@[ed.0] as int, planned@[ed.1] as int)
                }),
            forall|i1: int, d: int|
                0 <= i1 < i && 0 <= d < deps@[i1]@.len() && (#[trigger] node_of@[i1]) is Some
                    ==> (match spec_name_index(pkgs@, (#[trigger] deps@[i1]@[d])@) {
                    Some(j) => (node_of@[j] matches Some(k2) ==> graph_edges(*graph).contains(
                        (node_of@[i1]->0 as int, k2 as int),
                    )),
                    None => true,
                }),
    {
        let here = node_of[i];
        if let Some(k1) = here {
        let dlen = deps[i].len();
        for d in 0..dlen
            invariant
                0 <= i < n,
                node_of@[i as int] == Some(k1),
                (k1 as int) < planned@.len(),
                dlen == deps@[i as int]@.len(),
                graph_node_count(*graph) == planned@.len(),
                ec as int == graph_edges(*graph).len(),
                edge_list@.len() == graph_edges(*graph).len(),
                forall|e: int| #![auto]
                    0 <= e < edge_list@.len() ==> (edge_list@[e].0 as int, edge_list@[e].1 as int)
                        == graph_edges(*graph)[e],
                graph_edges(*graph).len() <= spec_total_deps(deps@.subrange(0, i as int)) + d,
                forall|e: int|
                    0 <= e < graph_edges(*graph).len() ==> ({
                        let ed = #[trigger] graph_edges(*graph)[e];
                        &&& 0 <= ed.0 < planned@.len()
                        &&& 0 <= ed.1 < planned@.len()
                        &&& spec_depends(
                            pkgs@,
                            deps@,
                            planned@[ed.0] as int,
                            planned@[ed.1] as int,
                        )
                    }),
                forall|i1: int, dd: int|
                    0 <= i1 < i && 0 <= dd < deps@[i1]@.len() && (#[trigger] node_of@[i1]) is Some
                        ==> (match spec_name_index(pkgs@, (#[trigger] deps@[i1]@[dd])@) {
                        Some(j) => (node_of@[j] matches Some(k2) ==> graph_edges(
                            *graph,
                        ).contains((node_of@[i1]->0 as int, k2 as int))),
                        None => true,
                    }),
                forall|dd: int|
                    0 <= dd < d ==> (match spec_name_index(
                        pkgs@,
                        (#[trigger] deps@[i as int]@[dd])@,
                    ) {
                        Some(j) => (node_of@[j] matches Some(k2) ==> graph_edges(*graph).contains(
                            (k1 as int, k2 as int),
                        )),
                        None => true,
                    }),
        {
            let dep_name = &deps[i][d];
            match name_index(pkgs, dep_name.as_str()) {
                Some(j) => {
                    match node_of[j] {
                        Some(k2) => {
                            if ec >= (u32::MAX - 1) as usize {
                                proof {
                                    lemma_total_deps_prefix(deps@, i as int);
                                }
                                return Err(
                                    Error::Configuration(
                                        "too many dependencies for the release graph".to_owned(),
                                    ),
                                );
                            }
                            let ghost edges0 = graph_edges(*graph);
                            graph_add_edge(graph, k1, k2);
                            edge_list.push((k1, k2));
                            ec = ec + 1;
                            proof {
                                assert(graph_edges(*graph) == edges0.push((k1 as int, k2 as int)));
                                assert(graph_edges(*graph)[edges0.len() as int] == (
                                k1 as int,
                                k2 as int,
                                ));
                                assert(graph_edges(*graph).contains((k1 as int, k2 as int)));
                                assert forall|e: int|
                                    0 <= e < edges0.len() implies graph_edges(*graph)[e]
                                    == edges0[e] by {}
                            }
                        },
                        None => {},
                    }
                },
                None => {},
            }
        }
        }
        proof {
            lemma_total_deps_prefix(deps@, i as int);
            lemma_total_deps_nonneg(deps@.subrange(0, i as int));
        }
    }
    proof {
        assert(deps@.subrange(0, n as int) =~= deps@);
    }
    Ok(())
}

/// Reads the strongly connected components into a publish order; any
/// component of two or more packages is a cycle, and the plan fails
/// naming each one.
#[verifier::rlimit(60)]
#[verifier::loop_isolation(false)]
fn plan_order(
    comps: &Vec<Vec<usize>>,
    planned: &Vec<usize>,
    pkgs: &Vec<PkgInfo>,
    selected: &Vec<bool>,
    published: &Vec<bool>,
    m: usize,
) -> (r: Result<Vec<usize>, Error>)
    requires
        planned@.len() == m,
        selected@.len() == pkgs@.len(),
        published@.len() == pkgs@.len(),
        forall|k: int|
            0 <= k < planned@.len() ==> 0 <= #[trigger] planned@[k] < pkgs@.len() && spec_planned(
                selected@,
                published@,
                planned@[k] as int,
            ),
        forall|c: int, j: int| #![auto]
            0 <= c < comps@.len() && 0 <= j < comps@[c]@.len() ==> (comps@[c]@[j] as int)
                < m as int,
        forall|c: int| 0 <= c < comps@.len() ==> (#[trigger] comps@[c])@.len() >= 1,
    ensures
        r matches Ok(order) ==> ({
            &&& order@.len() == comps@.len()
            &&& forall|a: int|
                0 <= a < order@.len() ==> #[trigger] order@[a] == comps@[a]@[0] && 0 <= order@[a]
                    < m as int
            &&& forall|c: int| 0 <= c < comps@.len() ==> (#[trigger] comps@[c])@.len() == 1
        }),
        r matches Err(e) ==> ({
            &&& e matches Error::Plan(cycles)
            &&& e->Plan_0@.len() > 0
            &&& forall|ci: int|
                0 <= ci < e->Plan_0@.len() ==> (#[trigger] e->Plan_0@[ci])@.len() >= 2
            &&& forall|ci: int, j: int| #![auto]
                0 <= ci < e->Plan_0@.len() && 0 <= j < e->Plan_0@[ci]@.len()
                    ==> spec_planned_name(pkgs@, selected@, published@, e->Plan_0@[ci]@[j]@)
            &&& exists|c: int| 0 <= c < comps@.len() && (#[trigger] comps@[c])@.len() >= 2
        }),
{
    let clen = comps.len();
    let mut order: Vec<usize> = Vec::new();
    let mut cycles: Vec<Vec<String>> = Vec::new();
    for c in 0..clen
        invariant
            clen == comps@.len(),
            planned@.len() == m,
            cycles@.len() == 0 ==> order@.len() == c && (forall|a: int|
                0 <= a < order@.len() ==> #[trigger] order@[a] == comps@[a]@[0] && 0 <= order@[a]
                    < m as int) && (forall|c2: int|
                0 <= c2 < c ==> (#[trigger] comps@[c2])@.len() == 1),
            cycles@.len() > 0 ==> exists|c2: int|
                0 <= c2 < c && (#[trigger] comps@[c2])@.len() >= 2,
            forall|ci: int| 0 <= ci < cycles@.len() ==> (#[trigger] cycles@[ci])@.len() >= 2,
            forall|ci: int, j: int| #![auto]
                0 <= ci < cycles@.len() && 0 <= j < cycles@[ci]@.len() ==> spec_planned_name(
                    pkgs@,
                    selected@,
                    published@,
                    cycles@[ci]@[j]@,
                ),
    {
        let comp = &comps[c];
        if comp.len() == 1 {
            order.push(comp[0]);
        } else {
            let mut names: Vec<String> = Vec::new();
            let wlen = comp.len();
            for w in 0..wlen
                invariant
                    wlen == comp@.len(),
                    wlen >= 2,
                    0 <= c < comps@.len(),
                    names@.len() == w,
                    forall|j: int| #![auto]
                        0 <= j < names@.len() ==> spec_planned_name(
                            pkgs@,
                            selected@,
                            published@,
                            names@[j]@,
                        ),
            {
                let node = comp[w];
                let pkg_idx = planned[node];
                names.push(pkgs[pkg_idx].name.clone());
                proof {
                    assert(names@[names@.len() - 1]@ == pkgs@[pkg_idx as int]@.name);
                }
            }
            cycles.push(names);
        }
    }
    if cycles.len() > 0 {
        return Err(Error::Plan(cycles));
    }
    Ok(order)
}

/// Computes the packages to release and the order to release them in:
/// the indices of the selected, not-yet-published packages, dependencies
/// first.  When the dependency graph between them has a cycle, the
/// plan fails and names every package of every cycle.
#[verifier::rlimit(100)]
#[verifier::loop_isolation(false)]
pub fn packages_to_release(
    pkgs: &Vec<PkgInfo>,
    selected: &Vec<bool>,
    published: &Vec<bool>,
    deps: &Vec<Vec<String>>,
) -> (r: Result<Vec<usize>, Error>)
    requires
        selected@.len() == pkgs@.len(),
        published@.len() == pkgs@.len(),
        deps@.len() == pkgs@.len(),
    ensures
        r matches Ok(plan) ==> forall|a: int, b: int|
            0 <= a < b < plan@.len() ==> plan@[a] != plan@[b],
        r matches Ok(plan) ==> forall|a: int|
            0 <= a < plan@.len() ==> 0 <= #[trigger] plan@[a] < pkgs@.len(),
        r matches Ok(plan) ==> forall|i: int|
            0 <= i < pkgs@.len() ==> (spec_planned(selected@, published@, i) <==> #[trigger]
            spec_in_plan(plan@, i)),
        r matches Ok(plan) ==> forall|a: int, b: int|
            0 <= a < plan@.len() && 0 <= b < plan@.len() && a != b && spec_depends(
                pkgs@,
                deps@,
                plan@[a] as int,
                plan@[b] as int,
            ) ==> b < a,
        r is Ok ==> !spec_dep_cycle(pkgs@, deps@, selected@, published@),
        r matches Err(e) ==> match e {
            Error::Plan(cycles) => cycles@.len() > 0 && spec_dep_cycle(
                pkgs@,
                deps@,
                selected@,
                published@,
            ) && (forall|ci: int|
                0 <= ci < cycles@.len() ==> (#[trigger] cycles@[ci])@.len() >= 2) && (forall|
                ci: int,
                j: int,
            |
                #![auto]
                0 <= ci < cycles@.len() && 0 <= j < cycles@[ci]@.len() ==> spec_planned_name(
                    pkgs@,
                    selected@,
                    published@,
                    cycles@[ci]@[j]@,
                )),
            Error::Configuration(_) => pkgs@.len() + spec_total_deps(deps@) >= u32::MAX as int,
            _ => false,
        },
{
    let n = pkgs.len();
    let mut graph = graph_new();
    // planned[k] is the package at graph node k
    let mut planned: Vec<usize> = Vec::new();
    // node_of[i] is the graph node of package i, when it has one
    let mut node_of: Vec<Option<usize>> = Vec::new();
    let res = plan_nodes(&mut graph, pkgs, selected, published, &mut planned, &mut node_of);
    if res.is_err() {
        proof {
            lemma_total_deps_nonneg(deps@);
        }
        return Err(res.unwrap_err());
    }
    let mut edge_list: Vec<(usize, usize)> = Vec::new();
    let res = plan_edges(&mut graph, pkgs, deps, &planned, &node_of, &mut edge_list);
    if res.is_err() {
        return Err(res.unwrap_err());
    }
    let m = planned.len();
    let comps = graph_scc(&graph);
    let order = match plan_order(&comps, &planned, pkgs, selected, published, m) {
        Ok(o) => o,
        Err(e) => {
            proof {
                let c = choose|c: int|
                    0 <= c < comps@.len() && (#[trigger] comps@[c])@.len() >= 2;
                let u = comps@[c]@[0] as int;
                let v = comps@[c]@[1] as int;
                assert(spec_connected(graph_edges(graph), u, v));
                assert(spec_connected(graph_edges(graph), v, u));
                lemma_cycle_from_component(
                    pkgs@,
                    deps@,
                    selected@,
                    published@,
                    planned@,
                    graph_edges(graph),
                    u,
                    v,
                );
            }
            return Err(e);
        },
    };
    let olen = order.len();
    let mut plan: Vec<usize> = Vec::new();
    for a in 0..olen
        invariant
            olen == order@.len(),
            plan@.len() == a,
            forall|q: int| 0 <= q < a ==> plan@[q] == planned@[#[trigger] order@[q] as int],
            forall|q: int| 0 <= q < order@.len() ==> 0 <= #[trigger] order@[q] < m as int,
    {
        plan.push(planned[order[a]]);
    }
    proof {
        lemma_plan_correct(
            pkgs@,
            selected@,
            published@,
            deps@,
            planned@,
            node_of@,
            graph_edges(graph),
            comps@,
            order@,
            plan@,
        );
        lemma_plan_acyclic(pkgs@, deps@, selected@, published@, plan@);
    }
    Ok(plan)
}

/// Packs the facts gathered while building the graph into the public
/// contract of the plan: the order lists every node once, so the plan
/// holds exactly the selected unpublished packages; and the components
/// stand in reverse topological order, so dependencies come first.
#[verifier::rlimit(100)]
proof fn lemma_plan_correct(
    pkgs: Seq<PkgInfo>,
    selected: Seq<bool>,
    published: Seq<bool>,
    deps: Seq<Vec<String>>,
    planned: Seq<usize>,
    node_of: Seq<Option<usize>>,
    edges: Seq<(int, int)>,
    comps: Seq<Vec<usize>>,
    order: Seq<usize>,
    plan: Seq<usize>,
)
    requires
        selected.len() == pkgs.len(),
        published.len() == pkgs.len(),
        deps.len() == pkgs.len(),
        node_of.len() == pkgs.len(),
        forall|k: int|
            0 <= k < planned.len() ==> 0 <= #[trigger] planned[k] < pkgs.len() && spec_planned(
                selected,
                published,
                planned[k] as int,
            ),
        forall|k1: int, k2: int| 0 <= k1 < k2 < planned.len() ==> planned[k1] != planned[k2],
        forall|j: int|
            0 <= j < pkgs.len() ==> (match #[trigger] node_of[j] {
                Some(k) => 0 <= k < planned.len() && planned[k as int] == j && spec_planned(
                    selected,
                    published,
                    j,
                ),
                None => !spec_planned(selected, published, j),
            }),
        forall|i: int, d: int|
            0 <= i < pkgs.len() && 0 <= d < deps[i]@.len() && (#[trigger] node_of[i]) is Some
                ==> (match spec_name_index(pkgs, (#[trigger] deps[i]@[d])@) {
                Some(j) => (node_of[j] matches Some(k2) ==> edges.contains(
                    (node_of[i]->0 as int, k2 as int),
                )),
                None => true,
            }),
        forall|n: int| 0 <= n < planned.len() ==> #[trigger] spec_in_comps(comps, n),
        forall|c1: int, j1: int, c2: int, j2: int| #![auto]
            0 <= c1 < comps.len() && 0 <= j1 < comps[c1]@.len() && 0 <= c2 < comps.len() && 0 <= j2
                < comps[c2]@.len() && comps[c1]@[j1] == comps[c2]@[j2] ==> c1 == c2 && j1 == j2,
        forall|e: int, c1: int, j1: int, c2: int, j2: int| #![auto]
            0 <= e < edges.len() && 0 <= c1 < comps.len() && 0 <= j1 < comps[c1]@.len() && 0 <= c2
                < comps.len() && 0 <= j2 < comps[c2]@.len() && comps[c1]@[j1] as int == edges[e].0
                && comps[c2]@[j2] as int == edges[e].1 ==> c2 <= c1,
        order.len() == comps.len(),
        forall|a: int|
            0 <= a < order.len() ==> #[trigger] order[a] == comps[a]@[0] && 0 <= order[a]
                < planned.len(),
        forall|c: int| 0 <= c < comps.len() ==> (#[trigger] comps[c])@.len() == 1,
        plan.len() == order.len(),
        forall|q: int| 0 <= q < plan.len() ==> plan[q] == planned[#[trigger] order[q] as int],
    ensures
        forall|a: int, b: int| 0 <= a < b < plan.len() ==> plan[a] != plan[b],
        forall|a: int| 0 <= a < plan.len() ==> 0 <= #[trigger] plan[a] < pkgs.len(),
        forall|i: int|
            0 <= i < pkgs.len() ==> (spec_planned(selected, published, i) <==> #[trigger]
            spec_in_plan(plan, i)),
        forall|a: int, b: int|
            0 <= a < plan.len() && 0 <= b < plan.len() && a != b && spec_depends(
                pkgs,
                deps,
                plan[a] as int,
                plan[b] as int,
            ) ==> b < a,
{
    assert forall|a1: int, a2: int|
        0 <= a1 < order.len() && 0 <= a2 < order.len() && a1 != a2 implies order[a1]
        != order[a2] by {
        if order[a1] == order[a2] {
            assert(comps[a1]@[0] == comps[a2]@[0]);
        }
    }
    assert forall|a: int| 0 <= a < plan.len() implies 0 <= #[trigger] plan[a] < pkgs.len() by {
        assert(plan[a] == planned[order[a] as int]);
    }
    assert forall|a: int, b: int| 0 <= a < b < plan.len() implies plan[a] != plan[b] by {
        assert(order[a] != order[b]);
        if (order[a] as int) < (order[b] as int) {
            assert(planned[order[a] as int] != planned[order[b] as int]);
        } else {
            assert(planned[order[b] as int] != planned[order[a] as int]);
        }
    }
    assert forall|i: int|
        0 <= i < pkgs.len() implies (spec_planned(selected, published, i) <==> #[trigger]
    spec_in_plan(plan, i)) by {
        if spec_planned(selected, published, i) {
            assert(node_of[i] is Some);
            let k = node_of[i]->0;
            assert(spec_in_comps(comps, k as int));
            let (c, j) = choose|c: int, j: int|
                #![auto]
                0 <= c < comps.len() && 0 <= j < comps[c]@.len() && comps[c]@[j] as int
                    == k as int;
            assert(j == 0);
            assert(order[c] as int == k as int);
            assert(plan[c] as int == i);
            assert(spec_in_plan(plan, i));
        }
        if spec_in_plan(plan, i) {
            let a = choose|a: int| 0 <= a < plan.len() && #[trigger] plan[a] as int == i;
            assert(spec_planned(selected, published, planned[order[a] as int] as int));
        }
    }
    assert forall|a: int, b: int|
        0 <= a < plan.len() && 0 <= b < plan.len() && a != b && spec_depends(
            pkgs,
            deps,
            plan[a] as int,
            plan[b] as int,
        ) implies b < a by {
        let ka = order[a] as int;
        let kb = order[b] as int;
        assert(planned[ka] == plan[a]);
        assert(planned[kb] == plan[b]);
        let d = choose|d: int|
            0 <= d < deps[plan[a] as int]@.len() && spec_name_index(
                pkgs,
                (#[trigger] deps[plan[a] as int]@[d])@,
            ) == Some(plan[b] as int);
        assert(node_of[plan[a] as int] is Some);
        let ka2 = node_of[plan[a] as int]->0;
        assert(planned[ka2 as int] == plan[a]);
        assert(ka2 as int == ka) by {
            if ka2 as int != ka {
                if (ka2 as int) < ka {
                    assert(planned[ka2 as int] != planned[ka]);
                } else {
                    assert(planned[ka] != planned[ka2 as int]);
                }
            }
        }
        assert(node_of[plan[b] as int] is Some);
        let kb2 = node_of[plan[b] as int]->0;
        assert(planned[kb2 as int] == plan[b]);
        assert(kb2 as int == kb) by {
            if kb2 as int != kb {
                if (kb2 as int) < kb {
                    assert(planned[kb2 as int] != planned[kb]);
                } else {
                    assert(planned[kb] != planned[kb2 as int]);
                }
            }
        }
        assert(edges.contains((ka, kb)));
        let e = choose|e: int| 0 <= e < edges.len() && edges[e] == (ka, kb);
        assert(comps[a]@[0] as int == edges[e].0);
        assert(comps[b]@[0] as int == edges[e].1);
        assert(b <= a);
    }
}

/// The position of a package in the plan.
pub open spec fn spec_plan_pos(plan: Seq<usize>, i: int) -> int {
    choose|a: int| 0 <= a < plan.len() && #[trigger] plan[a] as int == i
}

/// Along a dependency walk through planned packages, the plan
/// position never increases.
proof fn lemma_walk_descent(
    pkgs: Seq<PkgInfo>,
    deps: Seq<Vec<String>>,
    selected: Seq<bool>,
    published: Seq<bool>,
    plan: Seq<usize>,
    w: Seq<int>,
    k1: int,
    k2: int,
)
    requires
        forall|a: int, b: int| 0 <= a < b < plan.len() ==> plan[a] != plan[b],
        forall|i: int|
            0 <= i < pkgs.len() ==> (spec_planned(selected, published, i) <==> #[trigger]
            spec_in_plan(plan, i)),
        forall|a: int, b: int|
            0 <= a < plan.len() && 0 <= b < plan.len() && a != b && spec_depends(
                pkgs,
                deps,
                plan[a] as int,
                plan[b] as int,
            ) ==> b < a,
        forall|k: int|
            0 <= k < w.len() ==> 0 <= #[trigger] w[k] < pkgs.len() && spec_planned(
                selected,
                published,
                w[k],
            ),
        forall|k: int| 0 <= k < w.len() - 1 ==> spec_depends(pkgs, deps, #[trigger] w[k], w[k + 1]),
        0 <= k1 <= k2 < w.len(),
    ensures
        spec_plan_pos(plan, w[k2]) <= spec_plan_pos(plan, w[k1]),
        0 <= spec_plan_pos(plan, w[k2]) < plan.len(),
        plan[spec_plan_pos(plan, w[k2])] as int == w[k2],
    decreases k2 - k1,
{
    assert(spec_in_plan(plan, w[k2]));
    let b = spec_plan_pos(plan, w[k2]);
    assert(0 <= b < plan.len() && plan[b] as int == w[k2]);
    if k1 < k2 {
        lemma_walk_descent(pkgs, deps, selected, published, plan, w, k1, k2 - 1);
        let a = spec_plan_pos(plan, w[k2 - 1]);
        if w[k2 - 1] != w[k2] {
            assert(a != b);
            assert(spec_depends(pkgs, deps, plan[a] as int, plan[b] as int));
            assert(b < a);
        }
    }
}

/// A plan in reverse topological order rules out any dependency
/// cycle among the planned packages.
proof fn lemma_plan_acyclic(
    pkgs: Seq<PkgInfo>,
    deps: Seq<Vec<String>>,
    selected: Seq<bool>,
    published: Seq<bool>,
    plan: Seq<usize>,
)
    requires
        forall|a: int, b: int| 0 <= a < b < plan.len() ==> plan[a] != plan[b],
        forall|i: int|
            0 <= i < pkgs.len() ==> (spec_planned(selected, published, i) <==> #[trigger]
            spec_in_plan(plan, i)),
        forall|a: int, b: int|
            0 <= a < plan.len() && 0 <= b < plan.len() && a != b && spec_depends(
                pkgs,
                deps,
                plan[a] as int,
                plan[b] as int,
            ) ==> b < a,
    ensures
        !spec_dep_cycle(pkgs, deps, selected, published),
{
    if spec_dep_cycle(pkgs, deps, selected, published) {
        let w = choose|w: Seq<int>| #[trigger] spec_dep_walk(pkgs, deps, selected, published, w);
        let k0 = choose|k: int| 0 <= k < w.len() && #[trigger] w[k] != w.first();
        lemma_walk_descent(pkgs, deps, selected, published, plan, w, 0, k0);
        lemma_walk_descent(pkgs, deps, selected, published, plan, w, k0, w.len() - 1);
        lemma_walk_descent(pkgs, deps, selected, published, plan, w, 0, 0);
        let p0 = spec_plan_pos(plan, w[0]);
        let pk = spec_plan_pos(plan, w[k0]);
        let pl = spec_plan_pos(plan, w[w.len() - 1]);
        // distinct packages sit at distinct positions
        assert(pk != p0) by {
            if pk == p0 {
                assert(plan[pk] as int == w[k0] && plan[p0] as int == w[0]);
            }
        }
        assert(pl <= pk < p0);
        assert(w[w.len() - 1] == w[0]);
        assert(plan[pl] as int == w[0] && plan[p0] as int == w[0]);
        assert(pl == p0) by {
            if pl < p0 {
                assert(plan[pl] != plan[p0]);
            }
            if p0 < pl {
                assert(plan[p0] != plan[pl]);
            }
        }
        assert(false);
    }
}

/// Two mutually reachable distinct graph nodes yield a dependency
/// cycle among the planned packages.
#[verifier::rlimit(60)]
proof fn lemma_cycle_from_component(
    pkgs: Seq<PkgInfo>,
    deps: Seq<Vec<String>>,
    selected: Seq<bool>,
    published: Seq<bool>,
    planned: Seq<usize>,
    edges: Seq<(int, int)>,
    u: int,
    v: int,
)
    requires
        u != v,
        0 <= u < planned.len(),
        0 <= v < planned.len(),
        forall|k: int|
            0 <= k < planned.len() ==> 0 <= #[trigger] planned[k] < pkgs.len() && spec_planned(
                selected,
                published,
                planned[k] as int,
            ),
        forall|k1: int, k2: int| 0 <= k1 < k2 < planned.len() ==> planned[k1] != planned[k2],
        forall|e: int|
            0 <= e < edges.len() ==> ({
                let ed = #[trigger] edges[e];
                &&& 0 <= ed.0 < planned.len()
                &&& 0 <= ed.1 < planned.len()
                &&& spec_depends(pkgs, deps, planned[ed.0] as int, planned[ed.1] as int)
            }),
        spec_connected(edges, u, v),
        spec_connected(edges, v, u),
    ensures
        spec_dep_cycle(pkgs, deps, selected, published),
{
    let p1 = choose|p: Seq<int>|
        #[trigger] spec_edge_walk(edges, p) && p.first() == u && p.last() == v;
    let p2 = choose|p: Seq<int>|
        #[trigger] spec_edge_walk(edges, p) && p.first() == v && p.last() == u;
    assert(p1.len() >= 2) by {
        if p1.len() == 1 {
            assert(p1.first() == p1.last());
        }
    }
    assert(p2.len() >= 2) by {
        if p2.len() == 1 {
            assert(p2.first() == p2.last());
        }
    }
    let full = p1 + p2.skip(1);
    // each step of the joined walk is a graph edge
    assert forall|k: int| 0 <= k < full.len() - 1 implies #[trigger] edges.contains(
        (full[k], full[k + 1]),
    ) by {
        if k < p1.len() - 1 {
            assert(full[k] == p1[k] && full[k + 1] == p1[k + 1]);
        } else if k == p1.len() - 1 {
            assert(full[k] == p1[p1.len() - 1]);
            assert(full[k + 1] == p2.skip(1)[0]);
            assert(p2.skip(1)[0] == p2[1]);
            assert(edges.contains((p2[0], p2[1])));
            assert(p1[p1.len() - 1] == v && p2[0] == v);
        } else {
            let q = k - p1.len();
            assert(full[k] == p2.skip(1)[q] && full[k + 1] == p2.skip(1)[q + 1]);
            assert(p2.skip(1)[q] == p2[q + 1] && p2.skip(1)[q + 1] == p2[q + 2]);
            assert(edges.contains((p2[q + 1], p2[q + 2])));
        }
    }
    // every node of the walk is a node of the graph
    assert forall|k: int| 0 <= k < full.len() implies 0 <= #[trigger] full[k]
        < planned.len() by {
        if k < full.len() - 1 {
            assert(edges.contains((full[k], full[k + 1])));
            let e = choose|e: int|
                0 <= e < edges.len() && #[trigger] edges[e] == (full[k], full[k + 1]);
            assert(edges[e].0 == full[k]);
        } else {
            assert(edges.contains((full[k - 1], full[k])));
            let e = choose|e: int|
                0 <= e < edges.len() && #[trigger] edges[e] == (full[k - 1], full[k]);
            assert(edges[e].1 == full[k]);
        }
    }
    let w = Seq::new(full.len(), |k: int| planned[full[k]] as int);
    assert(spec_dep_walk(pkgs, deps, selected, published, w)) by {
        assert(w.len() >= 3);
        assert(full.first() == u && full.last() == u) by {
            assert(full[full.len() - 1] == p2.skip(1)[p2.skip(1).len() - 1]);
            assert(p2.skip(1)[p2.skip(1).len() - 1] == p2[p2.len() - 1]);
        }
        assert(w.first() == w.last());
        assert forall|k: int| 0 <= k < w.len() implies 0 <= #[trigger] w[k] < pkgs.len()
            && spec_planned(selected, published, w[k]) by {
            assert(w[k] == planned[full[k]] as int);
        }
        assert forall|k: int| 0 <= k < w.len() - 1 implies spec_depends(
            pkgs,
            deps,
            #[trigger] w[k],
            w[k + 1],
        ) by {
            assert(edges.contains((full[k], full[k + 1])));
            let e = choose|e: int|
                0 <= e < edges.len() && #[trigger] edges[e] == (full[k], full[k + 1]);
            assert(spec_depends(pkgs, deps, planned[edges[e].0] as int, planned[edges[e].1] as int));
        }
        // the walk visits the distinct node v
        let kv = p1.len() - 1;
        assert(full[kv] == v && full[0] == u);
        assert(w[kv] != w.first()) by {
            if planned[v] == planned[u] {
                if u < v {
                    assert(planned[u] != planned[v]);
                } else {
                    assert(planned[v] != planned[u]);
                }
            }
        }
    }
}

/// One node line of the dot text.
pub open spec fn spec_dot_node_line(idx: int, label: Seq<char>, red: bool) -> Seq<char> {
    "    "@ + spec_dec(idx) + " [ label=\""@ + label + "\""@ + (if red {
        " color=red"@
    } else {
        Seq::<char>::empty()
    }) + " ]\n"@
}

/// One edge line of the dot text.
pub open spec fn spec_dot_edge_line(a: int, b: int, red: bool) -> Seq<char> {
    "    "@ + spec_dec(a) + " -> "@ + spec_dec(b) + (if red {
        " [ color=red ]\n"@
    } else {
        "\n"@
    })
}

/// The node lines for the first `upto` nodes.
pub open spec fn spec_dot_nodes(labels: Seq<String>, red: Seq<bool>, upto: int) -> Seq<char>
    decreases upto,
{
    if upto <= 0 {
        Seq::<char>::empty()
    } else {
        spec_dot_nodes(labels, red, upto - 1) + spec_dot_node_line(
            upto - 1,
            labels[upto - 1]@,
            red[upto - 1],
        )
    }
}

/// The edge lines for the first `upto` edges.
pub open spec fn spec_dot_edges(edges: Seq<(usize, usize)>, red: Seq<bool>, upto: int) -> Seq<
    char,
>
    decreases upto,
{
    if upto <= 0 {
        Seq::<char>::empty()
    } else {
        spec_dot_edges(edges, red, upto - 1) + spec_dot_edge_line(
            edges[upto - 1].0 as int,
            edges[upto - 1].1 as int,
            red[upto - 1],
        )
    }
}

/// The whole graphviz text: a directed graph with one line per node
/// and per edge; nodes and edges on a cycle are colored red.
pub open spec fn spec_dot_text(
    labels: Seq<String>,
    node_red: Seq<bool>,
    edges: Seq<(usize, usize)>,
    edge_red: Seq<bool>,
) -> Seq<char> {
    "digraph {\n"@ + spec_dot_nodes(labels, node_red, labels.len() as int) + spec_dot_edges(
        edges,
        edge_red,
        edges.len() as int,
    ) + "}\n"@
}

/// Renders a graph as graphviz dot text, marking the given nodes and
/// edges red.
#[verifier::rlimit(100)]
#[verifier::loop_isolation(false)]
pub fn graphviz_dot(
    labels: &Vec<String>,
    node_red: &Vec<bool>,
    edges: &Vec<(usize, usize)>,
    edge_red: &Vec<bool>,
) -> (r: String)
    requires
        node_red@.len() == labels@.len(),
        edge_red@.len() == edges@.len(),
    ensures
        r@ == spec_dot_text(labels@, node_red@, edges@, edge_red@),
{
    let mut out = String::new();
    push_str(&mut out, "digraph {\n");
    proof {
        assert(out@ =~= "digraph {\n"@ + spec_dot_nodes(labels@, node_red@, 0));
    }
    let n = labels.len();
    for i in 0..n
        invariant
            out@ == "digraph {\n"@ + spec_dot_nodes(labels@, node_red@, i as int),
    {
        push_str(&mut out, "    ");
        let idx = crate::version::u64_dec(i as u64);
        push_str(&mut out, idx.as_str());
        push_str(&mut out, " [ label=\"");
        push_str(&mut out, labels[i].as_str());
        push_str(&mut out, "\"");
        if node_red[i] {
            push_str(&mut out, " color=red");
        }
        push_str(&mut out, " ]\n");
        proof {
            assert(spec_dot_nodes(labels@, node_red@, i + 1) == spec_dot_nodes(
                labels@,
                node_red@,
                i as int,
            ) + spec_dot_node_line(i as int, labels@[i as int]@, node_red@[i as int]));
            assert(out@ =~= "digraph {\n"@ + spec_dot_nodes(labels@, node_red@, i + 1));
        }
    }
    let m = edges.len();
    for e in 0..m
        invariant
            out@ == "digraph {\n"@ + spec_dot_nodes(labels@, node_red@, labels@.len() as int)
                + spec_dot_edges(edges@, edge_red@, e as int),
    {
        push_str(&mut out, "    ");
        let a = crate::version::u64_dec(edges[e].0 as u64);
        push_str(&mut out, a.as_str());
        push_str(&mut out, " -> ");
        let b = crate::version::u64_dec(edges[e].1 as u64);
        push_str(&mut out, b.as_str());
        if edge_red[e] {
            push_str(&mut out, " [ color=red ]\n");
        } else {
            push_str(&mut out, "\n");
        }
        proof {
            assert(spec_dot_edges(edges@, edge_red@, e + 1) == spec_dot_edges(
                edges@,
                edge_red@,
                e as int,
            ) + spec_dot_edge_line(
                edges@[e as int].0 as int,
                edges@[e as int].1 as int,
                edge_red@[e as int],
            ));
            assert(out@ =~= "digraph {\n"@ + spec_dot_nodes(
                labels@,
                node_red@,
                labels@.len() as int,
            ) + spec_dot_edges(edges@, edge_red@, e + 1));
        }
    }
    proof {
        assert(spec_dot_edges(edges@, edge_red@, edges@.len() as int) == spec_dot_edges(
            edges@,
            edge_red@,
            m as int,
        ));
    }
    push_str(&mut out, "}\n");
    proof {
        assert(out@ =~= spec_dot_text(labels@, node_red@, edges@, edge_red@));
    }
    out
}

/// Renders the release graph of the selected, not-yet-published
/// packages as graphviz dot text: one node per planned package
/// labelled `name:version`, one edge per dependency between them, and
/// every node and edge on a dependency cycle colored red.  The exact
/// shape of the text is fixed by [`graphviz_dot`].
#[verifier::rlimit(60)]
#[verifier::loop_isolation(false)]
pub fn release_graph_dot(
    pkgs: &Vec<PkgInfo>,
    selected: &Vec<bool>,
    published: &Vec<bool>,
    deps: &Vec<Vec<String>>,
) -> (r: Result<String, Error>)
    requires
        selected@.len() == pkgs@.len(),
        published@.len() == pkgs@.len(),
        deps@.len() == pkgs@.len(),
    ensures
        r matches Err(e) ==> e matches Error::Configuration(_) && pkgs@.len() + spec_total_deps(
            deps@,
        ) >= u32::MAX as int,
{
    let n = pkgs.len();
    let mut graph = graph_new();
    let mut planned: Vec<usize> = Vec::new();
    let mut node_of: Vec<Option<usize>> = Vec::new();
    let res = plan_nodes(&mut graph, pkgs, selected, published, &mut planned, &mut node_of);
    if res.is_err() {
        proof {
            lemma_total_deps_nonneg(deps@);
        }
        return Err(res.unwrap_err());
    }
    let mut edge_list: Vec<(usize, usize)> = Vec::new();
    let res = plan_edges(&mut graph, pkgs, deps, &planned, &node_of, &mut edge_list);
    if res.is_err() {
        return Err(res.unwrap_err());
    }
    let m = planned.len();
    let comps = graph_scc(&graph);
    let mut node_red: Vec<bool> = Vec::new();
    for k in 0..m
        invariant
            node_red@.len() == k,
    {
        node_red.push(false);
    }
    let clen = comps.len();
    for ci in 0..clen
        invariant
            node_red@.len() == m,
            clen == comps@.len(),
    {
        if comps[ci].len() > 1 {
            let wlen = comps[ci].len();
            for w in 0..wlen
                invariant
                    node_red@.len() == m,
                    0 <= ci < comps@.len(),
                    wlen == comps@[ci as int]@.len(),
            {
                let node = comps[ci][w];
                node_red.set(node, true);
            }
        }
    }
    let mut edge_red: Vec<bool> = Vec::new();
    let elen = edge_list.len();
    for e in 0..elen
        invariant
            edge_red@.len() == e,
            elen == edge_list@.len(),
            node_red@.len() == m,
            forall|q: int| #![auto]
                0 <= q < edge_list@.len() ==> (edge_list@[q].0 as int, edge_list@[q].1 as int)
                    == graph_edges(graph)[q],
            edge_list@.len() == graph_edges(graph).len(),
            graph_node_count(graph) == m as int,
    {
        let (a, b) = edge_list[e];
        proof {
            assert((edge_list@[e as int].0 as int, edge_list@[e as int].1 as int) == graph_edges(
                graph,
            )[e as int]);
        }
        edge_red.push(node_red[a] && node_red[b]);
    }
    let mut labels: Vec<String> = Vec::new();
    for k in 0..m
        invariant
            labels@.len() == k,
            planned@.len() == m,
            forall|q: int|
                0 <= q < planned@.len() ==> 0 <= #[trigger] planned@[q] < pkgs@.len(),
    {
        let idx = planned[k];
        let mut label = pkgs[idx].name.clone();
        crate::strutil::string_push(&mut label, ':');
        let vs = crate::version::version_string(&pkgs[idx].version);
        push_str(&mut label, vs.as_str());
        labels.push(label);
    }
    Ok(graphviz_dot(&labels, &node_red, &edge_list, &edge_red))
}

} // verus!