//! What holds of every manifest and of its plan.

use crate::closure::{
    depends_on, depends_transitively, is_chain, lemma_chain_stays_inside, lemma_direct,
    lemma_one_more,
};
use crate::graph::{
    lemma_predecessors_are_edges, lemma_successors_are_edges, predecessors, successors,
};
use crate::manifest::{lemma_position_unique, ManifestView};
use crate::plan::{
    dependency_count, dependency_edges, edge_of, lemma_edge_count, lemma_listed_with,
    lemma_node_index, listed_with, manifest_edges, manifest_nodes, node_index, resolves, traverse,
    PlanView,
};
use crate::repo::RepoId;
use vstd::prelude::*;

verus! {

/// The plan that a manifest gives rise to.
pub open spec fn plan_of(m: ManifestView) -> PlanView {
    PlanView { nodes: manifest_nodes(m), edges: manifest_edges(m, m.repo.len() as int) }
}

/// The entry at place `x` lists the key of the entry at place `y` among its
/// dependencies.
pub open spec fn lists(m: ManifestView, x: int, y: int) -> bool {
    exists|j: int|
        0 <= j < m.entry(x).dependency_keys().len() && m.key(y)
            == #[trigger] m.entry(x).dependency_keys()[j]
}

/// An edge is among those of the first `j` dependencies of an entry exactly if
/// it is the edge of one of them.
proof fn lemma_dependency_edges(m: ManifestView, i: int, j: int, e: (usize, usize))
    requires
        0 <= j,
    ensures
        dependency_edges(m, i, j).contains(e) <==> exists|b: int|
            0 <= b < j && #[trigger] edge_of(m, i, b) == e,
    decreases j,
{
    if j > 0 {
        let rest = dependency_edges(m, i, j - 1);
        let all = dependency_edges(m, i, j);
        lemma_dependency_edges(m, i, j - 1, e);
        if all.contains(e) {
            let k = choose|k: int| 0 <= k < all.len() && all[k] == e;
            if k < rest.len() {
                assert(rest[k] == e);
                let b = choose|b: int| 0 <= b < j - 1 && #[trigger] edge_of(m, i, b) == e;
                assert(0 <= b < j && edge_of(m, i, b) == e);
            } else {
                assert(edge_of(m, i, j - 1) == e);
            }
        }
        if exists|b: int| 0 <= b < j && #[trigger] edge_of(m, i, b) == e {
            let b = choose|b: int| 0 <= b < j && #[trigger] edge_of(m, i, b) == e;
            if b < j - 1 {
                assert(rest.contains(e));
                let k = choose|k: int| 0 <= k < rest.len() && rest[k] == e;
                assert(all[k] == e);
            } else {
                assert(all[rest.len() as int] == e);
            }
        }
    }
}

/// An edge is among those of the first `n` entries exactly if it is the edge
/// of a dependency of one of them.
proof fn lemma_manifest_edges(m: ManifestView, n: int, e: (usize, usize))
    requires
        0 <= n,
    ensures
        manifest_edges(m, n).contains(e) <==> exists|a: int, b: int|
            0 <= a < n && 0 <= b < m.entry(a).dependency_keys().len() && #[trigger] edge_of(
                m,
                a,
                b,
            ) == e,
    decreases n,
{
    if n > 0 {
        let rest = manifest_edges(m, n - 1);
        let last = dependency_edges(m, n - 1, m.entry(n - 1).dependency_keys().len() as int);
        let all = manifest_edges(m, n);
        lemma_manifest_edges(m, n - 1, e);
        lemma_dependency_edges(m, n - 1, m.entry(n - 1).dependency_keys().len() as int, e);
        if all.contains(e) {
            let k = choose|k: int| 0 <= k < all.len() && all[k] == e;
            if k < rest.len() {
                assert(rest[k] == e);
                let (a, b) = choose|a: int, b: int|
                    0 <= a < n - 1 && 0 <= b < m.entry(a).dependency_keys().len()
                        && #[trigger] edge_of(m, a, b) == e;
                assert(0 <= a < n && edge_of(m, a, b) == e);
            } else {
                assert(last[k - rest.len()] == e);
                let b = choose|b: int|
                    0 <= b < m.entry(n - 1).dependency_keys().len() && #[trigger] edge_of(
                        m,
                        n - 1,
                        b,
                    ) == e;
                assert(edge_of(m, n - 1, b) == e);
            }
        }
        if exists|a: int, b: int|
            0 <= a < n && 0 <= b < m.entry(a).dependency_keys().len() && #[trigger] edge_of(
                m,
                a,
                b,
            ) == e {
            let (a, b) = choose|a: int, b: int|
                0 <= a < n && 0 <= b < m.entry(a).dependency_keys().len() && #[trigger] edge_of(
                    m,
                    a,
                    b,
                ) == e;
            if a < n - 1 {
                assert(rest.contains(e));
                let k = choose|k: int| 0 <= k < rest.len() && rest[k] == e;
                assert(all[k] == e);
            } else {
                assert(last.contains(e));
                let k = choose|k: int| 0 <= k < last.len() && last[k] == e;
                assert(all[rest.len() + k] == e);
            }
        }
    }
}

/// A plan has one node for each key of its manifest, and one edge for each
/// dependency that an entry lists.
pub proof fn law_plan_size(m: ManifestView)
    ensures
        plan_of(m).nodes.len() == m.repo.len(),
        plan_of(m).edges.len() == dependency_count(m, m.repo.len() as int),
{
    lemma_edge_count(m, m.repo.len() as int);
}

/// The plan of a manifest whose dependencies all have an entry is well
/// formed: each edge joins two of its nodes.
pub proof fn law_plan_well_formed(m: ManifestView)
    requires
        m.wf(),
        resolves(m),
    ensures
        plan_of(m).wf(),
{
    let plan = plan_of(m);
    assert forall|k: int| 0 <= k < plan.edges.len() implies (#[trigger] plan.edges[k]).0
        < plan.nodes.len() && plan.edges[k].1 < plan.nodes.len() by {
        let e = plan.edges[k];
        assert(plan.edges.contains(e));
        lemma_manifest_edges(m, m.repo.len() as int, e);
        let (a, b) = choose|a: int, b: int|
            0 <= a < m.repo.len() && 0 <= b < m.entry(a).dependency_keys().len()
                && #[trigger] edge_of(m, a, b) == e;
        assert(m.has_key(m.entry(a).dependency_keys()[b]));
    }
}

/// In the plan a node depends directly on another exactly if its entry lists
/// the key of the other's: the edges are the dependencies of the manifest,
/// each from the repository that is depended on to the one that depends on it.
pub proof fn law_edges_are_dependencies(m: ManifestView, x: int, y: int)
    requires
        m.wf(),
        resolves(m),
        0 <= x < m.repo.len(),
        0 <= y < m.repo.len(),
    ensures
        depends_on(plan_of(m).edges, x as usize, y as usize) <==> lists(m, x, y),
{
    let n = m.repo.len() as int;
    let e = (y as usize, x as usize);
    lemma_manifest_edges(m, n, e);
    lemma_position_unique(m, y);
    if plan_of(m).edges.contains(e) {
        let (a, b) = choose|a: int, b: int|
            0 <= a < n && 0 <= b < m.entry(a).dependency_keys().len() && #[trigger] edge_of(
                m,
                a,
                b,
            ) == e;
        let key = m.entry(x).dependency_keys()[b];
        assert(a == x);
        assert(m.has_key(key));
        assert(m.key(y) == key);
    }
    if lists(m, x, y) {
        let j = choose|j: int|
            0 <= j < m.entry(x).dependency_keys().len() && m.key(y)
                == #[trigger] m.entry(x).dependency_keys()[j];
        assert(edge_of(m, x, j) == e);
    }
}

/// A repository is known to the plan exactly if an entry of the manifest is
/// for it. It then resolves to the last such entry in the order of the keys.
pub proof fn law_known_repos(m: ManifestView, repo: RepoId)
    requires
        m.repo.len() <= usize::MAX,
    ensures
        plan_of(m).has_repo(repo) <==> exists|i: int|
            0 <= i < m.repo.len() && #[trigger] m.entry(i).details == repo,
        plan_of(m).has_repo(repo) ==> {
            let node = plan_of(m).node_of(repo);
            &&& node < m.repo.len()
            &&& m.entry(node as int).details == repo
            &&& forall|k: int| node < k < m.repo.len() ==> #[trigger] m.entry(k).details != repo
        },
{
    let nodes = manifest_nodes(m);
    lemma_node_index(nodes, repo);
    if nodes.contains(repo) {
        let i = choose|i: int| 0 <= i < nodes.len() && nodes[i] == repo;
        assert(m.entry(i).details == repo);
        let node = node_index(nodes)[repo];
        assert forall|k: int| node < k < m.repo.len() implies #[trigger] m.entry(k).details
            != repo by {
            assert(nodes[k] == m.entry(k).details);
        }
    }
    if exists|i: int| 0 <= i < m.repo.len() && #[trigger] m.entry(i).details == repo {
        let i = choose|i: int| 0 <= i < m.repo.len() && #[trigger] m.entry(i).details == repo;
        assert(nodes[i] == repo);
    }
}

/// Whoever lists a key among its dependencies is a neighbor of the repository
/// under that key, provided that the repository resolves to the entry under
/// that key: no entry under a later key is for the same repository.
pub proof fn law_dependents_are_neighbors(m: ManifestView, dependent: int, dependency: int)
    requires
        m.wf(),
        resolves(m),
        0 <= dependent < m.repo.len(),
        0 <= dependency < m.repo.len(),
        lists(m, dependent, dependency),
        forall|k: int|
            dependency < k < m.repo.len() ==> #[trigger] m.entry(k).details != m.entry(
                dependency,
            ).details,
    ensures
        plan_of(m).has_repo(m.entry(dependency).details),
        plan_of(m).neighbors(m.entry(dependency).details).contains(m.entry(dependent).details),
{
    let plan = plan_of(m);
    let repo = m.entry(dependency).details;
    law_known_repos(m, repo);
    assert(m.entry(dependency).details == repo);
    let node = plan.node_of(repo);
    assert(node == dependency);
    law_edges_are_dependencies(m, dependent, dependency);
    lemma_successors_are_edges(plan.edges, node, dependent as usize);
    let ids = successors(plan.edges, node);
    let k = choose|k: int| 0 <= k < ids.len() && ids[k] == dependent as usize;
    assert(plan.repos(ids)[k] == m.entry(dependent).details);
}

/// What holds of the list of a traversal from `start` when the first `head`
/// nodes of the list have been gone on from: the list names no node twice
/// and never `start`; `start` depends on each of its nodes; and what `start`
/// and those first nodes depend on directly is `start` or is listed.
spec fn on_the_way(plan: PlanView, start: usize, order: Seq<usize>, head: int) -> bool {
    &&& 0 <= head <= order.len()
    &&& order.no_duplicates()
    &&& !order.contains(start)
    &&& forall|k: int|
        0 <= k < order.len() ==> (#[trigger] order[k]) < plan.nodes.len() && depends_transitively(
            plan.edges,
            start,
            order[k],
        )
    &&& forall|k: int, w: usize|
        0 <= k < head && #[trigger] depends_on(plan.edges, #[trigger] order[k], w) ==> w == start
            || order.contains(w)
    &&& forall|w: usize| #[trigger]
        depends_on(plan.edges, start, w) ==> w == start || order.contains(w)
}

/// Different numbers below `n` are at most `n`.
proof fn lemma_distinct_below(s: Seq<usize>, n: nat)
    requires
        s.no_duplicates(),
        forall|k: int| 0 <= k < s.len() ==> (#[trigger] s[k]) < n,
    ensures
        s.len() <= n,
    decreases n,
{
    if s.len() > 0 {
        assert(s[0] < n);
        let top = (n - 1) as usize;
        if s.contains(top) {
            let at = choose|at: int| 0 <= at < s.len() && s[at] == top;
            let rest = s.remove(at);
            assert forall|k: int| 0 <= k < rest.len() implies (#[trigger] rest[k]) < n - 1 by {
                if k < at {
                    assert(rest[k] == s[k]);
                } else {
                    assert(rest[k] == s[k + 1]);
                }
            }
            assert forall|a: int, b: int|
                0 <= a < rest.len() && 0 <= b < rest.len() && a != b implies rest[a]
                != rest[b] by {
                let a0 = if a < at { a } else { a + 1 };
                let b0 = if b < at { b } else { b + 1 };
                assert(rest[a] == s[a0] && rest[b] == s[b0]);
            }
            lemma_distinct_below(rest, (n - 1) as nat);
        } else {
            assert forall|k: int| 0 <= k < s.len() implies (#[trigger] s[k]) < n - 1 by {
                assert(s.contains(s[k]));
            }
            lemma_distinct_below(s, (n - 1) as nat);
        }
    }
}

/// Going on from the next node of the list keeps what holds on the way.
proof fn lemma_go_on(plan: PlanView, start: usize, order: Seq<usize>, head: int)
    requires
        plan.wf(),
        start < plan.nodes.len(),
        on_the_way(plan, start, order, head),
        head < order.len(),
    ensures
        on_the_way(
            plan,
            start,
            listed_with(order, predecessors(plan.edges, order[head]), start),
            head + 1,
        ),
{
    let edges = plan.edges;
    let node = order[head];
    let found = predecessors(edges, node);
    let longer = listed_with(order, found, start);
    lemma_listed_with(order, found, start);
    assert forall|k: int| 0 <= k < order.len() implies longer[k] == #[trigger] order[k] by {
        assert(longer.take(order.len() as int)[k] == order[k]);
    }
    assert forall|k: int| 0 <= k < longer.len() implies (#[trigger] longer[k]) < plan.nodes.len()
        && depends_transitively(edges, start, longer[k]) by {
        if k < order.len() {
            assert(longer[k] == order[k]);
        } else {
            assert(longer.contains(longer[k]));
            if order.contains(longer[k]) {
                let at = choose|at: int| 0 <= at < order.len() && order[at] == longer[k];
                assert(longer[at] == order[at]);
            }
            lemma_predecessors_are_edges(edges, node, longer[k]);
            lemma_one_more(edges, start, node, longer[k]);
            let e = choose|e: int| 0 <= e < edges.len() && edges[e] == (longer[k], node);
            assert(edges[e].0 == longer[k]);
        }
    }
    assert forall|k: int, w: usize|
        0 <= k < head + 1 && #[trigger] depends_on(edges, #[trigger] longer[k], w) implies w
        == start || longer.contains(w) by {
        assert(longer[k] == order[k]);
        if k == head {
            lemma_predecessors_are_edges(edges, node, w);
        } else {
            assert(depends_on(edges, order[k], w));
        }
    }
}

/// A traversal that is given rounds enough lists what `start` depends on.
proof fn lemma_traverse(plan: PlanView, start: usize, order: Seq<usize>, head: int, rounds: nat)
    requires
        plan.wf(),
        start < plan.nodes.len(),
        on_the_way(plan, start, order, head),
        head + rounds >= plan.nodes.len(),
    ensures
        plan.is_upstream(start, traverse(plan.edges, start, order, head, rounds)),
    decreases rounds,
{
    let edges = plan.edges;
    if head < order.len() {
        let all = order.push(start);
        assert forall|a: int, b: int|
            0 <= a < all.len() && 0 <= b < all.len() && a != b implies all[a] != all[b] by {
            if a < order.len() {
                assert(order.contains(order[a]));
            }
            if b < order.len() {
                assert(order.contains(order[b]));
            }
        }
        assert forall|k: int| 0 <= k < all.len() implies (#[trigger] all[k]) < plan.nodes.len() by {
            if k < order.len() {
                assert(all[k] == order[k]);
            }
        }
        lemma_distinct_below(all, plan.nodes.len());
        lemma_go_on(plan, start, order, head);
        lemma_traverse(
            plan,
            start,
            listed_with(order, predecessors(edges, order[head]), start),
            head + 1,
            (rounds - 1) as nat,
        );
    } else {
        let inside = Set::new(|w: usize| w == start || order.contains(w));
        assert forall|u: usize, w: usize|
            inside.contains(u) && #[trigger] depends_on(edges, u, w) implies inside.contains(
            w,
        ) by {
            if u != start {
                let k = choose|k: int| 0 <= k < order.len() && order[k] == u;
                assert(depends_on(edges, order[k], w));
            }
        }
        assert forall|b: usize| order.contains(b) <==> b != start && depends_transitively(
            edges,
            start,
            b,
        ) by {
            if order.contains(b) {
                let k = choose|k: int| 0 <= k < order.len() && order[k] == b;
                assert(depends_transitively(edges, start, order[k]));
            }
            if depends_transitively(edges, start, b) {
                let chain = choose|chain: Seq<usize>| #[trigger]
                    is_chain(edges, chain) && chain.first() == start && chain.last() == b;
                lemma_chain_stays_inside(edges, inside, chain, chain.len() - 1);
            }
        }
    }
}

/// The upstream nodes of a node of a well-formed plan are, each once, the
/// nodes other than itself that it depends on, directly or through others:
/// the transitive closure of the dependencies, without the node itself,
/// whether or not a cycle leads back to it.
pub proof fn law_upstream_of_is_closure(plan: PlanView, start: usize)
    requires
        plan.wf(),
        start < plan.nodes.len(),
    ensures
        plan.is_upstream(start, plan.upstream_of(start)),
{
    let edges = plan.edges;
    let found = predecessors(edges, start);
    let order = listed_with(Seq::empty(), found, start);
    lemma_listed_with(Seq::empty(), found, start);
    assert(!Seq::<usize>::empty().contains(start));
    assert forall|k: int| 0 <= k < order.len() implies (#[trigger] order[k]) < plan.nodes.len()
        && depends_transitively(edges, start, order[k]) by {
        assert(order.contains(order[k]));
        lemma_predecessors_are_edges(edges, start, order[k]);
        lemma_direct(edges, start, order[k]);
        let e = choose|e: int| 0 <= e < edges.len() && edges[e] == (order[k], start);
        assert(edges[e].0 == order[k]);
    }
    assert forall|w: usize| #[trigger] depends_on(edges, start, w) implies w == start
        || order.contains(w) by {
        lemma_predecessors_are_edges(edges, start, w);
    }
    lemma_traverse(plan, start, order, 0, plan.nodes.len());
}

/// The same of the plan of a manifest: the upstream nodes of an entry are,
/// each once, the other entries that can be reached from it by going, one
/// step or more, from an entry to one whose key it lists.
pub proof fn law_upstream_in_manifest(m: ManifestView, start: usize)
    requires
        m.wf(),
        resolves(m),
        start < m.repo.len(),
    ensures
        plan_of(m).is_upstream(start, plan_of(m).upstream_of(start)),
        forall|x: int, y: int|
            0 <= x < m.repo.len() && 0 <= y < m.repo.len() ==> (#[trigger] depends_on(
                plan_of(m).edges,
                x as usize,
                y as usize,
            ) <==> lists(m, x, y)),
{
    law_plan_well_formed(m);
    law_upstream_of_is_closure(plan_of(m), start);
    assert forall|x: int, y: int| 0 <= x < m.repo.len() && 0 <= y < m.repo.len() implies (
    #[trigger] depends_on(plan_of(m).edges, x as usize, y as usize) <==> lists(m, x, y)) by {
        law_edges_are_dependencies(m, x, y);
    }
}

} // verus!
