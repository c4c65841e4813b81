//! The plan: the dependency graph of a manifest, and the queries on it.

use crate::closure::{depends_on, depends_transitively};
use crate::error::{BuildPlanError, BuildPlanErrorView};
use crate::graph::{
    graph_add_edge, graph_add_node, graph_edges, graph_new, graph_node_count,
    graph_node_weight, graph_nodes,
    graph_predecessors, graph_successors, lemma_predecessors_are_edges,
    lemma_successors_are_edges, predecessors, successors, Graph,
};
use crate::index::RepoIndex;
use crate::manifest::{lemma_position_unique, Manifest, ManifestView};
use crate::repo::{Repo, RepoId};
use vstd::prelude::*;

verus! {

/// The repositories of the entries of `m`, in the order of the entries: the
/// nodes of its plan.
pub open spec fn manifest_nodes(m: ManifestView) -> Seq<RepoId> {
    Seq::new(m.repo.len(), |i: int| m.entry(i).details)
}

/// The edge for the `j`-th dependency of the entry at place `i`: it goes from
/// the node of the entry under the dependency's key to the node of the entry.
pub open spec fn edge_of(m: ManifestView, i: int, j: int) -> (usize, usize) {
    (m.position(m.entry(i).dependency_keys()[j]) as usize, i as usize)
}

/// The edges for the first `j` dependencies of the entry at place `i`.
pub open spec fn dependency_edges(m: ManifestView, i: int, j: int) -> Seq<(usize, usize)>
    decreases j,
{
    if j <= 0 {
        Seq::empty()
    } else {
        dependency_edges(m, i, j - 1).push(edge_of(m, i, j - 1))
    }
}

/// The edges for the first `i` entries of `m`, entry by entry and, within an
/// entry, in the order in which it lists its dependencies.
pub open spec fn manifest_edges(m: ManifestView, i: int) -> Seq<(usize, usize)>
    decreases i,
{
    if i <= 0 {
        Seq::empty()
    } else {
        manifest_edges(m, i - 1) + dependency_edges(
            m,
            i - 1,
            m.entry(i - 1).dependency_keys().len() as int,
        )
    }
}

/// The number of dependencies that the first `i` entries of `m` list.
pub open spec fn dependency_count(m: ManifestView, i: int) -> nat
    decreases i,
{
    if i <= 0 {
        0
    } else {
        dependency_count(m, i - 1) + m.entry(i - 1).dependency_keys().len()
    }
}

/// Every key that an entry depends on has an entry.
pub open spec fn resolves(m: ManifestView) -> bool {
    forall|i: int, j: int|
        0 <= i < m.repo.len() && 0 <= j < m.entry(i).dependency_keys().len() ==> m.has_key(
            #[trigger] m.entry(i).dependency_keys()[j],
        )
}

/// The `j`-th dependency of the entry at place `i` has no entry, and it is the
/// first such: those of the entries before, and those that the entry lists
/// before it, have one.
pub open spec fn is_first_missing(m: ManifestView, i: int, j: int) -> bool {
    &&& 0 <= i < m.repo.len()
    &&& 0 <= j < m.entry(i).dependency_keys().len()
    &&& !m.has_key(m.entry(i).dependency_keys()[j])
    &&& forall|a: int, b: int|
        0 <= a < i && 0 <= b < m.entry(a).dependency_keys().len() ==> m.has_key(
            #[trigger] m.entry(a).dependency_keys()[b],
        )
    &&& forall|b: int| 0 <= b < j ==> m.has_key(#[trigger] m.entry(i).dependency_keys()[b])
}

/// The node that each repository resolves to. Where several nodes carry the
/// same repository, it is the last of them.
pub open spec fn node_index(nodes: Seq<RepoId>) -> Map<RepoId, usize>
    decreases nodes.len(),
{
    if nodes.len() == 0 {
        Map::empty()
    } else {
        node_index(nodes.drop_last()).insert(nodes.last(), (nodes.len() - 1) as usize)
    }
}

/// `order`, and behind it those of `nodes` that are neither `start` nor
/// listed yet, each once and in their order.
pub open spec fn listed_with(order: Seq<usize>, nodes: Seq<usize>, start: usize) -> Seq<usize>
    decreases nodes.len(),
{
    if nodes.len() == 0 {
        order
    } else {
        let sofar = listed_with(order, nodes.drop_last(), start);
        if nodes.last() == start || sofar.contains(nodes.last()) {
            sofar
        } else {
            sofar.push(nodes.last())
        }
    }
}

/// Goes on from `order[head]`: behind `order` come the nodes that
/// `order[head]` depends on directly and that are new, then those of the next
/// node of the list, and so on to the end of the list; `rounds` bounds the
/// number of nodes that are gone on from.
pub open spec fn traverse(
    edges: Seq<(usize, usize)>,
    start: usize,
    order: Seq<usize>,
    head: int,
    rounds: nat,
) -> Seq<usize>
    decreases rounds,
{
    if rounds == 0 || head < 0 || head >= order.len() {
        order
    } else {
        traverse(
            edges,
            start,
            listed_with(order, predecessors(edges, order[head]), start),
            head + 1,
            (rounds - 1) as nat,
        )
    }
}

/// What a [`Plan`] stands for in specifications: what its nodes carry, and its
/// edges in the order in which they were added.
pub struct PlanView {
    pub nodes: Seq<RepoId>,
    pub edges: Seq<(usize, usize)>,
}

impl PlanView {
    /// Every edge joins two nodes of the plan.
    pub open spec fn wf(self) -> bool {
        &&& self.nodes.len() <= usize::MAX
        &&& forall|k: int|
            0 <= k < self.edges.len() ==> (#[trigger] self.edges[k]).0 < self.nodes.len()
                && self.edges[k].1 < self.nodes.len()
    }

    /// Whether a node carries `repo`.
    pub open spec fn has_repo(self, repo: RepoId) -> bool {
        node_index(self.nodes).contains_key(repo)
    }

    /// The node that `repo` resolves to.
    pub open spec fn node_of(self, repo: RepoId) -> usize {
        node_index(self.nodes)[repo]
    }

    /// What the nodes `ids` carry.
    pub open spec fn repos(self, ids: Seq<usize>) -> Seq<RepoId> {
        Seq::new(ids.len(), |k: int| self.nodes[ids[k] as int])
    }

    /// The repositories that depend directly on `repo`: one for each edge that
    /// leaves its node, that of the edge added last first.
    pub open spec fn neighbors(self, repo: RepoId) -> Seq<RepoId> {
        self.repos(successors(self.edges, self.node_of(repo)))
    }

    /// The nodes other than `start` that `start` depends on, directly or
    /// through others: first those it depends on directly, then those that
    /// the first of these depends on, and so on, each node where it is first
    /// met.
    pub open spec fn upstream_of(self, start: usize) -> Seq<usize> {
        traverse(
            self.edges,
            start,
            listed_with(Seq::empty(), predecessors(self.edges, start), start),
            0,
            self.nodes.len(),
        )
    }

    /// The repositories that `repo` depends on, directly or through others.
    pub open spec fn upstream(self, repo: RepoId) -> Seq<RepoId> {
        self.repos(self.upstream_of(self.node_of(repo)))
    }

    /// `ids` lists, each once, the nodes other than `a` that `a` depends on,
    /// directly or through others.
    pub open spec fn is_upstream(self, a: usize, ids: Seq<usize>) -> bool {
        &&& ids.no_duplicates()
        &&& forall|b: usize|
            ids.contains(b) <==> b != a && depends_transitively(self.edges, a, b)
    }
}

/// A plan is describing dependency relations between different repos.
///
/// A node in the plan's graph represents a repository.
///
/// An edge from `node a` to `node b` means `node b` depends on `node a`. So any
/// event happening in the `node a` should be reported to `node b`.
pub struct Plan {
    graph: Graph,
    repo_to_node: RepoIndex,
}

impl View for Plan {
    type V = PlanView;

    closed spec fn view(&self) -> PlanView {
        PlanView { nodes: graph_nodes(self.graph), edges: graph_edges(self.graph) }
    }
}

proof fn lemma_dependency_edge_count(m: ManifestView, i: int, j: int)
    requires
        0 <= j,
    ensures
        dependency_edges(m, i, j).len() == j,
    decreases j,
{
    if j > 0 {
        lemma_dependency_edge_count(m, i, j - 1);
    }
}

/// A plan has as many edges as the entries list dependencies.
pub proof fn lemma_edge_count(m: ManifestView, i: int)
    requires
        0 <= i,
    ensures
        manifest_edges(m, i).len() == dependency_count(m, i),
    decreases i,
{
    if i > 0 {
        lemma_edge_count(m, i - 1);
        lemma_dependency_edge_count(m, i - 1, m.entry(i - 1).dependency_keys().len() as int);
    }
}

/// What `node_index` holds: the repositories that the nodes carry, each with
/// the last node that carries it.
pub proof fn lemma_node_index(nodes: Seq<RepoId>, repo: RepoId)
    requires
        nodes.len() <= usize::MAX,
    ensures
        node_index(nodes).contains_key(repo) <==> nodes.contains(repo),
        nodes.contains(repo) ==> {
            let node = node_index(nodes)[repo];
            &&& node < nodes.len()
            &&& nodes[node as int] == repo
            &&& forall|k: int| node < k < nodes.len() ==> nodes[k] != repo
        },
    decreases nodes.len(),
{
    if nodes.len() > 0 {
        let rest = nodes.drop_last();
        lemma_node_index(rest, repo);
        if nodes.contains(repo) {
            let k = choose|k: int| 0 <= k < nodes.len() && nodes[k] == repo;
            if k < rest.len() {
                assert(rest[k] == repo);
            }
        }
        if rest.contains(repo) {
            let k = choose|k: int| 0 <= k < rest.len() && rest[k] == repo;
            assert(nodes[k] == repo);
        }
        if nodes.last() == repo {
            assert(nodes[nodes.len() - 1] == repo);
        } else if nodes.contains(repo) {
            let node = node_index(rest)[repo];
            assert(nodes[node as int] == rest[node as int]);
            assert forall|k: int| node < k < nodes.len() implies nodes[k] != repo by {
                if k < rest.len() {
                    assert(rest[k] == nodes[k]);
                }
            }
        }
    }
}

/// What `listed_with` gives: `order` first; then nothing that was listed or
/// is `start`; everything else of `nodes`; and nothing twice.
pub proof fn lemma_listed_with(order: Seq<usize>, nodes: Seq<usize>, start: usize)
    ensures
        order.len() <= listed_with(order, nodes, start).len(),
        listed_with(order, nodes, start).take(order.len() as int) == order,
        forall|x: usize|
            listed_with(order, nodes, start).contains(x) <==> order.contains(x) || (
            nodes.contains(x) && x != start),
        order.no_duplicates() ==> listed_with(order, nodes, start).no_duplicates(),
    decreases nodes.len(),
{
    let all = listed_with(order, nodes, start);
    if nodes.len() == 0 {
        assert(all.take(order.len() as int) == order);
    } else {
        let rest = nodes.drop_last();
        let sofar = listed_with(order, rest, start);
        let last = nodes.last();
        lemma_listed_with(order, rest, start);
        assert(all.take(order.len() as int) == sofar.take(order.len() as int));
        assert forall|x: usize| all.contains(x) <==> order.contains(x) || (nodes.contains(x)
            && x != start) by {
            if nodes.contains(x) {
                let at = choose|at: int| 0 <= at < nodes.len() && nodes[at] == x;
                if at < rest.len() {
                    assert(rest[at] == x);
                }
            }
            if rest.contains(x) {
                let at = choose|at: int| 0 <= at < rest.len() && rest[at] == x;
                assert(nodes[at] == x);
            }
            if x == last {
                assert(nodes[nodes.len() - 1] == x);
            }
            if all.contains(x) {
                let at = choose|at: int| 0 <= at < all.len() && all[at] == x;
                if at < sofar.len() {
                    assert(sofar[at] == x);
                }
            }
            if sofar.contains(x) {
                let at = choose|at: int| 0 <= at < sofar.len() && sofar[at] == x;
                assert(all[at] == x);
            }
            if x == last && all.len() > sofar.len() {
                assert(all[sofar.len() as int] == x);
            }
        }
        if order.no_duplicates() {
            assert forall|a: int, b: int|
                0 <= a < all.len() && 0 <= b < all.len() && a != b implies all[a] != all[b] by {
                if a < sofar.len() && b < sofar.len() {
                    assert(sofar[a] != sofar[b]);
                } else if a < sofar.len() {
                    assert(sofar.contains(sofar[a]));
                } else if b < sofar.len() {
                    assert(sofar.contains(sofar[b]));
                }
            }
        }
    }
}

/// The number of nodes that are not marked.
spec fn unvisited(marks: Seq<bool>) -> nat
    decreases marks.len(),
{
    if marks.len() == 0 {
        0
    } else if marks.last() {
        unvisited(marks.drop_last())
    } else {
        unvisited(marks.drop_last()) + 1
    }
}

/// Marking a node that was not marked leaves one unmarked node less.
proof fn lemma_mark(marks: Seq<bool>, node: int)
    requires
        0 <= node < marks.len(),
        !marks[node],
    ensures
        unvisited(marks.update(node, true)) + 1 == unvisited(marks),
    decreases marks.len(),
{
    let after = marks.update(node, true);
    if node == marks.len() - 1 {
        assert(after.drop_last() == marks.drop_last());
    } else {
        assert(after.drop_last() == marks.drop_last().update(node, true));
        lemma_mark(marks.drop_last(), node);
    }
}

impl Plan {
    /// The index resolves each repository as [`node_index`] says.
    pub closed spec fn indexed(&self) -> bool {
        self.repo_to_node.wf() && self.repo_to_node@ == node_index(self@.nodes)
    }

    /// Whether the plan is well formed: its edges join nodes of its own, and
    /// its index agrees with its nodes.
    pub open spec fn wf(&self) -> bool {
        self@.wf() && self.indexed()
    }

    /// Try to generate a `Plan` from a `Manifest`.
    ///
    /// Each entry of the manifest becomes a node, in the order of the keys.
    /// Then each dependency of each entry becomes an edge from the node of the
    /// entry that stands under the dependency's key to the node of the entry
    /// that lists it. The first dependency without an entry under its key ends
    /// the work: no plan is made then.
    pub fn try_from_manifest(manifest: Manifest) -> (result: Result<Self, BuildPlanError>)
        requires
            manifest.wf(),
        ensures
            result is Ok <==> resolves(manifest@),
            match result {
                Ok(plan) => {
                    &&& plan.wf()
                    &&& plan@.nodes == manifest_nodes(manifest@)
                    &&& plan@.edges == manifest_edges(manifest@, manifest@.repo.len() as int)
                    &&& plan@.nodes.len() == manifest@.repo.len()
                    &&& plan@.edges.len() == dependency_count(
                        manifest@,
                        manifest@.repo.len() as int,
                    )
                },
                Err(e) => exists|i: int, j: int| #[trigger]
                    is_first_missing(manifest@, i, j) && e@
                        == BuildPlanErrorView::MissingProjectDefinition(
                        manifest@.entry(i).details.name,
                        manifest@.entry(i).dependency_keys()[j],
                    ),
            },
    {
        let ghost m = manifest@;
        let n = manifest.len();
        let mut graph = graph_new();
        let mut repo_to_node = RepoIndex::new();

        // Create nodes: one for each entry, in the order of the keys.
        let mut i: usize = 0;
        while i < n
            invariant
                m == manifest@,
                i <= n == m.repo.len(),
                graph_nodes(graph) == manifest_nodes(m).take(i as int),
                graph_edges(graph) == Seq::<(usize, usize)>::empty(),
                repo_to_node.wf(),
                repo_to_node@ == node_index(graph_nodes(graph)),
            decreases n - i,
        {
            let details = manifest.entry_at(i).details();
            let ghost before = graph_nodes(graph);
            let node = graph_add_node(&mut graph, details.clone());
            repo_to_node.insert(details.clone(), node);
            proof {
                assert(before.push(details@).drop_last() == before);
                assert(manifest_nodes(m).take(i + 1) == before.push(details@));
            }
            i += 1;
        }
        assert(manifest_nodes(m).take(n as int) == manifest_nodes(m));

        // Add edges between nodes with dependency information.
        let mut i: usize = 0;
        while i < n
            invariant
                m == manifest@,
                manifest.wf(),
                i <= n == m.repo.len(),
                graph_nodes(graph) == manifest_nodes(m),
                graph_edges(graph) == manifest_edges(m, i as int),
                forall|k: int|
                    0 <= k < graph_edges(graph).len() ==> (#[trigger] graph_edges(graph)[k]).0 < n
                        && graph_edges(graph)[k].1 < n,
                forall|a: int, b: int|
                    0 <= a < i && 0 <= b < m.entry(a).dependency_keys().len() ==> m.has_key(
                        #[trigger] m.entry(a).dependency_keys()[b],
                    ),
            decreases n - i,
        {
            let entry = manifest.entry_at(i);
            let listed = entry.dependencies();
            let mut j: usize = 0;
            while j < listed.len()
                invariant
                    m == manifest@,
                    manifest.wf(),
                        i < n == m.repo.len(),
                    entry@ == m.entry(i as int),
                    listed.deep_view() == m.entry(i as int).dependency_keys(),
                    j <= listed.len(),
                    graph_nodes(graph) == manifest_nodes(m),
                    graph_edges(graph) == manifest_edges(m, i as int) + dependency_edges(
                        m,
                        i as int,
                        j as int,
                    ),
                    forall|k: int|
                        0 <= k < graph_edges(graph).len() ==> (#[trigger] graph_edges(graph)[k]).0
                            < n && graph_edges(graph)[k].1 < n,
                    forall|a: int, b: int|
                        0 <= a < i && 0 <= b < m.entry(a).dependency_keys().len() ==> m.has_key(
                            #[trigger] m.entry(a).dependency_keys()[b],
                        ),
                    forall|b: int|
                        0 <= b < j ==> m.has_key(#[trigger] m.entry(i as int).dependency_keys()[b]),
                decreases listed.len() - j,
            {
                let key = listed[j];
                assert(key@ == listed.deep_view()[j as int]);
                match manifest.position(key.as_str()) {
                    None => {
                        let name = entry.details().name().to_owned();
                        assert(is_first_missing(m, i as int, j as int));
                        return Err(BuildPlanError::MissingProjectDefinition(name, key.clone()));
                    },
                    Some(dependency) => {
                        proof {
                            lemma_position_unique(m, dependency as int);
                        }
                        graph_add_edge(&mut graph, dependency, i);
                        assert(graph_edges(graph) == manifest_edges(m, i as int)
                            + dependency_edges(m, i as int, j as int + 1));
                    },
                }
                j += 1;
            }
            i += 1;
        }
        proof {
            assert(resolves(m));
            lemma_edge_count(m, n as int);
        }
        Ok(Self { graph, repo_to_node })
    }

    /// Returns the immediate neighbors of the given repo: the repositories
    /// that depend on it directly, the one whose dependency was added to the
    /// graph last first.
    pub fn neighbors(&self, repo: Repo) -> (result: Result<Vec<&Repo>, BuildPlanError>)
        requires
            self.wf(),
        ensures
            match result {
                Ok(repos) => self@.has_repo(repo@) && repos.deep_view() == self@.neighbors(repo@),
                Err(e) => !self@.has_repo(repo@) && e@ == BuildPlanErrorView::RepoNotFoundInGraph(
                    repo@,
                ),
            },
    {
        match self.repo_to_node.get(&repo) {
            None => Err(BuildPlanError::RepoNotFoundInGraph(repo)),
            Some(node) => {
                proof {
                    lemma_node_index(self@.nodes, repo@);
                }
                let ids = graph_successors(&self.graph, node);
                proof {
                    assert forall|k: int| 0 <= k < ids@.len() implies (#[trigger] ids@[k])
                        < self@.nodes.len() by {
                        lemma_successors_are_edges(self@.edges, node, ids@[k]);
                        let e = choose|e: int|
                            0 <= e < self@.edges.len() && self@.edges[e] == (node, ids@[k]);
                        assert(self@.edges[e].1 == ids@[k]);
                    }
                }
                Ok(self.repos_of(&ids))
            },
        }
    }

    /// Returns the repositories that the given repo depends on, directly or
    /// through others: each once, and never the given repo itself, whether or
    /// not a cycle of dependencies leads back to it. First come those that it
    /// depends on directly, the one whose dependency was added to the graph
    /// last first; then those that the first of these depends on; and so on.
    pub fn upstream_repos(&self, repo: Repo) -> (result: Result<Vec<&Repo>, BuildPlanError>)
        requires
            self.wf(),
        ensures
            match result {
                Ok(repos) => {
                    &&& self@.has_repo(repo@)
                    &&& repos.deep_view() == self@.upstream(repo@)
                    &&& self@.is_upstream(
                        self@.node_of(repo@),
                        self@.upstream_of(self@.node_of(repo@)),
                    )
                },
                Err(e) => !self@.has_repo(repo@) && e@ == BuildPlanErrorView::RepoNotFoundInGraph(
                    repo@,
                ),
            },
    {
        match self.repo_to_node.get(&repo) {
            None => Err(BuildPlanError::RepoNotFoundInGraph(repo)),
            Some(node) => {
                proof {
                    lemma_node_index(self@.nodes, repo@);
                }
                let ids = self.upstream_nodes(node);
                Ok(self.repos_of(&ids))
            },
        }
    }

    /// What the nodes `ids` carry.
    fn repos_of(&self, ids: &Vec<usize>) -> (repos: Vec<&Repo>)
        requires
            forall|k: int| 0 <= k < ids@.len() ==> (#[trigger] ids@[k]) < self@.nodes.len(),
        ensures
            repos.deep_view() == self@.repos(ids@),
    {
        let mut repos: Vec<&Repo> = Vec::new();
        let mut k: usize = 0;
        while k < ids.len()
            invariant
                k <= ids.len(),
                repos@.len() == k,
                forall|l: int| 0 <= l < ids@.len() ==> (#[trigger] ids@[l]) < self@.nodes.len(),
                forall|l: int| 0 <= l < k ==> (#[trigger] repos@[l])@ == self@.nodes[ids@[l] as int],
            decreases ids.len() - k,
        {
            repos.push(graph_node_weight(&self.graph, ids[k]));
            k += 1;
        }
        assert(repos.deep_view() =~= self@.repos(ids@));
        repos
    }

    /// Marks the nodes that `node` depends on directly and that were not
    /// marked, and puts them behind the others in `order`.
    fn visit_dependencies(
        &self,
        start: usize,
        node: usize,
        visited: &mut Vec<bool>,
        order: &mut Vec<usize>,
    )
        requires
            self@.wf(),
            node < self@.nodes.len(),
            old(visited)@.len() == self@.nodes.len(),
            forall|w: usize|
                w < self@.nodes.len() ==> (#[trigger] old(visited)@[w as int] <==> (w == start
                    || old(order)@.contains(w))),
        ensures
            final(visited)@.len() == self@.nodes.len(),
            forall|w: usize|
                w < self@.nodes.len() ==> (#[trigger] final(visited)@[w as int] <==> (w == start
                    || final(order)@.contains(w))),
            final(order)@ == listed_with(
                old(order)@,
                predecessors(self@.edges, node),
                start,
            ),
            unvisited(final(visited)@) + final(order)@.len() == unvisited(old(visited)@) + old(
                order,
            )@.len(),
    {
        let ghost edges = self@.edges;
        let ghost n = self@.nodes.len();
        let dependencies = graph_predecessors(&self.graph, node);
        proof {
            assert forall|k: int| 0 <= k < dependencies@.len() implies (
            #[trigger] dependencies@[k]) < n by {
                lemma_predecessors_are_edges(edges, node, dependencies@[k]);
                let e = choose|e: int|
                    0 <= e < edges.len() && edges[e] == (dependencies@[k], node);
                assert(edges[e].0 == dependencies@[k]);
            }
            assert(dependencies@.take(0) == Seq::<usize>::empty());
        }
        let mut k: usize = 0;
        while k < dependencies.len()
            invariant
                k <= dependencies.len(),
                n == self@.nodes.len(),
                forall|l: int| 0 <= l < dependencies@.len() ==> (#[trigger] dependencies@[l]) < n,
                visited@.len() == n,
                forall|w: usize|
                    w < n ==> (#[trigger] visited@[w as int] <==> (w == start || order@.contains(
                        w,
                    ))),
                order@ == listed_with(old(order)@, dependencies@.take(k as int), start),
                unvisited(visited@) + order@.len() == unvisited(old(visited)@) + old(
                    order,
                )@.len(),
            decreases dependencies.len() - k,
        {
            let w = dependencies[k];
            let ghost listed = order@;
            let ghost marks = visited@;
            proof {
                assert(dependencies@.take(k + 1).drop_last() == dependencies@.take(k as int));
            }
            if !visited[w] {
                visited.set(w, true);
                order.push(w);
                proof {
                    lemma_mark(marks, w as int);
                    assert forall|x: usize| x < n implies (#[trigger] visited@[x as int] <==> (x
                        == start || order@.contains(x))) by {
                        if listed.contains(x) {
                            let at = choose|at: int| 0 <= at < listed.len() && listed[at] == x;
                            assert(order@[at] == x);
                        }
                        if x == w {
                            assert(order@[listed.len() as int] == x);
                        }
                        if order@.contains(x) && x != w {
                            let at = choose|at: int| 0 <= at < order@.len() && order@[at] == x;
                            assert(listed[at] == x);
                        }
                    }
                }
            }
            k += 1;
        }
        proof {
            assert(dependencies@.take(k as int) == dependencies@);
        }
    }

    /// The nodes other than `start` that `start` depends on, directly or
    /// through others, each once: first what it depends on directly, then what
    /// those depend on, and so on.
    fn upstream_nodes(&self, start: usize) -> (order: Vec<usize>)
        requires
            self@.wf(),
            start < self@.nodes.len(),
        ensures
            order@ == self@.upstream_of(start),
            self@.is_upstream(start, order@),
            forall|k: int| 0 <= k < order@.len() ==> (#[trigger] order@[k]) < self@.nodes.len(),
    {
        let ghost edges = self@.edges;
        let ghost n = self@.nodes.len();
        let count = graph_node_count(&self.graph);
        let mut visited: Vec<bool> = Vec::new();
        let mut filled: usize = 0;
        while filled < count
            invariant
                filled <= count,
                visited@.len() == filled,
                unvisited(visited@) == filled,
                forall|w: int| 0 <= w < filled ==> !(#[trigger] visited@[w]),
            decreases count - filled,
        {
            let ghost marks = visited@;
            visited.push(false);
            assert(visited@.drop_last() == marks);
            filled += 1;
        }
        proof {
            lemma_mark(visited@, start as int);
        }
        visited.set(start, true);
        let mut order: Vec<usize> = Vec::new();
        self.visit_dependencies(start, start, &mut visited, &mut order);
        proof {
            lemma_listed_with(Seq::empty(), predecessors(edges, start), start);
            assert(!Seq::<usize>::empty().contains(start));
            assert(!order@.contains(start));
            assert forall|k: int| 0 <= k < order@.len() implies (#[trigger] order@[k]) < n
                && depends_transitively(edges, start, order@[k]) by {
                assert(order@.contains(order@[k]));
                lemma_predecessors_are_edges(edges, start, order@[k]);
                crate::closure::lemma_direct(edges, start, order@[k]);
                let e = choose|e: int| 0 <= e < edges.len() && edges[e] == (order@[k], start);
                assert(edges[e].0 == order@[k]);
            }
            assert forall|w: usize| #[trigger] depends_on(edges, start, w) implies w < n
                && visited@[w as int] by {
                lemma_predecessors_are_edges(edges, start, w);
                let e = choose|e: int| 0 <= e < edges.len() && edges[e] == (w, start);
                assert(edges[e].0 == w);
            }
        }
        let mut head: usize = 0;
        while head < order.len()
            invariant
                self@.wf(),
                edges == self@.edges,
                n == self@.nodes.len(),
                start < n,
                visited@.len() == n,
                head <= order@.len(),
                unvisited(visited@) + order@.len() + 1 == n,
                traverse(edges, start, order@, head as int, (n - head) as nat)
                    == self@.upstream_of(start),
                forall|w: usize|
                    w < n ==> (#[trigger] visited@[w as int] <==> (w == start || order@.contains(
                        w,
                    ))),
                order@.no_duplicates(),
                !order@.contains(start),
                forall|k: int|
                    0 <= k < order@.len() ==> (#[trigger] order@[k]) < n && depends_transitively(
                        edges,
                        start,
                        order@[k],
                    ),
                forall|k: int, w: usize|
                    0 <= k < head && #[trigger] depends_on(edges, #[trigger] order@[k], w)
                        ==> w < n && visited@[w as int],
                forall|w: usize| #[trigger]
                    depends_on(edges, start, w) ==> w < n && visited@[w as int],
            decreases n - head,
        {
            let node = order[head];
            let ghost listed = order@;
            self.visit_dependencies(start, node, &mut visited, &mut order);
            proof {
                lemma_listed_with(listed, predecessors(edges, node), start);
                assert forall|x: usize| listed.contains(x) implies order@.contains(x) by {
                    let at = choose|at: int| 0 <= at < listed.len() && listed[at] == x;
                    assert(order@.take(listed.len() as int)[at] == x);
                }
                assert forall|k: int| 0 <= k < order@.len() implies (#[trigger] order@[k]) < n
                    && depends_transitively(edges, start, order@[k]) by {
                    if k < listed.len() {
                        assert(order@.take(listed.len() as int)[k] == listed[k]);
                    } else {
                        assert(order@.contains(order@[k]));
                        if listed.contains(order@[k]) {
                            let at = choose|at: int|
                                0 <= at < listed.len() && listed[at] == order@[k];
                            assert(order@.take(listed.len() as int)[at] == order@[at]);
                        }
                        lemma_predecessors_are_edges(edges, node, order@[k]);
                        crate::closure::lemma_one_more(edges, start, node, order@[k]);
                        let e = choose|e: int|
                            0 <= e < edges.len() && edges[e] == (order@[k], node);
                        assert(edges[e].0 == order@[k]);
                    }
                }
                assert forall|k: int, w: usize|
                    0 <= k < head + 1 && #[trigger] depends_on(
                        edges,
                        #[trigger] order@[k],
                        w,
                    ) implies w < n && visited@[w as int] by {
                    assert(order@.take(listed.len() as int)[k] == listed[k]);
                    let e = choose|e: int| 0 <= e < edges.len() && edges[e] == (w, order@[k]);
                    assert(edges[e].0 == w);
                    if k == head {
                        lemma_predecessors_are_edges(edges, node, w);
                    } else {
                        assert(depends_on(edges, listed[k], w));
                        if w != start {
                            assert(listed.contains(w));
                        }
                    }
                }
                assert forall|w: usize| #[trigger] depends_on(edges, start, w) implies w < n
                    && visited@[w as int] by {
                    if w != start {
                        assert(listed.contains(w));
                    }
                }
            }
            head += 1;
        }
        proof {
            let inside = Set::new(|w: usize| w == start || order@.contains(w));
            assert forall|u: usize, w: usize|
                inside.contains(u) && #[trigger] depends_on(edges, u, w) implies inside.contains(
                w,
            ) by {
                if u != start {
                    let k = choose|k: int| 0 <= k < order@.len() && order@[k] == u;
                    assert(depends_on(edges, order@[k], w));
                }
            }
            assert forall|b: usize| order@.contains(b) <==> b != start && depends_transitively(
                edges,
                start,
                b,
            ) by {
                if order@.contains(b) {
                    let k = choose|k: int| 0 <= k < order@.len() && order@[k] == b;
                    assert(depends_transitively(edges, start, order@[k]));
                }
                if depends_transitively(edges, start, b) {
                    let chain = choose|chain: Seq<usize>| #[trigger]
                        crate::closure::is_chain(edges, chain) && chain.first() == start
                            && chain.last() == b;
                    crate::closure::lemma_chain_stays_inside(
                        edges,
                        inside,
                        chain,
                        chain.len() - 1,
                    );
                }
            }
        }
        order
    }

    /// Returns a reference to the stable graph describing the dependency relation.
    pub fn graph(&self) -> (graph: &Graph)
        ensures
            graph_nodes(*graph) == self@.nodes,
            graph_edges(*graph) == self@.edges,
    {
        &self.graph
    }
}

} // verus!
