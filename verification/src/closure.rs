//! Dependencies of dependencies: the transitive closure of the edges of a plan.
//!
//! An edge goes from a repository to one that depends on it. So a node
//! depends directly on the nodes from which an edge enters it.

use vstd::prelude::*;

verus! {

/// `x` depends directly on `y`: an edge goes from `y` to `x`.
pub open spec fn depends_on(edges: Seq<(usize, usize)>, x: usize, y: usize) -> bool {
    edges.contains((y, x))
}

/// Each node of `chain` but the last depends directly on the one behind it.
pub open spec fn is_chain(edges: Seq<(usize, usize)>, chain: Seq<usize>) -> bool {
    &&& chain.len() >= 2
    &&& forall|k: int|
        0 <= k < chain.len() - 1 ==> depends_on(edges, #[trigger] chain[k], chain[k + 1])
}

/// `x` depends on `y`, directly or through other nodes: a chain of one step or
/// more leads from `x` to `y`.
pub open spec fn depends_transitively(edges: Seq<(usize, usize)>, x: usize, y: usize) -> bool {
    exists|chain: Seq<usize>| #[trigger]
        is_chain(edges, chain) && chain.first() == x && chain.last() == y
}

/// A direct dependency is a dependency.
pub proof fn lemma_direct(edges: Seq<(usize, usize)>, x: usize, y: usize)
    requires
        depends_on(edges, x, y),
    ensures
        depends_transitively(edges, x, y),
{
    let chain = seq![x, y];
    assert(is_chain(edges, chain));
    assert(chain.first() == x && chain.last() == y);
}

/// What a dependency depends on directly is a dependency too.
pub proof fn lemma_one_more(edges: Seq<(usize, usize)>, x: usize, y: usize, z: usize)
    requires
        depends_transitively(edges, x, y),
        depends_on(edges, y, z),
    ensures
        depends_transitively(edges, x, z),
{
    let chain = choose|chain: Seq<usize>| #[trigger]
        is_chain(edges, chain) && chain.first() == x && chain.last() == y;
    let longer = chain.push(z);
    assert forall|k: int| 0 <= k < longer.len() - 1 implies depends_on(
        edges,
        #[trigger] longer[k],
        longer[k + 1],
    ) by {
        if k < chain.len() - 1 {
            assert(longer[k] == chain[k] && longer[k + 1] == chain[k + 1]);
        }
    }
    assert(is_chain(edges, longer));
    assert(longer.first() == x && longer.last() == z);
}

/// A set that holds with each of its nodes what the node depends on directly
/// holds every node of a chain that starts in it.
pub proof fn lemma_chain_stays_inside(
    edges: Seq<(usize, usize)>,
    inside: Set<usize>,
    chain: Seq<usize>,
    k: int,
)
    requires
        is_chain(edges, chain),
        inside.contains(chain.first()),
        forall|u: usize, w: usize|
            inside.contains(u) && #[trigger] depends_on(edges, u, w) ==> inside.contains(w),
        0 <= k < chain.len(),
    ensures
        inside.contains(chain[k]),
    decreases k,
{
    if k > 0 {
        lemma_chain_stays_inside(edges, inside, chain, k - 1);
        assert(depends_on(edges, chain[k - 1], chain[k - 1 + 1]));
    }
}

} // verus!
