//! The index from a repository to the node that stands for it.

use crate::repo::{Repo, RepoId};
use vstd::prelude::*;

verus! {

/// Whether some pair of `pairs` is for `repo`.
spec fn holds(pairs: Seq<(RepoId, usize)>, repo: RepoId) -> bool {
    exists|i: int| 0 <= i < pairs.len() && (#[trigger] pairs[i]).0 == repo
}

/// The place of a pair for `repo`, where there is one.
spec fn place(pairs: Seq<(RepoId, usize)>, repo: RepoId) -> int {
    choose|i: int| 0 <= i < pairs.len() && (#[trigger] pairs[i]).0 == repo
}

/// No repository has two pairs.
spec fn distinct(pairs: Seq<(RepoId, usize)>) -> bool {
    forall|i: int, j: int|
        0 <= i < j < pairs.len() ==> (#[trigger] pairs[i]).0 != (#[trigger] pairs[j]).0
}

/// The map that the pairs make.
spec fn as_map(pairs: Seq<(RepoId, usize)>) -> Map<RepoId, usize> {
    Map::new(|repo: RepoId| holds(pairs, repo), |repo: RepoId| pairs[place(pairs, repo)].1)
}

proof fn lemma_place(pairs: Seq<(RepoId, usize)>, i: int)
    requires
        distinct(pairs),
        0 <= i < pairs.len(),
    ensures
        holds(pairs, pairs[i].0),
        place(pairs, pairs[i].0) == i,
        as_map(pairs).contains_key(pairs[i].0),
        as_map(pairs)[pairs[i].0] == pairs[i].1,
{
    let p = place(pairs, pairs[i].0);
    assert(pairs[p].0 == pairs[i].0);
}

proof fn lemma_updated(pairs: Seq<(RepoId, usize)>, i: int, node: usize)
    requires
        distinct(pairs),
        0 <= i < pairs.len(),
    ensures
        distinct(pairs.update(i, (pairs[i].0, node))),
        as_map(pairs.update(i, (pairs[i].0, node))) == as_map(pairs).insert(pairs[i].0, node),
{
    let repo = pairs[i].0;
    let after = pairs.update(i, (repo, node));
    assert forall|a: int, b: int| 0 <= a < b < after.len() implies (#[trigger] after[a]).0 != (
    #[trigger] after[b]).0 by {
        assert(after[a].0 == pairs[a].0 && after[b].0 == pairs[b].0);
    }
    assert forall|r: RepoId| holds(after, r) == holds(pairs, r) by {
        if holds(after, r) {
            assert(pairs[place(after, r)].0 == r);
        }
        if holds(pairs, r) {
            assert(after[place(pairs, r)].0 == r);
        }
    }
    lemma_place(pairs, i);
    assert forall|r: RepoId| holds(after, r) implies as_map(after)[r] == as_map(pairs).insert(
        repo,
        node,
    )[r] by {
        let p = place(after, r);
        lemma_place(after, p);
        lemma_place(pairs, p);
    }
    assert(as_map(after) =~= as_map(pairs).insert(repo, node));
}

proof fn lemma_pushed(pairs: Seq<(RepoId, usize)>, repo: RepoId, node: usize)
    requires
        distinct(pairs),
        !holds(pairs, repo),
    ensures
        distinct(pairs.push((repo, node))),
        as_map(pairs.push((repo, node))) == as_map(pairs).insert(repo, node),
{
    let after = pairs.push((repo, node));
    assert forall|a: int, b: int| 0 <= a < b < after.len() implies (#[trigger] after[a]).0 != (
    #[trigger] after[b]).0 by {
        assert(after[a] == pairs[a]);
        if b < pairs.len() {
            assert(after[b] == pairs[b]);
        }
    }
    assert forall|r: RepoId| holds(after, r) == (holds(pairs, r) || r == repo) by {
        if holds(after, r) {
            let p = place(after, r);
            if p < pairs.len() {
                assert(pairs[p].0 == r);
            }
        }
        if holds(pairs, r) {
            assert(after[place(pairs, r)].0 == r);
        }
        if r == repo {
            assert(after[pairs.len() as int].0 == r);
        }
    }
    assert forall|r: RepoId| holds(after, r) implies as_map(after)[r] == as_map(pairs).insert(
        repo,
        node,
    )[r] by {
        let p = place(after, r);
        lemma_place(after, p);
        if p < pairs.len() {
            assert(pairs[p] == after[p]);
            lemma_place(pairs, p);
        }
    }
    assert(as_map(after) =~= as_map(pairs).insert(repo, node));
}

/// A map from repositories to nodes, kept as a list in which no repository
/// occurs twice.
pub struct RepoIndex {
    entries: Vec<(Repo, usize)>,
}

impl View for RepoIndex {
    type V = Map<RepoId, usize>;

    closed spec fn view(&self) -> Map<RepoId, usize> {
        as_map(self.pairs())
    }
}

impl RepoIndex {
    spec fn pairs(&self) -> Seq<(RepoId, usize)> {
        Seq::new(self.entries@.len(), |i: int| (self.entries@[i].0@, self.entries@[i].1))
    }

    /// No repository occurs twice.
    pub closed spec fn wf(&self) -> bool {
        distinct(self.pairs())
    }

    /// An index that holds nothing.
    pub fn new() -> (index: Self)
        ensures
            index.wf(),
            index@ == Map::<RepoId, usize>::empty(),
    {
        let index = Self { entries: Vec::new() };
        assert(index@ =~= Map::<RepoId, usize>::empty());
        index
    }

    /// Lets `repo` stand for `node`, whatever it stood for before.
    pub fn insert(&mut self, repo: Repo, node: usize)
        requires
            old(self).wf(),
        ensures
            final(self).wf(),
            final(self)@ == old(self)@.insert(repo@, node),
    {
        let ghost before = self.pairs();
        let mut i: usize = 0;
        while i < self.entries.len() && !(self.entries[i].0 == repo)
            invariant
                i <= self.entries.len(),
                self.pairs() == before,
                forall|j: int| 0 <= j < i ==> (#[trigger] before[j]).0 != repo@,
            decreases self.entries.len() - i,
        {
            i += 1;
        }
        if i < self.entries.len() {
            self.entries.remove(i);
            self.entries.insert(i, (repo, node));
            proof {
                assert(self.pairs() =~= before.update(i as int, (before[i as int].0, node)));
                lemma_updated(before, i as int, node);
            }
        } else {
            self.entries.push((repo, node));
            proof {
                assert(self.pairs() =~= before.push((repo@, node)));
                if holds(before, repo@) {
                    assert(before[place(before, repo@)].0 == repo@);
                }
                lemma_pushed(before, repo@, node);
            }
        }
    }

    /// The node that `repo` stands for, if it stands for one.
    pub fn get(&self, repo: &Repo) -> (node: Option<usize>)
        requires
            self.wf(),
        ensures
            node == if self@.contains_key(repo@) {
                Some(self@[repo@])
            } else {
                None
            },
    {
        let mut i: usize = 0;
        while i < self.entries.len()
            invariant
                self.wf(),
                i <= self.entries.len(),
                forall|j: int| 0 <= j < i ==> (#[trigger] self.pairs()[j]).0 != repo@,
            decreases self.entries.len() - i,
        {
            if self.entries[i].0 == *repo {
                proof {
                    lemma_place(self.pairs(), i as int);
                }
                return Some(self.entries[i].1);
            }
            i += 1;
        }
        proof {
            if holds(self.pairs(), repo@) {
                assert(self.pairs()[place(self.pairs(), repo@)].0 == repo@);
            }
        }
        None
    }
}

} // verus!
