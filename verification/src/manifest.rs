//! The manifest: the repositories that take part, each under a key, and the
//! keys of those it depends on.

use crate::repo::{Repo, RepoId};
use crate::text::{
    before, lemma_text_lt_irreflexive, lemma_text_lt_total, lemma_text_lt_transitive, same,
    text_lt,
};
use vstd::prelude::*;

verus! {

/// What a [`RepoEntry`] stands for in specifications.
pub struct RepoEntryView {
    pub details: RepoId,
    pub dependencies: Option<Seq<Seq<char>>>,
}

impl RepoEntryView {
    /// The keys that the entry depends on, in the order in which it lists them.
    /// An entry without a list depends on nothing.
    pub open spec fn dependency_keys(self) -> Seq<Seq<char>> {
        match self.dependencies {
            Some(keys) => keys,
            None => Seq::empty(),
        }
    }
}

/// A repository entry in the manifest, describing a repository and its dependencies.
#[derive(Clone, Debug, PartialEq, Eq)]
pub struct RepoEntry {
    details: Repo,
    /// Dependencies of this repo
    dependencies: Option<Vec<String>>,
}

impl View for RepoEntry {
    type V = RepoEntryView;

    closed spec fn view(&self) -> RepoEntryView {
        RepoEntryView {
            details: self.details@,
            dependencies: self.dependencies.deep_view(),
        }
    }
}

impl RepoEntry {
    pub fn new(details: Repo, dependencies: Option<Vec<String>>) -> (entry: Self)
        ensures
            entry@.details == details@,
            entry@.dependencies == dependencies.deep_view(),
    {
        Self { details, dependencies }
    }

    /// Returns a reference to underlying `Repo`.
    pub fn details(&self) -> (details: &Repo)
        ensures
            details@ == self@.details,
    {
        &self.details
    }

    /// Returns the dependencies described in this entry, in their order.
    pub fn dependencies(&self) -> (keys: Vec<&String>)
        ensures
            keys.deep_view() == self@.dependency_keys(),
    {
        let mut keys: Vec<&String> = Vec::new();
        match &self.dependencies {
            Some(listed) => {
                let mut i: usize = 0;
                while i < listed.len()
                    invariant
                        i <= listed.len(),
                        keys@.len() == i,
                        forall|j: int| 0 <= j < i ==> (#[trigger] keys@[j])@ == listed@[j]@,
                    decreases listed.len() - i,
                {
                    keys.push(&listed[i]);
                    i += 1;
                }
                assert(keys.deep_view() =~= listed.deep_view());
            },
            None => {
                assert(keys.deep_view() =~= Seq::<Seq<char>>::empty());
            },
        }
        keys
    }
}

/// What a [`Manifest`] stands for in specifications: its entries under their
/// keys, in the order of the keys, and the repository that it is the manifest of.
pub struct ManifestView {
    pub repo: Seq<(Seq<char>, RepoEntryView)>,
    pub current_repo: RepoId,
}

impl ManifestView {
    /// The key of the entry at place `i`.
    pub open spec fn key(self, i: int) -> Seq<char> {
        self.repo[i].0
    }

    /// The entry at place `i`.
    pub open spec fn entry(self, i: int) -> RepoEntryView {
        self.repo[i].1
    }

    /// Whether some entry stands under `key`.
    pub open spec fn has_key(self, key: Seq<char>) -> bool {
        exists|i: int| 0 <= i < self.repo.len() && #[trigger] self.key(i) == key
    }

    /// The place of the entry under `key`, where there is one.
    pub open spec fn position(self, key: Seq<char>) -> int {
        choose|i: int| 0 <= i < self.repo.len() && #[trigger] self.key(i) == key
    }

    /// The keys ascend strictly, so no key occurs twice; and the entries are
    /// no more than can be counted.
    pub open spec fn wf(self) -> bool {
        &&& self.repo.len() <= usize::MAX
        &&& forall|i: int, j: int|
            0 <= i < j < self.repo.len() ==> text_lt(#[trigger] self.key(i), #[trigger] self.key(j))
    }

    /// The first place from `i` on whose key does not sort before `key`; the
    /// number of entries where there is none.
    pub open spec fn slot_from(self, key: Seq<char>, i: int) -> int
        decreases self.repo.len() - i,
    {
        if i < 0 || i >= self.repo.len() || !text_lt(self.key(i), key) {
            i
        } else {
            self.slot_from(key, i + 1)
        }
    }

    /// The manifest with `entry` under `key`: in the place of the entry that
    /// stood under `key`, or, where none did, behind the keys that sort before
    /// `key` and before the others.
    pub open spec fn with_entry(self, key: Seq<char>, entry: RepoEntryView) -> ManifestView {
        let at = self.slot_from(key, 0);
        ManifestView {
            repo: if 0 <= at < self.repo.len() && self.key(at) == key {
                self.repo.update(at, (key, entry))
            } else {
                self.repo.insert(at, (key, entry))
            },
            current_repo: self.current_repo,
        }
    }

    /// The entries as a map from their keys.
    pub open spec fn as_map(self) -> Map<Seq<char>, RepoEntryView> {
        Map::new(|key: Seq<char>| self.has_key(key), |key: Seq<char>| self.entry(self.position(key)))
    }
}

/// In a well-formed manifest a key stands at one place only.
pub proof fn lemma_position_unique(m: ManifestView, i: int)
    requires
        m.wf(),
        0 <= i < m.repo.len(),
    ensures
        m.has_key(m.key(i)),
        m.position(m.key(i)) == i,
{
    let p = m.position(m.key(i));
    assert(m.key(p) == m.key(i));
    lemma_text_lt_irreflexive(m.key(i));
}

/// A manifest describing relations between different repositories.
#[derive(Clone, Debug, PartialEq, Eq)]
pub struct Manifest {
    repo: Vec<(String, RepoEntry)>,
    current_repo: Repo,
}

impl View for Manifest {
    type V = ManifestView;

    closed spec fn view(&self) -> ManifestView {
        ManifestView {
            repo: Seq::new(self.repo@.len(), |i: int| (self.repo@[i].0@, self.repo@[i].1@)),
            current_repo: self.current_repo@,
        }
    }
}

impl Manifest {
    /// Whether the manifest is well formed: see [`ManifestView::wf`].
    pub open spec fn wf(&self) -> bool {
        self@.wf()
    }

    /// A manifest of `current_repo` without entries.
    pub fn new(current_repo: Repo) -> (manifest: Self)
        ensures
            manifest.wf(),
            manifest@.repo.len() == 0,
            manifest@.current_repo == current_repo@,
    {
        Self { repo: Vec::new(), current_repo }
    }

    /// Returns a reference to current repo.
    pub fn current_repo(&self) -> (repo: &Repo)
        ensures
            repo@ == self@.current_repo,
    {
        &self.current_repo
    }

    /// The number of entries.
    pub fn len(&self) -> (n: usize)
        ensures
            n == self@.repo.len(),
    {
        self.repo.len()
    }

    /// The key of the entry at place `i`.
    pub fn key_at(&self, i: usize) -> (key: &str)
        requires
            i < self@.repo.len(),
        ensures
            key@ == self@.key(i as int),
    {
        self.repo[i].0.as_str()
    }

    /// The entry at place `i`.
    pub fn entry_at(&self, i: usize) -> (entry: &RepoEntry)
        requires
            i < self@.repo.len(),
        ensures
            entry@ == self@.entry(i as int),
    {
        &self.repo[i].1
    }

    /// The place of the entry under `key`, if there is one.
    pub fn position(&self, key: &str) -> (place: Option<usize>)
        ensures
            match place {
                Some(i) => i < self@.repo.len() && self@.key(i as int) == key@,
                None => !self@.has_key(key@),
            },
    {
        let mut i: usize = 0;
        while i < self.repo.len()
            invariant
                i <= self.repo.len(),
                forall|j: int| 0 <= j < i ==> #[trigger] self@.key(j) != key@,
            decreases self.repo.len() - i,
        {
            if same(self.repo[i].0.as_str(), key) {
                return Some(i);
            }
            i += 1;
        }
        None
    }

    /// The entry under `key`, if there is one.
    pub fn get(&self, key: &str) -> (entry: Option<&RepoEntry>)
        requires
            self.wf(),
        ensures
            match entry {
                Some(e) => self@.has_key(key@) && e@ == self@.as_map()[key@],
                None => !self@.has_key(key@),
            },
    {
        match self.position(key) {
            Some(i) => {
                proof {
                    lemma_position_unique(self@, i as int);
                }
                Some(&self.repo[i].1)
            },
            None => None,
        }
    }

    /// Puts `entry` under `key`, in the place that the order of the keys gives
    /// it. An entry that stood under `key` before leaves and is returned.
    pub fn insert(&mut self, key: String, entry: RepoEntry) -> (previous: Option<RepoEntry>)
        requires
            old(self).wf(),
        ensures
            final(self).wf(),
            final(self)@ == old(self)@.with_entry(key@, entry@),
            final(self)@.current_repo == old(self)@.current_repo,
            final(self)@.as_map() == old(self)@.as_map().insert(key@, entry@),
            match previous {
                Some(e) => old(self)@.has_key(key@) && e@ == old(self)@.as_map()[key@],
                None => !old(self)@.has_key(key@) && final(self)@.repo.len() == old(self)@.repo.len()
                    + 1,
            },
    {
        let mut i: usize = 0;
        while i < self.repo.len() && before(self.repo[i].0.as_str(), key.as_str())
            invariant
                i <= self.repo.len(),
                *self == *old(self),
                self@.slot_from(key@, 0) == self@.slot_from(key@, i as int),
                forall|j: int| 0 <= j < i ==> text_lt(#[trigger] self@.key(j), key@),
            decreases self.repo.len() - i,
        {
            i += 1;
        }
        let ghost before_view = self@;
        if i < self.repo.len() && same(self.repo[i].0.as_str(), key.as_str()) {
            let removed = self.repo.remove(i);
            self.repo.insert(i, (key, entry));
            proof {
                let after = self@;
                assert(after.repo =~= before_view.repo.update(i as int, (key@, entry@)));
                lemma_replaced(before_view, after, i as int, entry@);
            }
            Some(removed.1)
        } else {
            self.repo.insert(i, (key, entry));
            proof {
                let after = self@;
                assert(after.repo =~= before_view.repo.insert(i as int, (key@, entry@)));
                assert(after.repo.len() == self.repo.len());
                lemma_inserted(before_view, after, i as int, key@, entry@);
            }
            None
        }
    }
}

/// Putting a new entry in the place of one under the same key keeps the
/// manifest well formed and changes the map at that key only.
proof fn lemma_replaced(before: ManifestView, after: ManifestView, i: int, entry: RepoEntryView)
    requires
        before.wf(),
        0 <= i < before.repo.len(),
        after.repo == before.repo.update(i, (before.key(i), entry)),
    ensures
        after.wf(),
        after.as_map() == before.as_map().insert(before.key(i), entry),
        before.has_key(before.key(i)),
        before.as_map()[before.key(i)] == before.entry(i),
{
    let key = before.key(i);
    assert forall|a: int, b: int| 0 <= a < b < after.repo.len() implies text_lt(
        #[trigger] after.key(a),
        #[trigger] after.key(b),
    ) by {
        assert(after.key(a) == before.key(a) && after.key(b) == before.key(b));
    }
    lemma_position_unique(before, i);
    assert forall|k: Seq<char>| after.has_key(k) == (before.has_key(k) || k == key) by {
        if after.has_key(k) {
            let p = after.position(k);
            assert(before.key(p) == k);
        }
        if before.has_key(k) {
            let p = before.position(k);
            assert(after.key(p) == k);
        }
        if k == key {
            assert(after.key(i) == k);
        }
    }
    assert forall|k: Seq<char>| after.has_key(k) implies #[trigger] after.as_map()[k]
        == before.as_map().insert(key, entry)[k] by {
        let p = after.position(k);
        lemma_position_unique(after, p);
        assert(before.key(p) == k);
        lemma_position_unique(before, p);
    }
    assert(after.as_map() =~= before.as_map().insert(key, entry));
}

/// Putting an entry under a new key, behind the keys that sort before it and
/// before the others, keeps the manifest well formed and adds that key to the map.
proof fn lemma_inserted(
    before: ManifestView,
    after: ManifestView,
    i: int,
    key: Seq<char>,
    entry: RepoEntryView,
)
    requires
        before.wf(),
        0 <= i <= before.repo.len(),
        forall|j: int| 0 <= j < i ==> text_lt(#[trigger] before.key(j), key),
        i < before.repo.len() ==> !text_lt(before.key(i), key) && before.key(i) != key,
        after.repo == before.repo.insert(i, (key, entry)),
        after.repo.len() <= usize::MAX,
    ensures
        after.wf(),
        !before.has_key(key),
        after.as_map() == before.as_map().insert(key, entry),
{
    assert forall|j: int| i <= j < before.repo.len() implies text_lt(key, #[trigger] before.key(j)) by {
        lemma_text_lt_total(before.key(i), key);
        if i < j {
            assert(text_lt(before.key(i), before.key(j)));
            lemma_text_lt_transitive(key, before.key(i), before.key(j));
        }
    }
    assert forall|a: int, b: int| 0 <= a < b < after.repo.len() implies text_lt(
        #[trigger] after.key(a),
        #[trigger] after.key(b),
    ) by {
        let a0 = if a < i { a } else { a - 1 };
        let b0 = if b < i { b } else { b - 1 };
        if a == i {
            assert(after.key(b) == before.key(b0));
        } else if b == i {
            assert(after.key(a) == before.key(a0));
        } else {
            assert(after.key(a) == before.key(a0) && after.key(b) == before.key(b0));
        }
    }
    if before.has_key(key) {
        let p = before.position(key);
        lemma_text_lt_irreflexive(key);
        assert(before.key(p) == key);
    }
    assert forall|k: Seq<char>| after.has_key(k) == (before.has_key(k) || k == key) by {
        if after.has_key(k) {
            let p = after.position(k);
            if p != i {
                let p0 = if p < i { p } else { p - 1 };
                assert(before.key(p0) == k);
            }
        }
        if before.has_key(k) {
            let p = before.position(k);
            let p1 = if p < i { p } else { p + 1 };
            assert(after.key(p1) == k);
        }
        if k == key {
            assert(after.key(i) == k);
        }
    }
    assert forall|k: Seq<char>| after.has_key(k) implies #[trigger] after.as_map()[k]
        == before.as_map().insert(key, entry)[k] by {
        let p = after.position(k);
        lemma_position_unique(after, p);
        if p != i {
            let p0 = if p < i { p } else { p - 1 };
            assert(before.key(p0) == k);
            lemma_position_unique(before, p0);
        }
    }
    assert(after.as_map() =~= before.as_map().insert(key, entry));
}

} // verus!
