//! The identity of a repository.

use crate::error::{ReleasyCoreError, ReleasyCoreErrorView};
use crate::text::{
    before, lemma_text_lt_irreflexive, lemma_text_lt_total, lemma_text_lt_transitive, same,
    text_lt,
};
use vstd::prelude::*;
use vstd::std_specs::cmp::PartialEqSpecImpl;

verus! {

/// What a [`Repo`] stands for in specifications: its name and its owner, as text.
pub struct RepoId {
    pub name: Seq<char>,
    pub owner: Seq<char>,
}

impl RepoId {
    /// The order of repositories: by name and, where the names are the same,
    /// by owner.
    pub open spec fn before(self, other: RepoId) -> bool {
        text_lt(self.name, other.name) || (self.name == other.name && text_lt(
            self.owner,
            other.owner,
        ))
    }

    /// How the repository is shown to a reader.
    pub open spec fn text(self) -> Seq<char> {
        "name: "@ + self.name + " - owner: "@ + self.owner
    }

    /// The address of the repository on GitHub for `actor`, who shows `token`.
    pub open spec fn github_url(self, token: Seq<char>, actor: Seq<char>) -> Seq<char> {
        "https://"@ + actor + ":"@ + token + "@github.com/"@ + self.owner + "/"@ + self.name
            + ".git"@
    }
}

/// Represents a repository, a node in the dependency graph.
///
/// Repositories are ordered by their names and, where the names are the
/// same, by their owners.
#[derive(Debug, Hash, PartialOrd, Ord)]
pub struct Repo {
    /// Name of the repository.
    name: String,
    /// Owner of the repository.
    owner: String,
}

impl View for Repo {
    type V = RepoId;

    closed spec fn view(&self) -> RepoId {
        RepoId { name: self.name@, owner: self.owner@ }
    }
}

impl DeepView for Repo {
    type V = RepoId;

    open spec fn deep_view(&self) -> RepoId {
        self@
    }
}

impl Repo {
    pub fn new(name: String, owner: String) -> (repo: Self)
        ensures
            repo@ == (RepoId { name: name@, owner: owner@ }),
    {
        Self { name, owner }
    }

    pub fn name(&self) -> (name: &str)
        ensures
            name@ == self@.name,
    {
        self.name.as_str()
    }

    pub fn owner(&self) -> (owner: &str)
        ensures
            owner@ == self@.owner,
    {
        self.owner.as_str()
    }

    /// The address to reach the repository at on GitHub, for the actor who
    /// shows the token. Both must be given.
    pub fn github_url(&self, github_token: Option<String>, github_actor: Option<String>) -> (result:
        Result<String, ReleasyCoreError>)
        ensures
            match (github_token, github_actor) {
                (Some(token), Some(actor)) => result matches Ok(url) && url@ == self@.github_url(
                    token@,
                    actor@,
                ),
                _ => result matches Err(e) && e@
                    == ReleasyCoreErrorView::MissingGithubTokenEnvVariable,
            },
    {
        let github_token = match github_token {
            Some(token) => token,
            None => {
                return Err(ReleasyCoreError::MissingGithubTokenEnvVariable);
            },
        };
        let github_actor = match github_actor {
            Some(actor) => actor,
            None => {
                return Err(ReleasyCoreError::MissingGithubTokenEnvVariable);
            },
        };
        let mut url = "https://".to_owned();
        url.append(github_actor.as_str());
        url.append(":");
        url.append(github_token.as_str());
        url.append("@github.com/");
        url.append(self.owner.as_str());
        url.append("/");
        url.append(self.name.as_str());
        url.append(".git");
        Ok(url)
    }

    /// Whether this repository comes before `other` in the order of
    /// repositories: see [`RepoId::before`].
    pub fn precedes(&self, other: &Repo) -> (r: bool)
        ensures
            r == self@.before(other@),
    {
        before(self.name.as_str(), other.name.as_str()) || (same(
            self.name.as_str(),
            other.name.as_str(),
        ) && before(self.owner.as_str(), other.owner.as_str()))
    }

    /// The repository as it is shown to a reader.
    pub fn to_string(&self) -> (text: String)
        ensures
            text@ == self@.text(),
    {
        let mut text = "name: ".to_owned();
        text.append(self.name.as_str());
        text.append(" - owner: ");
        text.append(self.owner.as_str());
        text
    }
}

impl Clone for Repo {
    fn clone(&self) -> (copy: Self)
        ensures
            copy@ == self@,
    {
        Repo { name: self.name.clone(), owner: self.owner.clone() }
    }
}

impl PartialEq for Repo {
    fn eq(&self, other: &Self) -> (same: bool) {
        self.name == other.name && self.owner == other.owner
    }
}

impl Eq for Repo {

}

impl PartialEqSpecImpl for Repo {
    open spec fn obeys_eq_spec() -> bool {
        true
    }

    open spec fn eq_spec(&self, other: &Self) -> bool {
        self@ == other@
    }
}

/// The order of repositories is a strict total order: no repository comes
/// before itself, the order is transitive, and of two different repositories
/// one comes before the other.
pub proof fn lemma_repo_order(a: RepoId, b: RepoId, c: RepoId)
    ensures
        !a.before(a),
        a.before(b) && b.before(c) ==> a.before(c),
        a.before(b) || a == b || b.before(a),
{
    lemma_text_lt_irreflexive(a.name);
    lemma_text_lt_irreflexive(a.owner);
    lemma_text_lt_irreflexive(b.name);
    lemma_text_lt_total(a.name, b.name);
    lemma_text_lt_total(a.owner, b.owner);
    if a.before(b) && b.before(c) {
        if text_lt(a.name, b.name) && text_lt(b.name, c.name) {
            lemma_text_lt_transitive(a.name, b.name, c.name);
        }
        if text_lt(a.owner, b.owner) && text_lt(b.owner, c.owner) {
            lemma_text_lt_transitive(a.owner, b.owner, c.owner);
        }
    }
}

} // verus!
