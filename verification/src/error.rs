//! What can go wrong.

use crate::repo::{Repo, RepoId};
use vstd::prelude::*;

verus! {

/// What a [`BuildPlanError`] stands for in specifications.
pub enum BuildPlanErrorView {
    MissingProjectDefinition(Seq<char>, Seq<char>),
    RepoNotFoundInGraph(RepoId),
}

/// Why a plan could not be built, or could not answer.
#[derive(Debug)]
pub enum BuildPlanError {
    /// The repository of the first name depends on the key of the second, and
    /// the manifest has no entry under that key.
    MissingProjectDefinition(String, String),
    /// The plan has no node for the repository.
    RepoNotFoundInGraph(Repo),
}

impl View for BuildPlanError {
    type V = BuildPlanErrorView;

    open spec fn view(&self) -> BuildPlanErrorView {
        match self {
            BuildPlanError::MissingProjectDefinition(name, key) => {
                BuildPlanErrorView::MissingProjectDefinition(name@, key@)
            },
            BuildPlanError::RepoNotFoundInGraph(repo) => BuildPlanErrorView::RepoNotFoundInGraph(
                repo@,
            ),
        }
    }
}

impl BuildPlanError {
    /// What the error says.
    pub open spec fn text(self) -> Seq<char> {
        match self {
            BuildPlanError::MissingProjectDefinition(name, key) => "`"@ + name@
                + "` is depending on a project (`"@ + key@
                + "`) that does not have a definition in the manifest file"@,
            BuildPlanError::RepoNotFoundInGraph(repo) => "provided repo `"@ + repo@.text()
                + "` not found in dependency graph"@,
        }
    }

    /// What the error says.
    pub fn to_string(&self) -> (text: String)
        ensures
            text@ == self.text(),
    {
        match self {
            BuildPlanError::MissingProjectDefinition(name, key) => {
                let mut text = "`".to_owned();
                text.append(name.as_str());
                text.append("` is depending on a project (`");
                text.append(key.as_str());
                text.append("`) that does not have a definition in the manifest file");
                text
            },
            BuildPlanError::RepoNotFoundInGraph(repo) => {
                let mut text = "provided repo `".to_owned();
                text.append(repo.to_string().as_str());
                text.append("` not found in dependency graph");
                text
            },
        }
    }
}

/// Why a text gives no manifest.
#[derive(Debug)]
pub enum ManifestFileError {
    /// The text is no TOML document.
    FailedToParseManifest(toml::de::Error),
    /// The text is a TOML document, but what stands at the path is not what a
    /// manifest holds there, or does not stand there at all.
    MalformedManifest(String),
}

/// What a [`ReleasyCoreError`] stands for in specifications.
pub enum ReleasyCoreErrorView {
    MissingDispatchTokenEnvVariable,
    MissingGithubTokenEnvVariable,
    FailedToConvertStrToEventType(Seq<char>),
}

/// Why an event could not be made or addressed.
#[derive(Debug)]
pub enum ReleasyCoreError {
    /// No token to dispatch events with was given.
    MissingDispatchTokenEnvVariable,
    /// The token or the actor to reach the repository with was not given.
    MissingGithubTokenEnvVariable,
    /// The text names no kind of event.
    FailedToConvertStrToEventType(String),
}

impl View for ReleasyCoreError {
    type V = ReleasyCoreErrorView;

    open spec fn view(&self) -> ReleasyCoreErrorView {
        match self {
            ReleasyCoreError::MissingDispatchTokenEnvVariable => {
                ReleasyCoreErrorView::MissingDispatchTokenEnvVariable
            },
            ReleasyCoreError::MissingGithubTokenEnvVariable => {
                ReleasyCoreErrorView::MissingGithubTokenEnvVariable
            },
            ReleasyCoreError::FailedToConvertStrToEventType(text) => {
                ReleasyCoreErrorView::FailedToConvertStrToEventType(text@)
            },
        }
    }
}

impl ReleasyCoreError {
    /// What the error says.
    pub open spec fn text(self) -> Seq<char> {
        match self {
            ReleasyCoreError::MissingDispatchTokenEnvVariable => "DISPATCH_TOKEN env variable is missing.\nPlease set the variable to a token that grants read and write access to repos in the dependency tree."@,
            ReleasyCoreError::MissingGithubTokenEnvVariable => "GITHUB_TOKEN env variable is missing."@,
            ReleasyCoreError::FailedToConvertStrToEventType(given) => "failed to convert str (`"@
                + given@
                + "`) to `EventType`, possible values are: [`new-commit`, `new-release`]"@,
        }
    }

    /// What the error says.
    pub fn to_string(&self) -> (text: String)
        ensures
            text@ == self.text(),
    {
        match self {
            ReleasyCoreError::MissingDispatchTokenEnvVariable => "DISPATCH_TOKEN env variable is missing.\nPlease set the variable to a token that grants read and write access to repos in the dependency tree.".to_owned(),
            ReleasyCoreError::MissingGithubTokenEnvVariable => "GITHUB_TOKEN env variable is missing.".to_owned(),
            ReleasyCoreError::FailedToConvertStrToEventType(given) => {
                let mut text = "failed to convert str (`".to_owned();
                text.append(given.as_str());
                text.append(
                    "`) to `EventType`, possible values are: [`new-commit`, `new-release`]",
                );
                text
            },
        }
    }
}

} // verus!
