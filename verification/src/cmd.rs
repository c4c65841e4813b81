//! From the arguments of the command line to the event they describe.

use crate::event::{ClientPayload, Event, EventDetails, EventType};
use crate::repo::{Repo, RepoId};
use std::path::PathBuf;
use vstd::prelude::*;

verus! {

/// std's `PathBuf`, taken as it is: a path is only handed on.
#[verifier::external_type_specification]
#[verifier::external_body]
pub struct ExPathBuf(PathBuf);

/// What the command line of the handler gives: the event that was received,
/// and where the manifest is.
#[derive(Debug)]
pub struct Args {
    /// Type of the event.
    ///
    /// Possible values: [new-commit-to-dependency, new-release, new-commit-to-self]
    pub event: Option<String>,
    /// Name of the repo emitted this event.
    pub event_repo_name: Option<String>,
    /// Owner of the repo emitted this event.
    pub event_repo_owner: Option<String>,
    /// Commit hash that triggered this event.
    pub event_commit_hash: Option<String>,
    /// Release tag that triggered this event.
    pub event_release_tag: Option<String>,
    /// Path to the manifest file describing repo plan.
    ///
    /// By default `repo-plan.toml` expected to be in the current dir.
    pub path: Option<PathBuf>,
}

/// What the command line of the emitter gives: the event to send in the name
/// of the current repository, and where the manifest is.
#[derive(Debug)]
pub struct EmitArgs {
    /// Type of the event.
    ///
    /// Possible values: [new-commit-to-self, new-commit-to-dependency, new-release]
    pub event: Option<String>,
    /// Path to the manifest file describing repo plan.
    ///
    /// By default `repo-plan.toml` expected to be in the current dir.
    pub path: Option<PathBuf>,
    /// Commit hash that triggered this event.
    pub event_commit_hash: Option<String>,
    /// Release tag that triggered this event.
    pub event_release_tag: Option<String>,
}

/// What an [`ArgsError`] stands for in specifications.
pub enum ArgsErrorView {
    MissingEvent,
    MissingRepoName,
    MissingRepoOwner,
    UnknownEvent(Seq<char>),
}

/// Why the arguments describe no event.
#[derive(Debug)]
pub enum ArgsError {
    /// No type of event was given.
    MissingEvent,
    /// The name of the repository that sent the event was not given.
    MissingRepoName,
    /// The owner of the repository that sent the event was not given.
    MissingRepoOwner,
    /// The type of event that was given is none.
    UnknownEvent(String),
}

impl View for ArgsError {
    type V = ArgsErrorView;

    open spec fn view(&self) -> ArgsErrorView {
        match self {
            ArgsError::MissingEvent => ArgsErrorView::MissingEvent,
            ArgsError::MissingRepoName => ArgsErrorView::MissingRepoName,
            ArgsError::MissingRepoOwner => ArgsErrorView::MissingRepoOwner,
            ArgsError::UnknownEvent(text) => ArgsErrorView::UnknownEvent(text@),
        }
    }
}

impl ArgsError {
    /// What the error says.
    pub open spec fn text(self) -> Seq<char> {
        match self {
            ArgsError::MissingEvent => "event should not be emtpy"@,
            ArgsError::MissingRepoName => "repo name should not be emtpy"@,
            ArgsError::MissingRepoOwner => "repo owner should not be emtpy"@,
            ArgsError::UnknownEvent(text) => "failed to convert str (`"@ + text@
                + "`) to `EventType`, possible values are: [`new-commit`, `new-release`]"@,
        }
    }

    /// What the error says.
    pub fn to_string(&self) -> (text: String)
        ensures
            text@ == self.text(),
    {
        match self {
            ArgsError::MissingEvent => "event should not be emtpy".to_owned(),
            ArgsError::MissingRepoName => "repo name should not be emtpy".to_owned(),
            ArgsError::MissingRepoOwner => "repo owner should not be emtpy".to_owned(),
            ArgsError::UnknownEvent(given) => {
                let mut text = "failed to convert str (`".to_owned();
                text.append(given.as_str());
                text.append(
                    "`) to `EventType`, possible values are: [`new-commit`, `new-release`]",
                );
                text
            },
        }
    }
}

/// The event of the type that `event` names, about `repo`.
fn event_about(
    event: &str,
    repo: Repo,
    event_commit_hash: Option<String>,
    event_release_tag: Option<String>,
) -> (result: Result<Event, ArgsError>)
    ensures
        match result {
            Ok(made) => {
                &&& event@ == made@.event_type.text()
                &&& made@.client_payload.repo == repo@
                &&& made@.client_payload.details.commit_hash == event_commit_hash.deep_view()
                &&& made@.client_payload.details.release_tag == event_release_tag.deep_view()
            },
            Err(e) => {
                &&& forall|event_type: EventType| event@ != event_type.text()
                &&& e@ == ArgsErrorView::UnknownEvent(event@)
            },
        },
{
    match EventType::from_str(event) {
        Ok(event_type) => {
            let details = EventDetails::new(event_commit_hash, event_release_tag);
            let client_payload = ClientPayload::new(repo, details);
            Ok(Event::new(event_type, client_payload))
        },
        Err(_) => Err(ArgsError::UnknownEvent(event.to_owned())),
    }
}

impl Event {
    /// The event that the arguments of the handler describe. The type of the
    /// event, the name and the owner of the repository that sent it must be
    /// given, and they are looked for in that order; the type must be one
    /// that there is.
    pub fn try_from(value: Args) -> (result: Result<Self, ArgsError>)
        ensures
            match result {
                Ok(made) => {
                    &&& value.event matches Some(event)
                    &&& event@ == made@.event_type.text()
                    &&& value.event_repo_name matches Some(name)
                    &&& value.event_repo_owner matches Some(owner)
                    &&& made@.client_payload.repo == (RepoId { name: name@, owner: owner@ })
                    &&& made@.client_payload.details.commit_hash
                        == value.event_commit_hash.deep_view()
                    &&& made@.client_payload.details.release_tag
                        == value.event_release_tag.deep_view()
                },
                Err(e) => match (value.event, value.event_repo_name, value.event_repo_owner) {
                    (None, _, _) => e@ == ArgsErrorView::MissingEvent,
                    (Some(_), None, _) => e@ == ArgsErrorView::MissingRepoName,
                    (Some(_), Some(_), None) => e@ == ArgsErrorView::MissingRepoOwner,
                    (Some(event), Some(_), Some(_)) => {
                        &&& forall|event_type: EventType| event@ != event_type.text()
                        &&& e@ == ArgsErrorView::UnknownEvent(event@)
                    },
                },
            },
    {
        let event = match value.event {
            Some(event) => event,
            None => {
                return Err(ArgsError::MissingEvent);
            },
        };
        let name = match value.event_repo_name {
            Some(name) => name,
            None => {
                return Err(ArgsError::MissingRepoName);
            },
        };
        let owner = match value.event_repo_owner {
            Some(owner) => owner,
            None => {
                return Err(ArgsError::MissingRepoOwner);
            },
        };
        event_about(
            event.as_str(),
            Repo::new(name, owner),
            value.event_commit_hash,
            value.event_release_tag,
        )
    }

    /// The event that the arguments of the emitter describe, sent in the name
    /// of `current_repo`. The type of the event must be given, and must be one
    /// that there is.
    pub fn try_from_emit(value: EmitArgs, current_repo: &Repo) -> (result: Result<Self, ArgsError>)
        ensures
            match result {
                Ok(made) => {
                    &&& value.event matches Some(event)
                    &&& event@ == made@.event_type.text()
                    &&& made@.client_payload.repo == current_repo@
                    &&& made@.client_payload.details.commit_hash
                        == value.event_commit_hash.deep_view()
                    &&& made@.client_payload.details.release_tag
                        == value.event_release_tag.deep_view()
                },
                Err(e) => match value.event {
                    None => e@ == ArgsErrorView::MissingEvent,
                    Some(event) => {
                        &&& forall|event_type: EventType| event@ != event_type.text()
                        &&& e@ == ArgsErrorView::UnknownEvent(event@)
                    },
                },
            },
    {
        let event = match value.event {
            Some(event) => event,
            None => {
                return Err(ArgsError::MissingEvent);
            },
        };
        event_about(
            event.as_str(),
            current_repo.clone(),
            value.event_commit_hash,
            value.event_release_tag,
        )
    }
}

} // verus!
