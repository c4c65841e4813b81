//! The events that repositories send each other.

use crate::error::{ReleasyCoreError, ReleasyCoreErrorView};
use crate::repo::{Repo, RepoId};
use crate::text::same;
use vstd::prelude::*;

verus! {

/// Possible event types.
#[derive(Clone, Debug, PartialEq, Eq)]
pub enum EventType {
    NewCommitToDependency,
    NewCommitToSelf,
    NewRelease,
}

impl EventType {
    /// The name of the kind of event, as it is written and read.
    pub open spec fn text(self) -> Seq<char> {
        match self {
            EventType::NewCommitToDependency => "new-commit-to-dependency"@,
            EventType::NewCommitToSelf => "new-commit-to-self"@,
            EventType::NewRelease => "new-release"@,
        }
    }

    /// The kind of event that `s` names.
    pub fn from_str(s: &str) -> (result: Result<Self, ReleasyCoreError>)
        ensures
            match result {
                Ok(event_type) => s@ == event_type.text(),
                Err(e) => {
                    &&& forall|event_type: EventType| s@ != event_type.text()
                    &&& e@ == ReleasyCoreErrorView::FailedToConvertStrToEventType(s@)
                },
            },
    {
        if same(s, "new-commit-to-dependency") {
            Ok(Self::NewCommitToDependency)
        } else if same(s, "new-commit-to-self") {
            Ok(Self::NewCommitToSelf)
        } else if same(s, "new-release") {
            Ok(Self::NewRelease)
        } else {
            Err(ReleasyCoreError::FailedToConvertStrToEventType(s.to_owned()))
        }
    }

    /// The name of the kind of event.
    pub fn to_string(&self) -> (text: String)
        ensures
            text@ == self.text(),
    {
        match self {
            EventType::NewCommitToDependency => "new-commit-to-dependency".to_owned(),
            EventType::NewCommitToSelf => "new-commit-to-self".to_owned(),
            EventType::NewRelease => "new-release".to_owned(),
        }
    }
}

/// No two kinds of event have the same name: a name that is read gives back
/// the kind that was written.
pub proof fn lemma_event_type_names_differ(a: EventType, b: EventType)
    requires
        a.text() == b.text(),
    ensures
        a == b,
{
    reveal_strlit("new-commit-to-dependency");
    reveal_strlit("new-commit-to-self");
    reveal_strlit("new-release");
    assert("new-commit-to-dependency"@.len() == 24);
    assert("new-commit-to-self"@.len() == 18);
    assert("new-release"@.len() == 11);
}

/// What an [`EventDetails`] stands for in specifications.
pub struct EventDetailsView {
    pub commit_hash: Option<Seq<char>>,
    pub release_tag: Option<Seq<char>>,
}

#[derive(Clone, Debug, PartialEq, Eq)]
pub struct EventDetails {
    commit_hash: Option<String>,
    release_tag: Option<String>,
}

impl View for EventDetails {
    type V = EventDetailsView;

    closed spec fn view(&self) -> EventDetailsView {
        EventDetailsView {
            commit_hash: self.commit_hash.deep_view(),
            release_tag: self.release_tag.deep_view(),
        }
    }
}

impl EventDetails {
    pub fn new(commit_hash: Option<String>, release_tag: Option<String>) -> (details: Self)
        ensures
            details@.commit_hash == commit_hash.deep_view(),
            details@.release_tag == release_tag.deep_view(),
    {
        Self { commit_hash, release_tag }
    }

    pub fn commit_hash(&self) -> (commit_hash: Option<&String>)
        ensures
            commit_hash.deep_view() == self@.commit_hash,
    {
        self.commit_hash.as_ref()
    }

    pub fn release_tag(&self) -> (release_tag: Option<&String>)
        ensures
            release_tag.deep_view() == self@.release_tag,
    {
        self.release_tag.as_ref()
    }
}

/// What a [`ClientPayload`] stands for in specifications.
pub struct ClientPayloadView {
    pub repo: RepoId,
    pub details: EventDetailsView,
}

#[derive(Clone, Debug, PartialEq, Eq)]
pub struct ClientPayload {
    repo: Repo,
    details: EventDetails,
}

impl View for ClientPayload {
    type V = ClientPayloadView;

    closed spec fn view(&self) -> ClientPayloadView {
        ClientPayloadView { repo: self.repo@, details: self.details@ }
    }
}

impl ClientPayload {
    pub fn new(repo: Repo, details: EventDetails) -> (payload: Self)
        ensures
            payload@ == (ClientPayloadView { repo: repo@, details: details@ }),
    {
        Self { repo, details }
    }

    pub fn repo(&self) -> (repo: &Repo)
        ensures
            repo@ == self@.repo,
    {
        &self.repo
    }

    pub fn details(&self) -> (details: &EventDetails)
        ensures
            details@ == self@.details,
    {
        &self.details
    }
}

/// What an [`Event`] stands for in specifications.
pub struct EventView {
    pub event_type: EventType,
    pub client_payload: ClientPayloadView,
}

/// An event to be emitted.
#[derive(Clone, Debug, PartialEq, Eq)]
pub struct Event {
    event_type: EventType,
    client_payload: ClientPayload,
}

impl View for Event {
    type V = EventView;

    closed spec fn view(&self) -> EventView {
        EventView { event_type: self.event_type, client_payload: self.client_payload@ }
    }
}

impl Event {
    pub fn new(event_type: EventType, client_payload: ClientPayload) -> (event: Self)
        ensures
            event@ == (EventView { event_type, client_payload: client_payload@ }),
    {
        Self { event_type, client_payload }
    }

    pub fn event_type(&self) -> (event_type: &EventType)
        ensures
            *event_type == self@.event_type,
    {
        &self.event_type
    }

    pub fn client_payload(&self) -> (client_payload: &ClientPayload)
        ensures
            client_payload@ == self@.client_payload,
    {
        &self.client_payload
    }
}

/// What a [`Dispatch`] stands for in specifications.
pub struct DispatchView {
    pub url: Seq<char>,
    pub authorization: Seq<char>,
    pub accept: Seq<char>,
    pub user_agent: Seq<char>,
}

/// Where to post an event for a repository, and the headers to post it with.
#[derive(Clone, Debug, PartialEq, Eq)]
pub struct Dispatch {
    pub url: String,
    pub authorization: String,
    pub accept: String,
    pub user_agent: String,
}

impl View for Dispatch {
    type V = DispatchView;

    open spec fn view(&self) -> DispatchView {
        DispatchView {
            url: self.url@,
            authorization: self.authorization@,
            accept: self.accept@,
            user_agent: self.user_agent@,
        }
    }
}

/// Where events for `target` are posted, and the headers that show `token`.
pub open spec fn dispatch_for(target: RepoId, token: Seq<char>) -> DispatchView {
    DispatchView {
        url: "https://api.github.com/repos/"@ + target.owner + "/"@ + target.name
            + "/dispatches"@,
        authorization: "Bearer "@ + token,
        accept: Event::ACCEPT@,
        user_agent: Event::USER_AGENT@,
    }
}

impl Event {
    pub const ACCEPT: &'static str = "application/vnd.github+json";

    pub const USER_AGENT: &'static str = "releasy";

    /// Where and how to send an event to a target repo using github API. The
    /// token to dispatch with must be given.
    pub fn dispatch_to(target_repo: &Repo, dispatch_token: Option<String>) -> (result: Result<
        Dispatch,
        ReleasyCoreError,
    >)
        ensures
            match dispatch_token {
                Some(token) => result matches Ok(dispatch) && dispatch@ == dispatch_for(
                    target_repo@,
                    token@,
                ),
                None => result matches Err(e) && e@
                    == ReleasyCoreErrorView::MissingDispatchTokenEnvVariable,
            },
    {
        let github_token = match dispatch_token {
            Some(token) => token,
            None => {
                return Err(ReleasyCoreError::MissingDispatchTokenEnvVariable);
            },
        };
        let mut url = "https://api.github.com/repos/".to_owned();
        url.append(target_repo.owner());
        url.append("/");
        url.append(target_repo.name());
        url.append("/dispatches");
        let mut authorization = "Bearer ".to_owned();
        authorization.append(github_token.as_str());
        Ok(
            Dispatch {
                url,
                authorization,
                accept: Self::ACCEPT.to_owned(),
                user_agent: Self::USER_AGENT.to_owned(),
            },
        )
    }
}

} // verus!
