//! What the API reads from GitHub and answers about it: repositories, users, events,
//! notifications, and the URLs and paths of GitHub requests.

use vstd::prelude::*;
use crate::api::ApiError;
use crate::outside::{percent_encode, url_encode};
use crate::text::{join, join_strings, split_char, split_on, strip_suffixes, strip_suffixes_str};

verus! {

/// A GitHub account, as the session keeps it.
#[derive(Debug, Clone)]
pub struct GithubUser {
    pub login: String,
    pub name: Option<String>,
    pub avatar_url: String,
    pub html_url: String,
}

/// A GitHub account with the numbers that the profile card shows.
#[derive(Debug, Clone)]
pub struct GithubProfile {
    pub login: String,
    pub name: Option<String>,
    pub avatar_url: String,
    pub html_url: String,
    pub bio: Option<String>,
    pub public_repos: u64,
    pub followers: u64,
    pub following: u64,
}

/// The owner of a repository.
#[derive(Debug, Clone)]
pub struct GithubOwner {
    pub login: String,
}

/// A repository that the user can reach.
#[derive(Debug, Clone)]
pub struct GithubRepository {
    pub id: u64,
    pub name: String,
    pub full_name: String,
    pub private: bool,
    pub default_branch: String,
    pub html_url: String,
    pub updated_at: Option<String>,
    pub owner: GithubOwner,
}

/// The repository of a GitHub event.
#[derive(Debug, Clone)]
pub struct GithubEventRepository {
    pub name: String,
}

/// A public event of a GitHub user.
#[derive(Debug, Clone)]
pub struct GithubEvent {
    pub id: String,
    pub event_type: Option<String>,
    pub repo: Option<GithubEventRepository>,
    pub created_at: Option<String>,
}

/// One entry of the recent activity on the profile card.
#[derive(Debug, Clone)]
pub struct ActivityResponse {
    pub id: String,
    pub kind: String,
    pub repository: Option<String>,
    pub created_at: Option<String>,
    pub url: Option<String>,
}

/// The numbers of the profile card.
#[derive(Debug, Clone)]
pub struct ProfileStats {
    pub total_contributions: u64,
    pub repositories: u64,
    pub public_repositories: u64,
    pub followers: u64,
    pub following: u64,
}

/// The subject of a GitHub notification.
#[derive(Debug, Clone)]
pub struct GithubNotificationSubject {
    pub title: String,
    pub subject_type: Option<String>,
}

/// The repository of a GitHub notification.
#[derive(Debug, Clone)]
pub struct GithubNotificationRepository {
    pub full_name: String,
    pub html_url: String,
}

/// A GitHub notification.
#[derive(Debug, Clone)]
pub struct GithubNotification {
    pub id: String,
    pub reason: Option<String>,
    pub unread: bool,
    pub updated_at: String,
    pub subject: GithubNotificationSubject,
    pub repository: GithubNotificationRepository,
}

/// A notification as the console shows it.
#[derive(Debug, Clone)]
pub struct NotificationResponse {
    pub id: String,
    pub title: String,
    pub kind: Option<String>,
    pub reason: Option<String>,
    pub repository: String,
    pub url: String,
    pub updated_at: String,
    pub unread: bool,
}

/// The answer of GitHub's OAuth token endpoint.
#[derive(Debug, Clone)]
pub struct OAuthTokenResponse {
    pub access_token: Option<String>,
    pub error: Option<String>,
    pub error_description: Option<String>,
}

/// A count in a GraphQL answer.
#[derive(Debug, Clone)]
pub struct GraphqlCount {
    pub total_count: u64,
}

/// The contribution calendar in a GraphQL answer.
#[derive(Debug, Clone)]
pub struct GraphqlContributionCalendar {
    pub total_contributions: u64,
}

/// The contributions collection in a GraphQL answer.
#[derive(Debug, Clone)]
pub struct GraphqlContributions {
    pub contribution_calendar: GraphqlContributionCalendar,
}

/// The user in a GraphQL answer.
#[derive(Debug, Clone)]
pub struct GraphqlUser {
    pub contributions_collection: Option<GraphqlContributions>,
    pub repositories: Option<GraphqlCount>,
}

/// The data of a GraphQL answer.
#[derive(Debug, Clone)]
pub struct GraphqlData {
    pub user: Option<GraphqlUser>,
}

/// A GraphQL answer.
#[derive(Debug, Clone)]
pub struct GraphqlResponse {
    pub data: Option<GraphqlData>,
}

/// The kind that an activity shows: the event type, or `GitHub activity` when
/// there is none, with every trailing `Event` removed.
pub open spec fn activity_kind(event_type: Option<String>) -> Seq<char> {
    strip_suffixes(
        match event_type {
            Some(t) => t@,
            None => "GitHub activity"@,
        },
        "Event"@,
    )
}

/// The activity that shows event `e`.
pub open spec fn is_activity_of(e: GithubEvent, a: ActivityResponse) -> bool {
    &&& a.id == e.id
    &&& a.kind@ == activity_kind(e.event_type)
    &&& a.repository == match e.repo {
        Some(r) => Some(r.name),
        None => None,
    }
    &&& a.created_at == e.created_at
    &&& match a.url {
        Some(u) => e.repo is Some && u@ == "https://github.com/"@ + e.repo->0.name@,
        None => e.repo is None,
    }
}

/// The activity entry that shows a GitHub event.
pub fn activity_from_event(event: GithubEvent) -> (a: ActivityResponse)
    ensures
        is_activity_of(event, a),
{
    let ghost e = event;
    let GithubEvent { id, event_type, repo, created_at } = event;
    let kind = match &event_type {
        Some(t) => strip_suffixes_str(t.as_str(), "Event"),
        None => strip_suffixes_str("GitHub activity", "Event"),
    };
    let repository = match repo {
        Some(r) => Some(r.name),
        None => None,
    };
    let url = match &repository {
        Some(name) => {
            let mut u = "https://github.com/".to_string();
            u.append(name.as_str());
            Some(u)
        },
        None => None,
    };
    ActivityResponse { id, kind, repository, created_at, url }
}

/// The activity entries for a list of events, in the same order.
pub fn activities_from_events(events: Vec<GithubEvent>) -> (r: Vec<ActivityResponse>)
    ensures
        r@.len() == events@.len(),
        forall|i: int| 0 <= i < events@.len() ==> is_activity_of(events@[i], #[trigger] r@[i]),
{
    let ghost input = events@;
    let mut r: Vec<ActivityResponse> = Vec::new();
    for e in it: events.into_iter()
        invariant
            it.seq() == input,
            r@.len() == it.index(),
            forall|i: int| 0 <= i < r@.len() ==> is_activity_of(input[i], #[trigger] r@[i]),
    {
        r.push(activity_from_event(e));
    }
    r
}

/// The numbers of the profile card.
pub fn profile_stats(user: &GithubProfile, total_contributions: u64, repositories: u64) -> (s: ProfileStats)
    ensures
        s.total_contributions == total_contributions,
        s.repositories == repositories,
        s.public_repositories == user.public_repos,
        s.followers == user.followers,
        s.following == user.following,
{
    ProfileStats {
        total_contributions,
        repositories,
        public_repositories: user.public_repos,
        followers: user.followers,
        following: user.following,
    }
}

/// The number of repositories that a GraphQL answer reports, `0` when it reports none.
pub fn repository_count(payload: GraphqlResponse) -> (n: u64)
    ensures
        n == match payload.data {
            Some(d) => match d.user {
                Some(u) => match u.repositories {
                    Some(c) => c.total_count,
                    None => 0,
                },
                None => 0,
            },
            None => 0,
        },
{
    match payload.data {
        Some(d) => match d.user {
            Some(u) => match u.repositories {
                Some(c) => c.total_count,
                None => 0,
            },
            None => 0,
        },
        None => 0,
    }
}

/// The number of contributions that a GraphQL answer reports, `0` when it reports none.
pub fn contribution_count(payload: GraphqlResponse) -> (n: u64)
    ensures
        n == match payload.data {
            Some(d) => match d.user {
                Some(u) => match u.contributions_collection {
                    Some(c) => c.contribution_calendar.total_contributions,
                    None => 0,
                },
                None => 0,
            },
            None => 0,
        },
{
    match payload.data {
        Some(d) => match d.user {
            Some(u) => match u.contributions_collection {
                Some(c) => c.contribution_calendar.total_contributions,
                None => 0,
            },
            None => 0,
        },
        None => 0,
    }
}

/// A notification as the console shows it.
pub fn notification_response(n: GithubNotification) -> (r: NotificationResponse)
    ensures
        r.id == n.id,
        r.title == n.subject.title,
        r.kind == n.subject.subject_type,
        r.reason == n.reason,
        r.repository == n.repository.full_name,
        r.url == n.repository.html_url,
        r.updated_at == n.updated_at,
        r.unread == n.unread,
{
    NotificationResponse {
        id: n.id,
        title: n.subject.title,
        kind: n.subject.subject_type,
        reason: n.reason,
        repository: n.repository.full_name,
        url: n.repository.html_url,
        updated_at: n.updated_at,
        unread: n.unread,
    }
}

/// The notifications as the console shows them, in the same order.
pub fn notification_responses(list: Vec<GithubNotification>) -> (r: Vec<NotificationResponse>)
    ensures
        r@.len() == list@.len(),
        forall|i: int| 0 <= i < list@.len() ==> {
            let (n, x) = (list@[i], #[trigger] r@[i]);
            &&& x.id == n.id
            &&& x.title == n.subject.title
            &&& x.kind == n.subject.subject_type
            &&& x.reason == n.reason
            &&& x.repository == n.repository.full_name
            &&& x.url == n.repository.html_url
            &&& x.updated_at == n.updated_at
            &&& x.unread == n.unread
        },
{
    let ghost input = list@;
    let mut r: Vec<NotificationResponse> = Vec::new();
    for n in it: list.into_iter()
        invariant
            it.seq() == input,
            r@.len() == it.index(),
            forall|i: int| 0 <= i < r@.len() ==> {
                let (n, x) = (input[i], #[trigger] r@[i]);
                &&& x.id == n.id
                &&& x.title == n.subject.title
                &&& x.kind == n.subject.subject_type
                &&& x.reason == n.reason
                &&& x.repository == n.repository.full_name
                &&& x.url == n.repository.html_url
                &&& x.updated_at == n.updated_at
                &&& x.unread == n.unread
            },
    {
        r.push(notification_response(n));
    }
    r
}

pub open spec fn no_token_message() -> Seq<char> {
    "GitHub did not issue an access token"@
}

/// The access token of a token answer, or the error that refuses the sign-in: its
/// `error_description`, else its `error`, else a message of the API's own.
pub fn access_token(token: OAuthTokenResponse) -> (r: Result<String, ApiError>)
    ensures
        match r {
            Ok(t) => token.access_token == Some(t),
            Err(e) => token.access_token is None && e.status == crate::api::BAD_REQUEST && match (
                token.error_description,
                token.error,
            ) {
                (Some(d), _) => e.message == d,
                (None, Some(x)) => e.message == x,
                (None, None) => e.message@ == no_token_message(),
            },
        },
{
    match token.access_token {
        Some(t) => Ok(t),
        None => {
            let message = match token.error_description {
                Some(d) => d,
                None => match token.error {
                    Some(x) => x,
                    None => "GitHub did not issue an access token".to_string(),
                },
            };
            Err(ApiError::bad_request(message))
        },
    }
}

/// One path segment, percent-encoded.
pub open spec fn encode_segment(seg: Seq<char>) -> Seq<char> {
    percent_encode(vstd::utf8::encode_utf8(seg))
}

/// A path with each `/`-separated segment percent-encoded and the slashes kept.
pub open spec fn encoded_path(p: Seq<char>) -> Seq<char> {
    join(split_on(p, '/').map_values(|seg: Seq<char>| encode_segment(seg)), "/"@)
}

/// Percent-encodes each segment of a path and keeps its slashes.
pub fn encode_path(path: &str) -> (r: String)
    ensures
        r@ == encoded_path(path@),
{
    let parts = split_char(path, '/');
    let ghost segs = split_on(path@, '/');
    let mut enc: Vec<String> = Vec::new();
    let mut i: usize = 0;
    while i < parts.len()
        invariant
            i <= parts@.len(),
            parts.deep_view() == segs,
            enc.deep_view() == segs.take(i as int).map_values(|seg: Seq<char>| encode_segment(seg)),
        decreases parts@.len() - i,
    {
        let ghost before = enc.deep_view();
        assert(parts.deep_view()[i as int] == parts@[i as int]@);
        let e = url_encode(parts[i].as_str());
        enc.push(e);
        assert(enc.deep_view() =~= before.push(e@));
        assert(segs.take(i + 1).map_values(|seg: Seq<char>| encode_segment(seg)) =~= segs.take(
            i as int,
        ).map_values(|seg: Seq<char>| encode_segment(seg)).push(encode_segment(segs[i as int])));
        i += 1;
    }
    assert(segs.take(i as int) =~= segs);
    join_strings(&enc, "/")
}

/// `url_encode` of a whole string, slashes included.
pub open spec fn encoded(s: Seq<char>) -> Seq<char> {
    percent_encode(vstd::utf8::encode_utf8(s))
}

/// Percent-encodes a whole string.
pub fn encode_component(s: &str) -> (r: String)
    ensures
        r@ == encoded(s@),
{
    url_encode(s)
}

/// The URL of a GitHub REST API path.
pub fn github_url(path: &str) -> (r: String)
    ensures
        r@ == "https://api.github.com"@ + path@,
{
    let mut r = "https://api.github.com".to_string();
    r.append(path);
    r
}

/// `/repos/{owner}/{repo}`.
pub fn repository_path(owner: &str, repo: &str) -> (r: String)
    ensures
        r@ == "/repos/"@ + owner@ + "/"@ + repo@,
{
    let mut r = "/repos/".to_string();
    r.append(owner);
    r.append("/");
    r.append(repo);
    r
}

/// `/repos/{owner}/{repo}/contents/{encoded_path}`.
pub fn contents_path(owner: &str, repo: &str, encoded_path: &str) -> (r: String)
    ensures
        r@ == "/repos/"@ + owner@ + "/"@ + repo@ + "/contents/"@ + encoded_path@,
{
    let mut r = repository_path(owner, repo);
    r.append("/contents/");
    r.append(encoded_path);
    r
}

/// `endpoint` with the query `?ref=` and the encoded branch.
pub fn with_ref(endpoint: &str, branch: &str) -> (r: String)
    ensures
        r@ == endpoint@ + "?ref="@ + encoded(branch@),
{
    let mut r = endpoint.to_string();
    r.append("?ref=");
    let b = url_encode(branch);
    r.append(b.as_str());
    r
}

/// `/repos/{owner}/{repo}/git/trees/{branch}?recursive=1`, the branch encoded.
pub fn tree_path(owner: &str, repo: &str, branch: &str) -> (r: String)
    ensures
        r@ == "/repos/"@ + owner@ + "/"@ + repo@ + "/git/trees/"@ + encoded(branch@) + "?recursive=1"@,
{
    let mut r = repository_path(owner, repo);
    r.append("/git/trees/");
    let b = url_encode(branch);
    r.append(b.as_str());
    r.append("?recursive=1");
    r
}

/// `/users/{login}/events?per_page=20`, the login encoded.
pub fn events_path(login: &str) -> (r: String)
    ensures
        r@ == "/users/"@ + encoded(login@) + "/events?per_page=20"@,
{
    let mut r = "/users/".to_string();
    let l = url_encode(login);
    r.append(l.as_str());
    r.append("/events?per_page=20");
    r
}

/// The direct `raw.githubusercontent.com` URL of a file on a branch.
pub open spec fn raw_url_of(owner: Seq<char>, repo: Seq<char>, branch: Seq<char>, path: Seq<char>) -> Seq<char> {
    "https://raw.githubusercontent.com/"@ + owner + "/"@ + repo + "/"@ + encoded(branch) + "/"@
        + encoded_path(path)
}

/// The direct `raw.githubusercontent.com` URL of a file on a branch.
pub fn raw_url(owner: &str, repo: &str, branch: &str, path: &str) -> (r: String)
    ensures
        r@ == raw_url_of(owner@, repo@, branch@, path@),
{
    let mut r = "https://raw.githubusercontent.com/".to_string();
    r.append(owner);
    r.append("/");
    r.append(repo);
    r.append("/");
    let b = url_encode(branch);
    r.append(b.as_str());
    r.append("/");
    let p = encode_path(path);
    r.append(p.as_str());
    r
}

} // verus!
