use rusttyobject::api::ApiError;
use rusttyobject::github::{
    access_token, activities_from_events, activity_from_event, contribution_count, encode_component,
    encode_path, events_path, github_url, notification_responses, profile_stats, repository_count,
    repository_path, tree_path, GithubEvent, GithubEventRepository, GithubNotification,
    GithubNotificationRepository, GithubNotificationSubject, GithubProfile, GraphqlContributionCalendar,
    GraphqlContributions, GraphqlCount, GraphqlData, GraphqlResponse, GraphqlUser, OAuthTokenResponse,
};
use rusttyobject::json::{commit_sha, upstream_error, JsonValue};

fn s(x: &str) -> String {
    x.to_string()
}

#[test]
fn activity_kinds_drop_the_event_suffix() {
    let a = activity_from_event(GithubEvent {
        id: s("1"),
        event_type: Some(s("PushEvent")),
        repo: Some(GithubEventRepository { name: s("o/r") }),
        created_at: Some(s("2024")),
    });
    assert_eq!(a.kind, "Push");
    assert_eq!(a.repository.as_deref(), Some("o/r"));
    assert_eq!(a.url.as_deref(), Some("https://github.com/o/r"));
    assert_eq!(a.created_at.as_deref(), Some("2024"));
    let b = activity_from_event(GithubEvent { id: s("2"), event_type: Some(s("EventEvent")), repo: None, created_at: None });
    assert_eq!(b.kind, "");
    assert!(b.url.is_none());
    let c = activity_from_event(GithubEvent { id: s("3"), event_type: None, repo: None, created_at: None });
    assert_eq!(c.kind, "GitHub activity");
    let list = activities_from_events(vec![
        GithubEvent { id: s("x"), event_type: Some(s("WatchEvent")), repo: None, created_at: None },
        GithubEvent { id: s("y"), event_type: Some(s("Fork")), repo: None, created_at: None },
    ]);
    assert_eq!(list.iter().map(|a| a.kind.as_str()).collect::<Vec<_>>(), vec!["Watch", "Fork"]);
}

#[test]
fn notifications_keep_their_fields() {
    let list = notification_responses(vec![GithubNotification {
        id: s("n1"),
        reason: Some(s("mention")),
        unread: true,
        updated_at: s("t"),
        subject: GithubNotificationSubject { title: s("Title"), subject_type: Some(s("Issue")) },
        repository: GithubNotificationRepository { full_name: s("o/r"), html_url: s("https://github.com/o/r") },
    }]);
    let n = &list[0];
    assert_eq!((n.id.as_str(), n.title.as_str(), n.repository.as_str()), ("n1", "Title", "o/r"));
    assert_eq!(n.kind.as_deref(), Some("Issue"));
    assert_eq!(n.url, "https://github.com/o/r");
    assert!(n.unread);
}

#[test]
fn profile_numbers() {
    let p = GithubProfile {
        login: s("a"),
        name: None,
        avatar_url: s(""),
        html_url: s(""),
        bio: None,
        public_repos: 4,
        followers: 5,
        following: 6,
    };
    let st = profile_stats(&p, 100, 7);
    assert_eq!(
        (st.total_contributions, st.repositories, st.public_repositories, st.followers, st.following),
        (100, 7, 4, 5, 6)
    );
    let full = GraphqlResponse {
        data: Some(GraphqlData {
            user: Some(GraphqlUser {
                contributions_collection: Some(GraphqlContributions {
                    contribution_calendar: GraphqlContributionCalendar { total_contributions: 42 },
                }),
                repositories: Some(GraphqlCount { total_count: 9 }),
            }),
        }),
    };
    assert_eq!(repository_count(full.clone()), 9);
    assert_eq!(contribution_count(full), 42);
    assert_eq!(repository_count(GraphqlResponse { data: None }), 0);
    assert_eq!(contribution_count(GraphqlResponse { data: Some(GraphqlData { user: None }) }), 0);
}

#[test]
fn token_answers() {
    assert_eq!(
        access_token(OAuthTokenResponse { access_token: Some(s("t")), error: None, error_description: None })
            .unwrap(),
        "t"
    );
    let e = access_token(OAuthTokenResponse { access_token: None, error: Some(s("e")), error_description: Some(s("d")) })
        .unwrap_err();
    assert_eq!((e.status, e.message.as_str()), (400, "d"));
    let e = access_token(OAuthTokenResponse { access_token: None, error: Some(s("e")), error_description: None })
        .unwrap_err();
    assert_eq!(e.message, "e");
    let e = access_token(OAuthTokenResponse { access_token: None, error: None, error_description: None }).unwrap_err();
    assert_eq!(e.message, "GitHub did not issue an access token");
}

#[test]
fn request_paths() {
    assert_eq!(github_url("/user"), "https://api.github.com/user");
    assert_eq!(repository_path("o", "r"), "/repos/o/r");
    assert_eq!(tree_path("o", "r", "feat/x"), "/repos/o/r/git/trees/feat%2Fx?recursive=1");
    assert_eq!(events_path("a b"), "/users/a%20b/events?per_page=20");
    assert_eq!(encode_path("a b/c~d_e.f-g/\u{fc}"), "a%20b/c~d_e.f-g/%C3%BC");
    assert_eq!(encode_path(""), "");
    assert_eq!(encode_component("a/b?c=d"), "a%2Fb%3Fc%3Dd");
}

fn obj(fields: Vec<(&str, JsonValue)>) -> JsonValue {
    JsonValue::Object(fields.into_iter().map(|(k, v)| (s(k), v)).collect())
}

#[test]
fn upstream_errors_say_what_github_said() {
    let body = obj(vec![("message", JsonValue::Str(s("Not Found")))]);
    let e: ApiError = upstream_error(404, Some(s("{...}")), Some(body));
    assert_eq!((e.status, e.message.as_str()), (404, "Not Found"));

    let errors = obj(vec![(
        "errors",
        JsonValue::Array(vec![
            obj(vec![("message", JsonValue::Str(s("a")))]),
            obj(vec![("code", JsonValue::Str(s("x")))]),
            obj(vec![("message", JsonValue::Str(s("b")))]),
        ]),
    )]);
    assert_eq!(upstream_error(422, Some(s("{}")), Some(errors)).message, "a, b");

    let empty = obj(vec![("message", JsonValue::Str(s("")))]);
    assert_eq!(
        upstream_error(500, Some(s("  raw text  ")), Some(empty)).message,
        "GitHub returned an error: raw text"
    );
    assert_eq!(
        upstream_error(500, Some(s("   ")), None).message,
        "GitHub returned an error without details"
    );
    let e = upstream_error(42, None, None);
    assert_eq!((e.status, e.message.as_str()), (502, "GitHub returned an error without details"));
    let number = obj(vec![("message", JsonValue::Number(s("3")))]);
    assert_eq!(upstream_error(400, Some(s("x")), Some(number)).message, "GitHub returned an error: x");
}

#[test]
fn commit_shas_are_read_from_the_answer() {
    let answer = obj(vec![("commit", obj(vec![("sha", JsonValue::Str(s("abc")))]))]);
    assert!(matches!(commit_sha(&answer), Some(JsonValue::Str(x)) if x == "abc"));
    assert!(commit_sha(&obj(vec![("content", JsonValue::Null)])).is_none());
    assert!(commit_sha(&JsonValue::Null).is_none());
    let sha = obj(vec![("sha", JsonValue::Str(s("f00")))]).string_field("sha");
    assert_eq!(sha.as_deref(), Some("f00"));
}

#[test]
fn network_errors() {
    let e = ApiError::upstream_network("timeout");
    assert_eq!((e.status, e.message.as_str()), (502, "Could not reach GitHub: timeout"));
    assert_eq!(ApiError::unauthorized().status, 401);
}
