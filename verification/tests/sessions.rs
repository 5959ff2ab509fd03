use rusttyobject::sessions::{
    authorize_url, callback_url, cookie_value, expired_session_cookie, frontend_url, session_cookie,
    AuthStore,
};
use rusttyobject::github::GithubUser;

fn user(login: &str) -> GithubUser {
    GithubUser {
        login: login.to_string(),
        name: None,
        avatar_url: "https://a".to_string(),
        html_url: "https://h".to_string(),
    }
}

#[test]
fn cookie_value_finds_the_first_named_cookie() {
    assert_eq!(cookie_value("a=b; rusty_session=xyz", "rusty_session"), Some("xyz".to_string()));
    assert_eq!(cookie_value("rusty_session=1;rusty_session=2", "rusty_session"), Some("1".to_string()));
    assert_eq!(cookie_value("x=1=2", "x"), Some("1=2".to_string()));
    assert_eq!(cookie_value("  k = v ;", "k "), Some(" v".to_string()));
    assert_eq!(cookie_value("flag; a=b", "flag"), None);
    assert_eq!(cookie_value("", "a"), None);
}

#[test]
fn sign_in_states_are_accepted_once() {
    let mut store = AuthStore::new();
    let state = store.begin_sign_in([0u8; 16]);
    assert_eq!(state, "00000000-0000-4000-8000-000000000000");
    assert!(store.take_state(&state));
    assert!(!store.take_state(&state));
    assert!(!store.take_state("made-up"));
}

#[test]
fn sessions_are_found_by_cookie_until_logout() {
    let mut store = AuthStore::new();
    let id = store.open_session("tok".to_string(), user("alice"), [0xffu8; 16]);
    let other = store.open_session("tok2".to_string(), user("bob"), *b"0123456789abcdef");
    assert_eq!(id, "ffffffff-ffff-4fff-bfff-ffffffffffff");
    assert_eq!(other, "30313233-3435-4637-b839-616263646566");
    let header = format!("theme=dark; rusty_session={id}");
    let session = store.session_for(Some(&header)).unwrap();
    assert_eq!(session.token, "tok");
    assert_eq!(session.user.login, "alice");
    assert_eq!(store.session_for(None).unwrap_err().status, 401);
    assert_eq!(
        store.session_for(Some("rusty_session=nope")).unwrap_err().message,
        "Sign in with GitHub to continue"
    );
    store.logout(Some(&header));
    assert!(store.session_for(Some(&header)).is_err());
    let other_header = format!("rusty_session={other}");
    assert_eq!(store.session_for(Some(&other_header)).unwrap().user.login, "bob");
}

#[test]
fn session_cookies_and_urls() {
    assert_eq!(
        session_cookie("abc"),
        "rusty_session=abc; HttpOnly; SameSite=Lax; Path=/; Max-Age=604800"
    );
    assert_eq!(
        expired_session_cookie(),
        "rusty_session=; HttpOnly; SameSite=Lax; Path=/; Max-Age=0"
    );
    assert_eq!(callback_url(None), "http://localhost:8787/auth/github/callback");
    assert_eq!(callback_url(Some("https://x/cb".to_string())), "https://x/cb");
    assert_eq!(frontend_url(None), "http://localhost:5173");
    assert_eq!(
        authorize_url("id 1", "http://localhost:8787/auth/github/callback", "s-1"),
        "https://github.com/login/oauth/authorize?client_id=id%201&redirect_uri=http%3A%2F%2Flocalhost%3A8787%2Fauth%2Fgithub%2Fcallback&scope=repo%20read:user%20user:email%20notifications&state=s-1"
    );
}
