//! Browser sessions: the OAuth states that a sign-in may come back with, the
//! sessions that sign-ins opened, and the cookie that names a session.

use vstd::prelude::*;
use vstd::hash_map::StringHashMap;
use vstd::hash_set::StringHashSet;
use crate::api::ApiError;
use crate::github::{encoded, GithubUser};
use crate::outside::{hyphenated_uuid, url_encode, uuid_from_random, uuid_text_of};
use crate::text::{lemma_first_index, lemma_split_without_sep, lemma_trim_untouched, ws_pred, first_index, split_char, split_on, split_once_char, str_eq, trim, trim_ws};

verus! {

/// The name of the session cookie.
pub open spec fn session_cookie_name() -> Seq<char> {
    "rusty_session"@
}

/// A signed-in browser: the GitHub token and the account it belongs to.
#[derive(Debug, Clone)]
pub struct Session {
    pub token: String,
    pub user: GithubUser,
}

/// `key=value` of one cookie of a `Cookie` header, surrounding whitespace removed.
pub open spec fn cookie_pair(c: Seq<char>) -> Option<(Seq<char>, Seq<char>)> {
    let t = trim_ws(c);
    match first_index(t, '=') {
        Some(i) => Some((t.take(i), t.skip(i + 1))),
        None => None,
    }
}

/// The value of the first cookie named `name` among `parts`.
pub open spec fn find_cookie(parts: Seq<Seq<char>>, name: Seq<char>) -> Option<Seq<char>>
    decreases parts.len(),
{
    if parts.len() == 0 {
        None
    } else {
        match cookie_pair(parts[0]) {
            Some((k, v)) => if k == name {
                Some(v)
            } else {
                find_cookie(parts.drop_first(), name)
            },
            None => find_cookie(parts.drop_first(), name),
        }
    }
}

/// The value of the first cookie named `name` in a `Cookie` header.
pub open spec fn cookie_of(header: Seq<char>, name: Seq<char>) -> Option<Seq<char>> {
    find_cookie(split_on(header, ';'), name)
}

/// The value of the first cookie named `name` in a `Cookie` header.
pub fn cookie_value(header: &str, name: &str) -> (r: Option<String>)
    ensures
        match r {
            Some(v) => cookie_of(header@, name@) == Some(v@),
            None => cookie_of(header@, name@) is None,
        },
{
    let parts = split_char(header, ';');
    let ghost ps = split_on(header@, ';');
    let mut i: usize = 0;
    assert(ps.skip(0) =~= ps);
    while i < parts.len()
        invariant
            i <= parts@.len(),
            parts.deep_view() == ps,
            cookie_of(header@, name@) == find_cookie(ps.skip(i as int), name@),
        decreases parts@.len() - i,
    {
        assert(ps.skip(i as int)[0] == parts@[i as int]@);
        assert(ps.skip(i as int).drop_first() =~= ps.skip(i + 1));
        let t = trim(parts[i].as_str());
        match split_once_char(t.as_str(), '=') {
            Some((k, v)) => {
                if str_eq(k.as_str(), name) {
                    return Some(v);
                }
            },
            None => {},
        }
        i += 1;
    }
    None
}

/// The `Set-Cookie` value that names session `id` for a week.
pub open spec fn session_cookie_of(id: Seq<char>) -> Seq<char> {
    "rusty_session="@ + id + "; HttpOnly; SameSite=Lax; Path=/; Max-Age=604800"@
}

/// The `Set-Cookie` value that names session `id` for a week.
pub fn session_cookie(id: &str) -> (r: String)
    ensures
        r@ == session_cookie_of(id@),
{
    let mut r = "rusty_session=".to_string();
    r.append(id);
    r.append("; HttpOnly; SameSite=Lax; Path=/; Max-Age=604800");
    r
}

/// The `Set-Cookie` value that ends the session cookie.
pub fn expired_session_cookie() -> (r: String)
    ensures
        r@ == "rusty_session=; HttpOnly; SameSite=Lax; Path=/; Max-Age=0"@,
{
    "rusty_session=; HttpOnly; SameSite=Lax; Path=/; Max-Age=0".to_string()
}

/// The URL that GitHub sends a sign-in back to: the configured one, else the local API.
pub fn callback_url(configured: Option<String>) -> (r: String)
    ensures
        r@ == match configured {
            Some(c) => c@,
            None => "http://localhost:8787/auth/github/callback"@,
        },
{
    match configured {
        Some(c) => c,
        None => "http://localhost:8787/auth/github/callback".to_string(),
    }
}

/// The URL of the console: the configured one, else the local development server.
pub fn frontend_url(configured: Option<String>) -> (r: String)
    ensures
        r@ == match configured {
            Some(c) => c@,
            None => "http://localhost:5173"@,
        },
{
    match configured {
        Some(c) => c,
        None => "http://localhost:5173".to_string(),
    }
}

/// The GitHub page where a sign-in starts.
pub open spec fn authorize_url_of(client_id: Seq<char>, redirect_uri: Seq<char>, state: Seq<char>) -> Seq<char> {
    "https://github.com/login/oauth/authorize?client_id="@ + encoded(client_id) + "&redirect_uri="@
        + encoded(redirect_uri) + "&scope=repo%20read:user%20user:email%20notifications&state="@
        + encoded(state)
}

/// The GitHub page where a sign-in starts.
pub fn authorize_url(client_id: &str, redirect_uri: &str, state: &str) -> (r: String)
    ensures
        r@ == authorize_url_of(client_id@, redirect_uri@, state@),
{
    let mut r = "https://github.com/login/oauth/authorize?client_id=".to_string();
    let a = url_encode(client_id);
    r.append(a.as_str());
    r.append("&redirect_uri=");
    let b = url_encode(redirect_uri);
    r.append(b.as_str());
    r.append("&scope=repo%20read:user%20user:email%20notifications&state=");
    let c = url_encode(state);
    r.append(c.as_str());
    r
}

/// The sessions and the pending OAuth states, over plain values.
pub struct AuthView {
    pub sessions: Map<Seq<char>, Session>,
    pub states: Set<Seq<char>>,
}

/// The OAuth states that sign-ins may still come back with, and the open sessions.
pub struct AuthStore {
    sessions: StringHashMap<Session>,
    states: StringHashSet,
}

/// The session that a `Cookie` header names, if it is open.
pub open spec fn session_of(v: AuthView, header: Option<Seq<char>>) -> Option<Session> {
    match header {
        Some(h) => match cookie_of(h, session_cookie_name()) {
            Some(id) => if v.sessions.contains_key(id) {
                Some(v.sessions[id])
            } else {
                None
            },
            None => None,
        },
        None => None,
    }
}

/// The store after a logout with `header`: the session it names is closed.
pub open spec fn after_logout(v: AuthView, header: Option<Seq<char>>) -> AuthView {
    match header {
        Some(h) => match cookie_of(h, session_cookie_name()) {
            Some(id) => AuthView { sessions: v.sessions.remove(id), states: v.states },
            None => v,
        },
        None => v,
    }
}

impl View for AuthStore {
    type V = AuthView;

    closed spec fn view(&self) -> AuthView {
        AuthView { sessions: self.sessions@, states: self.states@ }
    }
}

impl AuthStore {
    /// A store with no session and no pending sign-in.
    pub fn new() -> (s: AuthStore)
        ensures
            s@.sessions == Map::<Seq<char>, Session>::empty(),
            s@.states == Set::<Seq<char>>::empty(),
    {
        AuthStore { sessions: StringHashMap::new(), states: StringHashSet::new() }
    }

    /// Starts a sign-in: a state made of 16 random bytes, which the sign-in must
    /// come back with.
    pub fn begin_sign_in(&mut self, random: [u8; 16]) -> (state: String)
        ensures
            state@ == uuid_text_of(random@),
            hyphenated_uuid(state@),
            final(self)@.states == old(self)@.states.insert(state@),
            final(self)@.sessions == old(self)@.sessions,
    {
        let state = uuid_from_random(random);
        let kept = state.clone();
        self.states.insert(kept);
        state
    }

    /// Accepts the state that a sign-in came back with, once: whether it was
    /// pending, and it is no longer.
    pub fn take_state(&mut self, state: &str) -> (accepted: bool)
        ensures
            accepted == old(self)@.states.contains(state@),
            final(self)@.states == old(self)@.states.remove(state@),
            final(self)@.sessions == old(self)@.sessions,
    {
        self.states.remove(state)
    }

    /// Opens a session for a signed-in user under an id made of 16 random bytes.
    pub fn open_session(&mut self, token: String, user: GithubUser, random: [u8; 16]) -> (id: String)
        ensures
            id@ == uuid_text_of(random@),
            hyphenated_uuid(id@),
            final(self)@.sessions == old(self)@.sessions.insert(id@, Session { token, user }),
            final(self)@.states == old(self)@.states,
    {
        let id = uuid_from_random(random);
        let kept = id.clone();
        self.sessions.insert(kept, Session { token, user });
        id
    }

    /// The session that a `Cookie` header names, or `401` when there is none.
    pub fn session_for(&self, header: Option<&str>) -> (r: Result<&Session, ApiError>)
        ensures
            match r {
                Ok(s) => session_of(self@, match header {
                    Some(h) => Some(h@),
                    None => None,
                }) == Some(*s),
                Err(e) => session_of(self@, match header {
                    Some(h) => Some(h@),
                    None => None,
                }) is None && e.status == crate::api::UNAUTHORIZED,
            },
    {
        let id = match header {
            Some(h) => cookie_value(h, "rusty_session"),
            None => None,
        };
        match id {
            Some(id) => match self.sessions.get(id.as_str()) {
                Some(s) => Ok(s),
                None => Err(ApiError::unauthorized()),
            },
            None => Err(ApiError::unauthorized()),
        }
    }

    /// Closes the session that a `Cookie` header names, if any.
    pub fn logout(&mut self, header: Option<&str>)
        ensures
            final(self)@ == after_logout(old(self)@, match header {
                Some(h) => Some(h@),
                None => None,
            }),
    {
        let id = match header {
            Some(h) => cookie_value(h, "rusty_session"),
            None => None,
        };
        match id {
            Some(id) => {
                self.sessions.remove(id.as_str());
            },
            None => {},
        }
    }
}

/// A sign-in state is accepted at most once: after it has been taken, taking it
/// again is refused.
pub proof fn law_state_single_use(v: AuthView, state: Seq<char>)
    ensures
        !v.states.remove(state).contains(state),
{
}

/// The cookie that the browser sends back for a session opened by `open_session`
/// names that session: a lookup with it finds the session that was stored.
pub proof fn law_cookie_finds_session(v: AuthView, id: Seq<char>, s: Session)
    requires
        hyphenated_uuid(id),
    ensures
        session_of(
            AuthView { sessions: v.sessions.insert(id, s), states: v.states },
            Some("rusty_session="@ + id),
        ) == Some(s),
{
    reveal_strlit("rusty_session=");
    reveal_strlit("rusty_session");
    let h = "rusty_session="@ + id;
    let name = "rusty_session"@;
    assert(h.len() == 50);
    assert forall|i: int| 0 <= i < h.len() implies h[i] != ';' && h[i] != '=' || i == 13 by {
        if i >= 14 {
            assert(h[i] == id[i - 14]);
        }
    }
    assert(!h.contains(';'));
    lemma_split_without_sep(h, ';');
    assert(h[0] == 'r');
    assert(h.last() == id[35]);
    lemma_trim_untouched(h, ws_pred());
    lemma_first_index(h, '=');
    assert(h[13] == '=');
    let i = first_index(h, '=')->0;
    assert(i == 13);
    assert(h.take(13) =~= name);
    assert(h.skip(14) =~= id);
    assert(split_on(h, ';')[0] == h);
    assert(split_on(h, ';').len() == 1);
    assert(cookie_pair(h) == Some((name, id)));
    assert(cookie_of(h, name) == Some(id));
}

/// After a logout, the cookie that it came with no longer names a session.
pub proof fn law_logout_closes(v: AuthView, header: Seq<char>)
    ensures
        session_of(after_logout(v, Some(header)), Some(header)) is None,
{
}

/// A logout closes only the session that its cookie names.
pub proof fn law_logout_keeps_others(v: AuthView, header: Seq<char>, other: Seq<char>)
    requires
        cookie_of(header, session_cookie_name()) != Some(other),
    ensures
        after_logout(v, Some(header)).sessions.contains_key(other) == v.sessions.contains_key(other),
        v.sessions.contains_key(other) ==> after_logout(v, Some(header)).sessions[other] == v.sessions[other],
{
}

} // verus!
