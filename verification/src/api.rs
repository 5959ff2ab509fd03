//! Errors that the HTTP API answers with, and the checks on paths and bucket names.

use vstd::prelude::*;
use crate::text::{char_pred, lemma_split_join, lemma_split_without_sep, lemma_split_leading_sep, lemma_split_trailing_sep, lemma_trim_untouched, ws_pred, contains_char, str_eq, utf8_len, utf8_len_exceeds, chars_of, replace_char, replaced, split_char, split_on, trim, trim_char, trim_matches_char, trim_ws};

verus! {

/// `400 Bad Request`.
pub const BAD_REQUEST: u16 = 400;
/// `401 Unauthorized`.
pub const UNAUTHORIZED: u16 = 401;
/// `409 Conflict`.
pub const CONFLICT: u16 = 409;
/// `500 Internal Server Error`.
pub const INTERNAL_SERVER_ERROR: u16 = 500;
/// `502 Bad Gateway`.
pub const BAD_GATEWAY: u16 = 502;

/// An error answer of the API: an HTTP status and a message for the user.
#[derive(Debug)]
pub struct ApiError {
    pub status: u16,
    pub message: String,
}

pub open spec fn unauthorized_message() -> Seq<char> {
    "Sign in with GitHub to continue"@
}

pub open spec fn path_error_message() -> Seq<char> {
    "File paths must be relative and cannot contain . or .. segments"@
}

pub open spec fn bucket_shape_message() -> Seq<char> {
    "Bucket names must be one non-empty path segment, up to 100 characters, and cannot start with a dot or use 'root'"@
}

pub open spec fn bucket_chars_message() -> Seq<char> {
    "Bucket names may contain only letters, numbers, spaces, hyphens, and underscores"@
}

/// The message of an error for a GitHub request that never got an answer.
pub open spec fn network_message(detail: Seq<char>) -> Seq<char> {
    "Could not reach GitHub: "@ + detail
}

impl ApiError {
    /// The answer to a request without a valid session.
    pub fn unauthorized() -> (e: ApiError)
        ensures
            e.status == UNAUTHORIZED,
            e.message@ == unauthorized_message(),
    {
        ApiError { status: UNAUTHORIZED, message: "Sign in with GitHub to continue".to_string() }
    }

    /// The answer to a request that the API refuses.
    pub fn bad_request(message: String) -> (e: ApiError)
        ensures
            e.status == BAD_REQUEST,
            e.message == message,
    {
        ApiError { status: BAD_REQUEST, message }
    }

    /// The answer when GitHub could not be reached.
    pub fn upstream_network(detail: &str) -> (e: ApiError)
        ensures
            e.status == BAD_GATEWAY,
            e.message@ == network_message(detail@),
    {
        let mut message = "Could not reach GitHub: ".to_string();
        message.append(detail);
        ApiError { status: BAD_GATEWAY, message }
    }

    /// An error with a given status whose message is the text of a failure.
    pub fn with_status(status: u16, message: String) -> (e: ApiError)
        ensures
            e.status == status,
            e.message == message,
    {
        ApiError { status, message }
    }
}

/// What both checks make of a name or path before they judge it:
/// surrounding whitespace and slashes removed, backslashes turned into slashes.
pub open spec fn normalized(s: Seq<char>) -> Seq<char> {
    replaced(trim_char(trim_ws(s), '/'), '\\', '/')
}

/// A path segment that cannot stand in a stored path.
pub open spec fn bad_segment(p: Seq<char>) -> bool {
    p.len() == 0 || p == seq!['.'] || p == seq!['.', '.']
}

/// A normalized path that the API accepts: non-empty, and no segment empty, `.` or `..`.
pub open spec fn safe_path(n: Seq<char>) -> bool {
    n.len() > 0 && forall|i: int| 0 <= i < split_on(n, '/').len() ==> !bad_segment(#[trigger] split_on(n, '/')[i])
}

/// The normalization shared by both checks.
pub fn normalize(s: &str) -> (r: String)
    ensures
        r@ == normalized(s@),
{
    let t = trim(s);
    let u = trim_matches_char(t.as_str(), '/');
    replace_char(u.as_str(), '\\', '/')
}

/// Whether a segment is empty, `.` or `..`.
pub fn is_bad_segment(p: &str) -> (r: bool)
    ensures
        r == bad_segment(p@),
{
    let v = chars_of(p);
    if v.len() == 0 {
        true
    } else if v.len() == 1 {
        assert(v@ == seq!['.'] <==> v@[0] == '.') by {
            if v@[0] == '.' {
                assert(v@ =~= seq!['.']);
            }
        }
        v[0] == '.'
    } else if v.len() == 2 {
        assert(v@ == seq!['.', '.'] <==> (v@[0] == '.' && v@[1] == '.')) by {
            if v@[0] == '.' && v@[1] == '.' {
                assert(v@ =~= seq!['.', '.']);
            }
        }
        v[0] == '.' && v[1] == '.'
    } else {
        assert(v@ != seq!['.'] && v@ != seq!['.', '.']) by {
            assert(seq!['.'].len() == 1);
            assert(seq!['.', '.'].len() == 2);
        }
        false
    }
}

/// Checks a path for an object in the repository and returns it normalized.
/// The path is refused when it is empty or has an empty, `.` or `..` segment.
pub fn validate_path(path: String) -> (r: Result<String, ApiError>)
    ensures
        match r {
            Ok(p) => safe_path(normalized(path@)) && p@ == normalized(path@),
            Err(e) => !safe_path(normalized(path@)) && e.status == BAD_REQUEST && e.message@
                == path_error_message(),
        },
        r matches Ok(p) ==> p@.len() > 0 && forall|i: int|
            0 <= i < split_on(p@, '/').len() ==> {
                let seg = #[trigger] split_on(p@, '/')[i];
                seg.len() > 0 && seg != seq!['.'] && seg != seq!['.', '.']
            },
{
    let n = normalize(path.as_str());
    let parts = split_char(n.as_str(), '/');
    let mut bad = n.as_str().is_empty();
    let mut i: usize = 0;
    while i < parts.len()
        invariant
            i <= parts@.len(),
            parts.deep_view() == split_on(n@, '/'),
            bad == (n@.len() == 0 || exists|j: int| 0 <= j < i && bad_segment(#[trigger] split_on(n@, '/')[j])),
        decreases parts@.len() - i,
    {
        assert(parts.deep_view()[i as int] == parts@[i as int]@);
        if is_bad_segment(parts[i].as_str()) {
            bad = true;
        }
        i += 1;
    }
    if bad {
        Err(ApiError::bad_request("File paths must be relative and cannot contain . or .. segments".to_string()))
    } else {
        Ok(n)
    }
}

/// A character that a bucket name may hold.
pub open spec fn bucket_char(c: char) -> bool {
    ('a' <= c && c <= 'z') || ('A' <= c && c <= 'Z') || ('0' <= c && c <= '9') || c == '-' || c == '_' || c == ' '
}

/// A normalized bucket name of the right shape: one non-empty segment of at most
/// 100 bytes that does not start with a dot and is not `root`.
pub open spec fn bucket_shape(n: Seq<char>) -> bool {
    &&& n.len() > 0
    &&& utf8_len(n) <= 100
    &&& !n.contains('/')
    &&& n != seq!['.']
    &&& n != seq!['.', '.']
    &&& n != "root"@
    &&& n[0] != '.'
}

/// Every character of `n` may stand in a bucket name.
pub open spec fn bucket_chars(n: Seq<char>) -> bool {
    forall|i: int| 0 <= i < n.len() ==> bucket_char(#[trigger] n[i])
}

/// Checks a bucket name and returns it normalized.
pub fn validate_bucket_name(name: String) -> (r: Result<String, ApiError>)
    ensures
        match r {
            Ok(b) => bucket_shape(normalized(name@)) && bucket_chars(normalized(name@)) && b@
                == normalized(name@),
            Err(e) => e.status == BAD_REQUEST && if !bucket_shape(normalized(name@)) {
                e.message@ == bucket_shape_message()
            } else {
                !bucket_chars(normalized(name@)) && e.message@ == bucket_chars_message()
            },
        },
{
    let n = normalize(name.as_str());
    let v = chars_of(n.as_str());
    let too_long = utf8_len_exceeds(n.as_str(), 100);
    let has_slash = contains_char(n.as_str(), '/');
    let is_root = str_eq(n.as_str(), "root");
    let dot_start = v.len() > 0 && v[0] == '.';
    assert(v.len() > 0 && v@[0] != '.' ==> v@ != seq!['.'] && v@ != seq!['.', '.']) by {
        if v.len() > 0 && v@[0] != '.' {
            assert(seq!['.'][0] == '.');
            assert(seq!['.', '.'][0] == '.');
        }
    }
    if v.len() == 0 || too_long || has_slash || is_root || dot_start {
        return Err(ApiError::bad_request(
            "Bucket names must be one non-empty path segment, up to 100 characters, and cannot start with a dot or use 'root'".to_string(),
        ));
    }
    let mut i: usize = 0;
    while i < v.len()
        invariant
            i <= v@.len(),
            v@ == n@,
            n@ == normalized(name@),
            bucket_shape(n@),
            forall|j: int| 0 <= j < i ==> bucket_char(#[trigger] v@[j]),
        decreases v@.len() - i,
    {
        let c = v[i];
        let ok = ('a' <= c && c <= 'z') || ('A' <= c && c <= 'Z') || ('0' <= c && c <= '9') || c == '-'
            || c == '_' || c == ' ';
        if !ok {
            return Err(ApiError::bad_request(
                "Bucket names may contain only letters, numbers, spaces, hyphens, and underscores".to_string(),
            ));
        }
        i += 1;
    }
    Ok(n)
}

/// After normalization no backslash is left, so replacing backslashes changes nothing.
proof fn lemma_normalized_no_backslash(s: Seq<char>)
    ensures
        replaced(normalized(s), '\\', '/') == normalized(s),
{
    let t = normalized(s);
    assert forall|i: int| 0 <= i < t.len() implies t[i] != '\\' by {}
    assert(replaced(t, '\\', '/') =~= t);
}

/// A normalized text that has no surrounding whitespace and neither starts nor ends
/// with `/` is left as it is by a second normalization.
proof fn lemma_normalized_again(s: Seq<char>)
    requires
        normalized(s).len() > 0,
        trim_ws(normalized(s)) == normalized(s),
        normalized(s)[0] != '/',
        normalized(s).last() != '/',
    ensures
        normalized(normalized(s)) == normalized(s),
{
    let t = normalized(s);
    lemma_trim_untouched(t, char_pred('/'));
    lemma_normalized_no_backslash(s);
}

/// A path that `validate_path` accepted, and that has no surrounding whitespace,
/// is accepted again as it is: checking a checked path changes nothing.
pub proof fn law_checked_path_is_fixed(path: Seq<char>)
    requires
        safe_path(normalized(path)),
        trim_ws(normalized(path)) == normalized(path),
    ensures
        safe_path(normalized(normalized(path))),
        normalized(normalized(path)) == normalized(path),
{
    let t = normalized(path);
    if t[0] == '/' {
        lemma_split_leading_sep(t, '/');
        assert(bad_segment(split_on(t, '/')[0]));
    }
    if t.last() == '/' {
        lemma_split_trailing_sep(t, '/');
        let n = split_on(t, '/').len();
        assert(split_on(t, '/')[n - 1] == split_on(t, '/').last());
        assert(bad_segment(split_on(t, '/')[n - 1]));
    }
    lemma_normalized_again(path);
}

/// A bucket name that `validate_bucket_name` accepted, and that has no surrounding
/// whitespace, is accepted again as it is: checking a checked name changes nothing.
pub proof fn law_checked_bucket_name_is_fixed(name: Seq<char>)
    requires
        bucket_shape(normalized(name)),
        bucket_chars(normalized(name)),
        trim_ws(normalized(name)) == normalized(name),
    ensures
        bucket_shape(normalized(normalized(name))),
        bucket_chars(normalized(normalized(name))),
        normalized(normalized(name)) == normalized(name),
{
    let t = normalized(name);
    assert(t[0] != '/');
    assert(t.last() != '/') by {
        assert(t[t.len() - 1] == t.last());
    }
    lemma_normalized_again(name);
}

/// The ends of a safe path are not `/`.
proof fn lemma_safe_path_ends(t: Seq<char>)
    requires
        safe_path(t),
    ensures
        t[0] != '/',
        t.last() != '/',
{
    if t[0] == '/' {
        lemma_split_leading_sep(t, '/');
        assert(bad_segment(split_on(t, '/')[0]));
    }
    if t.last() == '/' {
        lemma_split_trailing_sep(t, '/');
        let n = split_on(t, '/').len();
        assert(split_on(t, '/')[n - 1] == split_on(t, '/').last());
        assert(bad_segment(split_on(t, '/')[n - 1]));
    }
}

/// A text without `/` is a safe path exactly when it is not empty, `.` or `..`:
/// every other character, a space or any other, may stand in a segment.
pub proof fn law_single_segment_paths(seg: Seq<char>)
    requires
        !seg.contains('/'),
    ensures
        safe_path(seg) <==> (seg.len() > 0 && seg != seq!['.'] && seg != seq!['.', '.']),
{
    lemma_split_without_sep(seg, '/');
    assert(split_on(seg, '/')[0] == seg);
}

/// Two paths joined by `/` make a safe path exactly when both are safe paths.
pub proof fn law_safe_paths_join(a: Seq<char>, b: Seq<char>)
    ensures
        safe_path(a + "/"@ + b) <==> (safe_path(a) && safe_path(b)),
{
    reveal_strlit("/");
    let s = a + "/"@ + b;
    assert(s =~= a + seq!['/'] + b);
    lemma_split_join(a, b, '/');
    let sa = split_on(a, '/');
    let sb = split_on(b, '/');
    let ss = split_on(s, '/');
    assert(ss == sa + sb);
    if safe_path(s) {
        if a.len() == 0 {
            assert(sa[0] == Seq::<char>::empty());
            assert(ss[0] == sa[0]);
            assert(bad_segment(ss[0]));
        }
        if b.len() == 0 {
            assert(sb[0] == Seq::<char>::empty());
            assert(ss[sa.len() as int] == sb[0]);
            assert(bad_segment(ss[sa.len() as int]));
        }
        assert forall|i: int| 0 <= i < sa.len() implies !bad_segment(#[trigger] sa[i]) by {
            assert(ss[i] == sa[i]);
        }
        assert forall|i: int| 0 <= i < sb.len() implies !bad_segment(#[trigger] sb[i]) by {
            assert(ss[sa.len() + i] == sb[i]);
        }
    }
    if safe_path(a) && safe_path(b) {
        assert forall|i: int| 0 <= i < ss.len() implies !bad_segment(#[trigger] ss[i]) by {
            if i < sa.len() {
                assert(ss[i] == sa[i]);
            } else {
                assert(ss[i] == sb[i - sa.len()]);
            }
        }
    }
}

/// A safe path with no surrounding whitespace and no backslash is its own normal
/// form, so `validate_path` accepts it and gives it back unchanged.
pub proof fn law_plain_paths_pass_unchanged(t: Seq<char>)
    requires
        safe_path(t),
        trim_ws(t) == t,
        !t.contains('\\'),
    ensures
        normalized(t) == t,
{
    lemma_safe_path_ends(t);
    lemma_trim_untouched(t, char_pred('/'));
    assert(replaced(t, '\\', '/') =~= t);
}

/// Every character of a bucket name is an ASCII letter or digit, `-`, `_` or a space.
pub open spec fn plain_name_char(c: char) -> bool {
    ||| 'a' <= c <= 'z'
    ||| 'A' <= c <= 'Z'
    ||| '0' <= c <= '9'
    ||| c == '-'
    ||| c == '_'
    ||| c == ' '
}

/// A text of ASCII characters has as many UTF-8 bytes as characters.
proof fn lemma_ascii_utf8_len(s: Seq<char>)
    requires
        forall|i: int| 0 <= i < s.len() ==> (#[trigger] s[i] as int) < 0x80,
    ensures
        utf8_len(s) == s.len(),
    decreases s.len(),
{
    if s.len() > 0 {
        assert(s.last() == s[s.len() - 1]);
        lemma_ascii_utf8_len(s.drop_last());
    }
}

/// A name of at most 100 ASCII letters, digits, hyphens, underscores and inner
/// spaces, not starting with a space and not `root`, is accepted by
/// `validate_bucket_name` and given back unchanged.
pub proof fn law_plain_bucket_names_pass(n: Seq<char>)
    requires
        0 < n.len() <= 100,
        forall|i: int| 0 <= i < n.len() ==> plain_name_char(#[trigger] n[i]),
        n[0] != ' ',
        n.last() != ' ',
        n != "root"@,
    ensures
        normalized(n) == n,
        bucket_shape(normalized(n)),
        bucket_chars(normalized(n)),
{
    assert(n.last() == n[n.len() - 1]);
    assert(plain_name_char(n[0]));
    assert(plain_name_char(n[n.len() - 1]));
    lemma_trim_untouched(n, ws_pred());
    lemma_trim_untouched(n, char_pred('/'));
    assert(replaced(n, '\\', '/') =~= n) by {
        assert forall|i: int| 0 <= i < n.len() implies n[i] != '\\' by {
            assert(plain_name_char(n[i]));
        }
    }
    assert(!n.contains('/')) by {
        assert forall|i: int| 0 <= i < n.len() implies n[i] != '/' by {
            assert(plain_name_char(n[i]));
        }
    }
    assert forall|i: int| 0 <= i < n.len() implies (#[trigger] n[i] as int) < 0x80 by {
        assert(plain_name_char(n[i]));
    }
    lemma_ascii_utf8_len(n);
    assert(n != seq!['.']) by {
        assert(seq!['.'][0] == '.');
    }
    assert(n != seq!['.', '.']) by {
        assert(seq!['.', '.'][0] == '.');
    }
    assert forall|i: int| 0 <= i < n.len() implies bucket_char(#[trigger] n[i]) by {
        assert(plain_name_char(n[i]));
    }
}

} // verus!
