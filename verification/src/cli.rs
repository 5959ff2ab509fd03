//! The command line: the repository names it accepts, the requests that `push`
//! sends for each indexed file, and the answers of the interactive prompt.

use vstd::prelude::*;
use crate::github::{encoded, encoded_path, encode_path, with_ref};
use crate::json::JsonValue;
use crate::outside::{base64_chars, base64_encode};
use crate::uploads::{classify_lookup, lookup_of, lookup_sha, sha_to_send, Lookup};
use crate::text::{
    lemma_split_pieces, lemma_split_two, char_pred, ends_with, split_char, split_on, split_once_char, first_index, starts_with,
    str_eq, strip_prefix_once, strip_suffixes, strip_suffixes_str, trim, trim_end_by,
    trim_end_pat, trim_ws, Pat,
};

verus! {

/// An error of a command, with the message that the command prints.
#[derive(Debug)]
pub struct CliError {
    pub message: String,
}

pub open spec fn repo_error_message() -> Seq<char> {
    "repository must be owner/name or a GitHub repository URL"@
}

pub open spec fn owner_name_message() -> Seq<char> {
    "repository must be owner/name"@
}

/// What is left of a repository argument before it is split: surrounding whitespace,
/// trailing slashes and trailing `.git` removed, then a leading
/// `https://github.com/` or `http://github.com/`.
pub open spec fn repo_text(repo: Seq<char>) -> Seq<char> {
    let v = strip_suffixes(trim_end_by(trim_ws(repo), char_pred('/')), ".git"@);
    if starts_with(v, "https://github.com/"@) {
        v.skip("https://github.com/"@.len() as int)
    } else if starts_with(v, "http://github.com/"@) {
        v.skip("http://github.com/"@.len() as int)
    } else {
        v
    }
}

/// The non-empty piece predicate.
pub open spec fn non_empty() -> spec_fn(Seq<char>) -> bool {
    |p: Seq<char>| p.len() > 0
}

/// The non-empty `/`-separated pieces of a repository argument.
pub open spec fn repo_parts(repo: Seq<char>) -> Seq<Seq<char>> {
    split_on(repo_text(repo), '/').filter(non_empty())
}

/// Reads a repository argument, `owner/name` or a GitHub repository URL, as
/// `owner/name`.
pub fn normalize_repo(repo: &str) -> (r: Result<String, CliError>)
    ensures
        match r {
            Ok(s) => repo_parts(repo@).len() == 2 && s@ == repo_parts(repo@)[0] + "/"@ + repo_parts(repo@)[1],
            Err(e) => repo_parts(repo@).len() != 2 && e.message@ == repo_error_message(),
        },
        r is Ok ==> forall|i: int|
            0 <= i < 2 ==> (#[trigger] repo_parts(repo@)[i]).len() > 0 && !repo_parts(repo@)[i].contains('/'),
{
    let t = trim(repo);
    let u = trim_end_pat(t.as_str(), Pat::Ch('/'));
    let v = strip_suffixes_str(u.as_str(), ".git");
    let value = match strip_prefix_once(v.as_str(), "https://github.com/") {
        Some(x) => x,
        None => match strip_prefix_once(v.as_str(), "http://github.com/") {
            Some(x) => x,
            None => v,
        },
    };
    let pieces = split_char(value.as_str(), '/');
    let ghost all = pieces.deep_view();
    let mut parts: Vec<String> = Vec::new();
    let mut i: usize = 0;
    while i < pieces.len()
        invariant
            i <= pieces@.len(),
            all == pieces.deep_view(),
            parts.deep_view() == all.take(i as int).filter(non_empty()),
        decreases pieces@.len() - i,
    {
        let ghost before = parts.deep_view();
        proof {
            all.take(i as int).lemma_filter_push(all[i as int], non_empty());
            assert(all.take(i + 1) =~= all.take(i as int).push(all[i as int]));
            assert(all[i as int] == pieces@[i as int]@);
        }
        if !pieces[i].as_str().is_empty() {
            parts.push(pieces[i].clone());
            assert(parts.deep_view() =~= before.push(all[i as int]));
        }
        i += 1;
    }
    assert(all.take(i as int) =~= all);
    if parts.len() != 2 {
        return Err(CliError { message: "repository must be owner/name or a GitHub repository URL".to_string() });
    }
    let ghost ps = parts.deep_view();
    assert(ps[0] == parts@[0]@ && ps[1] == parts@[1]@);
    proof {
        lemma_split_pieces(value@, '/');
        assert forall|i: int| 0 <= i < 2 implies (#[trigger] ps[i]).len() > 0 && !ps[i].contains('/') by {
            all.lemma_filter_pred(non_empty(), i);
            all.lemma_filter_contains_rev(non_empty(), ps[i]);
            assert(ps.contains(ps[i]));
        }
    }
    let mut s = parts[0].clone();
    s.append("/");
    s.append(parts[1].as_str());
    Ok(s)
}

/// The `owner/name` that `normalize_repo` gives for a repository argument with two parts.
pub open spec fn owner_and_name(repo: Seq<char>) -> Seq<char> {
    repo_parts(repo)[0] + "/"@ + repo_parts(repo)[1]
}

/// The two parts of a repository argument that has two are non-empty and hold no `/`.
proof fn lemma_repo_parts_plain(repo: Seq<char>)
    requires
        repo_parts(repo).len() == 2,
    ensures
        forall|i: int| 0 <= i < 2 ==> (#[trigger] repo_parts(repo)[i]).len() > 0 && !repo_parts(repo)[i].contains('/'),
{
    let all = split_on(repo_text(repo), '/');
    let ps = repo_parts(repo);
    lemma_split_pieces(repo_text(repo), '/');
    assert forall|i: int| 0 <= i < 2 implies (#[trigger] ps[i]).len() > 0 && !ps[i].contains('/') by {
        all.lemma_filter_pred(non_empty(), i);
        all.lemma_filter_contains_rev(non_empty(), ps[i]);
        assert(ps.contains(ps[i]));
    }
}

/// A repository name that `normalize_repo` gave back, with no surrounding whitespace
/// and not ending in `.git`, is given back as it is: normalizing it again changes nothing.
pub proof fn law_normalized_repo_is_fixed(repo: Seq<char>)
    requires
        repo_parts(repo).len() == 2,
        trim_ws(owner_and_name(repo)) == owner_and_name(repo),
        !ends_with(owner_and_name(repo), ".git"@),
    ensures
        repo_parts(owner_and_name(repo)).len() == 2,
        owner_and_name(owner_and_name(repo)) == owner_and_name(repo),
{
    lemma_repo_parts_plain(repo);
    let a = repo_parts(repo)[0];
    let b = repo_parts(repo)[1];
    let s = owner_and_name(repo);
    reveal_strlit("/");
    assert(s =~= a + seq!['/'] + b);
    assert(s.last() == b.last()) by {
        assert(b[b.len() - 1] == b.last());
    }
    assert(b.last() != '/') by {
        assert(b[b.len() - 1] == b.last());
    }
    assert(trim_end_by(s, char_pred('/')) == s);
    assert(strip_suffixes(s, ".git"@) == s);
    assert forall|i: int| 0 <= i < s.len() && s[i] == '/' implies i == a.len() by {
        if i < a.len() {
            assert(s[i] == a[i]);
        } else if i > a.len() {
            assert(s[i] == b[i - a.len() - 1]);
        }
    }
    reveal_strlit("https://github.com/");
    reveal_strlit("http://github.com/");
    assert(!starts_with(s, "https://github.com/"@)) by {
        if starts_with(s, "https://github.com/"@) {
            assert(s[6] == "https://github.com/"@[6]);
            assert(s[7] == "https://github.com/"@[7]);
        }
    }
    assert(!starts_with(s, "http://github.com/"@)) by {
        if starts_with(s, "http://github.com/"@) {
            assert(s[5] == "http://github.com/"@[5]);
            assert(s[6] == "http://github.com/"@[6]);
        }
    }
    assert(repo_text(s) == s);
    lemma_split_two(a, b, '/');
    let two = seq![a, b];
    assert(two =~= Seq::<Seq<char>>::empty().push(a).push(b));
    Seq::<Seq<char>>::empty().lemma_filter_push(a, non_empty());
    Seq::<Seq<char>>::empty().push(a).lemma_filter_push(b, non_empty());
    assert(Seq::<Seq<char>>::empty().filter(non_empty()) =~= Seq::<Seq<char>>::empty()) by {
        reveal(Seq::filter);
    }
    assert(repo_parts(s) =~= two);
}

/// Splits the repository of an index into owner and name at its first `/`.
pub fn split_repository(repository: &str) -> (r: Result<(String, String), CliError>)
    ensures
        match first_index(repository@, '/') {
            Some(i) => r matches Ok((o, n)) && o@ == repository@.take(i) && n@ == repository@.skip(i + 1),
            None => r matches Err(e) && e.message@ == owner_name_message(),
        },
{
    match split_once_char(repository, '/') {
        Some(pair) => Ok(pair),
        None => Err(CliError { message: "repository must be owner/name".to_string() }),
    }
}

/// Everything that `push` sends to GitHub for one indexed file.
#[derive(Debug, Clone)]
pub struct SyncPlan {
    pub endpoint: String,
    pub lookup_url: String,
    pub message: String,
    pub content: String,
}

/// The contents API URL of a file of `owner/repo`.
pub open spec fn sync_endpoint_of(owner: Seq<char>, repo: Seq<char>, path: Seq<char>) -> Seq<char> {
    "https://api.github.com/repos/"@ + owner + "/"@ + repo + "/contents/"@ + encoded_path(path)
}

/// The requests that `push` sends for the indexed file `path` with content `bytes`:
/// a lookup on the branch, then a write with the message `Sync {path} via RusttyObject`.
pub fn plan_sync(owner: &str, repo: &str, branch: &str, path: &str, bytes: &[u8]) -> (p: SyncPlan)
    ensures
        p.endpoint@ == sync_endpoint_of(owner@, repo@, path@),
        p.lookup_url@ == p.endpoint@ + "?ref="@ + encoded(branch@),
        p.message@ == "Sync "@ + path@ + " via RusttyObject"@,
        p.content@ == base64_chars(bytes@),
{
    let mut endpoint = "https://api.github.com/repos/".to_string();
    endpoint.append(owner);
    endpoint.append("/");
    endpoint.append(repo);
    endpoint.append("/contents/");
    let e = encode_path(path);
    endpoint.append(e.as_str());
    let lookup_url = with_ref(endpoint.as_str(), branch);
    let mut message = "Sync ".to_string();
    message.append(path);
    message.append(" via RusttyObject");
    let content = base64_encode(bytes);
    SyncPlan { endpoint, lookup_url, message, content }
}

/// The error of `push` when the lookup of `path` failed with the status `status`.
pub open spec fn lookup_rejected_message(path: Seq<char>, status: Seq<char>) -> Seq<char> {
    "GitHub rejected lookup for "@ + path + ": "@ + status
}

/// The error of `push` when GitHub refused the write of `path` with the answer `body`.
pub open spec fn write_rejected_message(path: Seq<char>, body: Seq<char>) -> Seq<char> {
    "GitHub rejected "@ + path + ": "@ + body
}

/// The line that `push` prints for a file it wrote.
pub open spec fn synced_line(path: Seq<char>) -> Seq<char> {
    "Synced "@ + path
}

/// Whether a write was accepted: a `2xx` status.
pub open spec fn write_succeeded(status: u16) -> bool {
    200 <= status <= 299
}

/// Whether a write was accepted: a `2xx` status.
pub fn write_accepted(status: u16) -> (r: bool)
    ensures
        r == write_succeeded(status),
{
    200 <= status && status <= 299
}

/// What `push` makes of the lookup of the indexed file `path`: the `sha` that its
/// write sends (that of the existing file, or none for a new one), or the error
/// that stops the push when the lookup failed. `status_text` is the status as
/// printed, and `body` the answer of a lookup that found the file.
pub fn after_lookup(path: &str, status: u16, status_text: &str, body: Option<JsonValue>) -> (r: Result<Option<String>, CliError>)
    ensures
        match r {
            Ok(sha) => lookup_of(status) != Lookup::Failed && match sha {
                Some(s) => sha_to_send(lookup_of(status), body) == Some(s@),
                None => sha_to_send(lookup_of(status), body) is None,
            },
            Err(e) => lookup_of(status) == Lookup::Failed && e.message@ == lookup_rejected_message(path@, status_text@),
        },
{
    let lookup = classify_lookup(status);
    match lookup {
        Lookup::Failed => {
            let mut message = "GitHub rejected lookup for ".to_string();
            message.append(path);
            message.append(": ");
            message.append(status_text);
            Err(CliError { message })
        },
        _ => Ok(lookup_sha(lookup, body)),
    }
}

/// What `push` makes of the answer to the write of `path`: the line it prints when
/// the write was accepted, or the error, with the answer's `body`, that stops the push.
pub fn after_write(path: &str, status: u16, body: &str) -> (r: Result<String, CliError>)
    ensures
        match r {
            Ok(line) => write_succeeded(status) && line@ == synced_line(path@),
            Err(e) => !write_succeeded(status) && e.message@ == write_rejected_message(path@, body@),
        },
{
    if write_accepted(status) {
        let mut line = "Synced ".to_string();
        line.append(path);
        Ok(line)
    } else {
        let mut message = "GitHub rejected ".to_string();
        message.append(path);
        message.append(": ");
        message.append(body);
        Err(CliError { message })
    }
}

/// The answer of the interactive prompt to one line of input.
pub open spec fn prompt_reply(input: Seq<char>, version: Seq<char>) -> Seq<char> {
    let t = trim_ws(input);
    if t == "v"@ {
        "RusttyObject "@ + version
    } else if t == "i"@ {
        "Use `rusttyobject init --repo owner/name` to create an index."@
    } else if t == "r"@ {
        "Validation is performed when `config.rustyobject` is read."@
    } else {
        "Unknown command. Try `rusttyobject --help`."@
    }
}

/// The answer of the interactive prompt to one line of input.
pub fn cli_reply(input: &str, version: &str) -> (r: String)
    ensures
        r@ == prompt_reply(input@, version@),
{
    let t = trim(input);
    if str_eq(t.as_str(), "v") {
        let mut r = "RusttyObject ".to_string();
        r.append(version);
        r
    } else if str_eq(t.as_str(), "i") {
        "Use `rusttyobject init --repo owner/name` to create an index.".to_string()
    } else if str_eq(t.as_str(), "r") {
        "Validation is performed when `config.rustyobject` is read.".to_string()
    } else {
        "Unknown command. Try `rusttyobject --help`.".to_string()
    }
}

} // verus!
