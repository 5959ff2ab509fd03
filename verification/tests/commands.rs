use rusttyobject::cli::{after_lookup, after_write, cli_reply, normalize_repo, plan_sync, split_repository, write_accepted};
use rusttyobject::json::JsonValue;

#[test]
fn repositories_are_read_as_owner_and_name() {
    assert_eq!(normalize_repo("owner/name").unwrap(), "owner/name");
    assert_eq!(normalize_repo("  https://github.com/owner/name.git/ ").unwrap(), "owner/name");
    assert_eq!(normalize_repo("http://github.com/x/y").unwrap(), "x/y");
    assert_eq!(normalize_repo("owner//name///").unwrap(), "owner/name");
    assert_eq!(normalize_repo("a/b.git.git").unwrap(), "a/b");
    assert_eq!(normalize_repo("/a/b/").unwrap(), "a/b");
}

#[test]
fn other_repository_arguments_are_refused() {
    for bad in ["", "owner", "a/b/c", "https://github.com/owner", "https://gitlab.com/a/b"] {
        let err = normalize_repo(bad).unwrap_err();
        assert_eq!(err.message, "repository must be owner/name or a GitHub repository URL");
    }
}

#[test]
fn repositories_split_at_the_first_slash() {
    assert_eq!(split_repository("o/r").unwrap(), ("o".to_string(), "r".to_string()));
    assert_eq!(split_repository("o/r/x").unwrap(), ("o".to_string(), "r/x".to_string()));
    assert_eq!(split_repository("o").unwrap_err().message, "repository must be owner/name");
}

#[test]
fn push_sends_each_file_to_the_contents_api() {
    let plan = plan_sync("o", "r", "main", "dir/a b.txt", b"hello");
    assert_eq!(plan.endpoint, "https://api.github.com/repos/o/r/contents/dir/a%20b.txt");
    assert_eq!(plan.lookup_url, "https://api.github.com/repos/o/r/contents/dir/a%20b.txt?ref=main");
    assert_eq!(plan.message, "Sync dir/a b.txt via RusttyObject");
    assert_eq!(plan.content, "aGVsbG8=");
    assert_eq!(plan_sync("o", "r", "main", "x", b"x").content, "eA==");
    assert_eq!(plan_sync("o", "r", "main", "x", b"").content, "");
    assert_eq!(plan_sync("o", "r", "main", "x", &[0xfb, 0xff]).content, "+/8=");
}

#[test]
fn the_prompt_answers_known_commands() {
    assert_eq!(cli_reply(" v\n", "0.1.0"), "RusttyObject 0.1.0");
    assert_eq!(cli_reply("i", "0.1.0"), "Use `rusttyobject init --repo owner/name` to create an index.");
    assert_eq!(cli_reply("r\r\n", "0.1.0"), "Validation is performed when `config.rustyobject` is read.");
    assert_eq!(cli_reply("x", "0.1.0"), "Unknown command. Try `rusttyobject --help`.");
}

fn sha_body(sha: &str) -> JsonValue {
    JsonValue::Object(vec![("sha".to_string(), JsonValue::Str(sha.to_string()))])
}

#[test]
fn push_writes_over_the_version_that_the_lookup_found() {
    let sha = after_lookup("a/b.txt", 200, "200 OK", Some(sha_body("abc123"))).unwrap();
    assert_eq!(sha, Some("abc123".to_string()));
    let missing = after_lookup("a/b.txt", 404, "404 Not Found", None).unwrap();
    assert_eq!(missing, None);
    let no_sha = after_lookup("a/b.txt", 200, "200 OK", Some(JsonValue::Object(vec![]))).unwrap();
    assert_eq!(no_sha, None);
}

#[test]
fn push_stops_on_a_failed_lookup() {
    let error = after_lookup("a/b.txt", 500, "500 Internal Server Error", Some(sha_body("x"))).unwrap_err();
    assert_eq!(error.message, "GitHub rejected lookup for a/b.txt: 500 Internal Server Error");
    let error = after_lookup("c.txt", 302, "302 Found", None).unwrap_err();
    assert_eq!(error.message, "GitHub rejected lookup for c.txt: 302 Found");
}

#[test]
fn push_reports_each_write() {
    assert!(write_accepted(201));
    assert!(!write_accepted(422));
    assert_eq!(after_write("a/b.txt", 201, "").unwrap(), "Synced a/b.txt");
    assert_eq!(after_write("a/b.txt", 200, "").unwrap(), "Synced a/b.txt");
    let error = after_write("a/b.txt", 422, "{\"message\":\"sha wasn't supplied\"}").unwrap_err();
    assert_eq!(error.message, "GitHub rejected a/b.txt: {\"message\":\"sha wasn't supplied\"}");
}

#[test]
fn normalized_repositories_normalize_to_themselves() {
    for raw in ["https://github.com/owner/name.git/", " a/b ", "http://github.com/x/y", "o//n///"] {
        let once = normalize_repo(raw).unwrap();
        assert_eq!(normalize_repo(&once).unwrap(), once);
    }
}
