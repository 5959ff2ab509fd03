use rusttyobject::json::JsonValue;
use rusttyobject::uploads::{
    bucket_exists, classify_lookup, field_kind, listed_branch, lookup_sha, plan_bucket, preview_endpoint, usable_branch, Lookup,
    UploadField, UploadForm, MAX_UPLOAD_BYTES,
};

#[test]
fn lookups_read_by_status() {
    assert_eq!(classify_lookup(200), Lookup::Exists);
    assert_eq!(classify_lookup(204), Lookup::Exists);
    assert_eq!(classify_lookup(404), Lookup::Missing);
    assert_eq!(classify_lookup(403), Lookup::Failed);
    assert_eq!(classify_lookup(301), Lookup::Failed);
}

#[test]
fn blank_branches_are_not_used() {
    assert_eq!(usable_branch(Some("dev".to_string())), Some("dev".to_string()));
    assert_eq!(usable_branch(Some("  ".to_string())), None);
    assert_eq!(usable_branch(None), None);
}

#[test]
fn a_bucket_is_created_by_writing_its_marker() {
    let plan = plan_bucket("My Bucket", "o", "r", Some(" ".to_string()), "main".to_string(), None);
    assert_eq!(plan.branch, "main");
    assert_eq!(plan.marker_path, "My Bucket/.rustyobject");
    assert_eq!(plan.put_endpoint, "/repos/o/r/contents/My%20Bucket/.rustyobject");
    assert_eq!(plan.lookup_endpoint, "/repos/o/r/contents/My%20Bucket/.rustyobject?ref=main");
    assert_eq!(plan.message, "Create bucket My Bucket via RusttyObject");
    assert_eq!(plan.content, "UnVzdHR5T2JqZWN0IGJ1Y2tldCBtYXJrZXIK");
    let other = plan_bucket("b", "o", "r", Some("dev".to_string()), "main".to_string(), Some("m".to_string()));
    assert_eq!(other.branch, "dev");
    assert_eq!(other.message, "m");
    let e = bucket_exists("photos");
    assert_eq!(e.status, 409);
    assert_eq!(e.message, "Bucket 'photos' already exists");
}

#[test]
fn previews_read_the_contents_endpoint() {
    assert_eq!(
        preview_endpoint("o", "r", "a/b c.png", "feat/1"),
        "/repos/o/r/contents/a/b%20c.png?ref=feat%2F1"
    );
}

#[test]
fn upload_fields_are_recognized_by_name() {
    assert_eq!(field_kind("file"), UploadField::File);
    assert_eq!(field_kind("bucket"), UploadField::Bucket);
    assert_eq!(field_kind("path"), UploadField::Path);
    assert_eq!(field_kind("branch"), UploadField::Branch);
    assert_eq!(field_kind("message"), UploadField::Message);
    assert_eq!(field_kind("other"), UploadField::Other);
}

#[test]
fn uploads_land_in_their_bucket() {
    let mut form = UploadForm::new();
    form.accept_text(UploadField::Bucket, "photos".to_string());
    form.accept_file(Some("cat.png".to_string()), b"hi".to_vec()).unwrap();
    let ready = form.finish().unwrap();
    assert_eq!(ready.file_path, "photos/cat.png");
    let plan = ready.plan("o", "r", "main".to_string());
    assert_eq!(plan.branch, "main");
    assert_eq!(plan.put_endpoint, "/repos/o/r/contents/photos/cat.png");
    assert_eq!(plan.lookup_endpoint, "/repos/o/r/contents/photos/cat.png?ref=main");
    assert_eq!(plan.message, "Upload photos/cat.png via RusttyObject");
    assert_eq!(plan.content, "aGk=");
}

#[test]
fn uploads_to_root_or_an_explicit_path() {
    let mut form = UploadForm::new();
    form.accept_file(Some("a.txt".to_string()), Vec::new()).unwrap();
    assert_eq!(form.finish().unwrap().file_path, "a.txt");

    let mut form = UploadForm::new();
    form.accept_text(UploadField::Path, " /x/y.txt ".to_string());
    form.accept_text(UploadField::Branch, "dev".to_string());
    form.accept_text(UploadField::Message, "msg".to_string());
    form.accept_file(Some("ignored.txt".to_string()), b"z".to_vec()).unwrap();
    let ready = form.finish().unwrap();
    assert_eq!(ready.file_path, "x/y.txt");
    let plan = ready.plan("o", "r", "main".to_string());
    assert_eq!(plan.branch, "dev");
    assert_eq!(plan.message, "msg");
}

#[test]
fn uploads_need_a_named_file_and_a_safe_path() {
    assert_eq!(UploadForm::new().finish().unwrap_err().message, "A file is required");
    let mut form = UploadForm::new();
    form.accept_file(None, b"x".to_vec()).unwrap();
    assert_eq!(form.finish().unwrap_err().message, "The uploaded file has no name");
    let mut form = UploadForm::new();
    form.accept_text(UploadField::Path, "../etc/passwd".to_string());
    form.accept_file(Some("f".to_string()), b"x".to_vec()).unwrap();
    let err = form.finish().unwrap_err();
    assert_eq!(err.status, 400);
    assert_eq!(err.message, "File paths must be relative and cannot contain . or .. segments");
}

#[test]
fn uploads_over_100_mb_are_refused() {
    let mut form = UploadForm::new();
    let err = form.accept_file(Some("big".to_string()), vec![0u8; MAX_UPLOAD_BYTES + 1]).unwrap_err();
    assert_eq!(err.status, 400);
    assert_eq!(err.message, "GitHub Contents API uploads are limited to 100 MB");
    assert!(form.bytes.is_none());
    assert_eq!(form.file_name.as_deref(), Some("big"));
    form.accept_file(Some("ok".to_string()), vec![0u8; MAX_UPLOAD_BYTES]).unwrap();
    assert_eq!(form.bytes.as_ref().map(|b| b.len()), Some(MAX_UPLOAD_BYTES));
}

#[test]
fn uploads_replace_the_existing_version() {
    let body = || {
        JsonValue::Object(vec![
            ("name".to_string(), JsonValue::Str("b.txt".to_string())),
            ("sha".to_string(), JsonValue::Str("feed".to_string())),
        ])
    };
    assert_eq!(lookup_sha(Lookup::Exists, Some(body())), Some("feed".to_string()));
    assert_eq!(lookup_sha(Lookup::Exists, None), None);
    assert_eq!(lookup_sha(Lookup::Missing, Some(body())), None);
    let not_text = JsonValue::Object(vec![("sha".to_string(), JsonValue::Null)]);
    assert_eq!(lookup_sha(Lookup::Exists, Some(not_text)), None);
}

#[test]
fn listings_read_the_requested_or_default_branch() {
    assert_eq!(listed_branch(Some("dev".to_string()), "main".to_string()), "dev");
    assert_eq!(listed_branch(None, "main".to_string()), "main");
    assert_eq!(listed_branch(Some(" ".to_string()), "main".to_string()), " ");
}
