use rusttyobject::listing::{checked_list_objects, content_type_for, list_objects, object_response, GithubTreeEntry};

fn blob(path: &str, size: Option<u64>, sha: Option<&str>) -> GithubTreeEntry {
    GithubTreeEntry {
        path: path.to_string(),
        entry_type: "blob".to_string(),
        size,
        sha: sha.map(|s| s.to_string()),
    }
}

fn tree(path: &str) -> GithubTreeEntry {
    GithubTreeEntry { path: path.to_string(), entry_type: "tree".to_string(), size: None, sha: None }
}

#[test]
fn listing_groups_objects_into_buckets() {
    let entries = vec![
        tree("photos"),
        blob("photos/b.png", Some(20), Some("s2")),
        blob("photos/a.png", Some(10), Some("s1")),
        blob("docs/.rustyobject", Some(5), None),
        blob("empty/.rustyobject", Some(5), None),
        blob("README.md", Some(3), None),
        blob("config.rustyobject", Some(100), None),
        blob(".rustyobject", Some(100), None),
        blob("docs/guide.txt", None, None),
    ];
    let listing = list_objects("alice", "store", "main", entries);
    let paths: Vec<&str> = listing.objects.iter().map(|o| o.path.as_str()).collect();
    assert_eq!(paths, vec!["README.md", "docs/guide.txt", "photos/a.png", "photos/b.png"]);
    let buckets: Vec<(&str, usize, u64)> =
        listing.buckets.iter().map(|b| (b.name.as_str(), b.objects, b.size)).collect();
    assert_eq!(
        buckets,
        vec![("docs", 1, 0), ("empty", 0, 0), ("photos", 2, 30), ("root", 1, 3)]
    );
    assert_eq!(listing.objects[0].bucket, "root");
    assert_eq!(listing.objects[0].name, "README.md");
    let a = &listing.objects[2];
    assert_eq!(a.name, "a.png");
    assert_eq!(a.bucket, "photos");
    assert_eq!(a.sha, "s1");
    assert_eq!(a.size, 10);
    assert_eq!(a.updated, "synced");
    assert_eq!(a.content_type, "image/png");
    assert_eq!(a.raw_url, "https://raw.githubusercontent.com/alice/store/main/photos/a.png");
    assert_eq!(a.download_url, a.raw_url);
    let guide = &listing.objects[1];
    assert_eq!(guide.sha, "");
    assert_eq!(guide.size, 0);
}

#[test]
fn listing_encodes_branch_and_path_segments() {
    let entries = vec![blob("my files/r\u{e9}sum\u{e9} 1.txt", Some(1), None)];
    let listing = list_objects("o", "r", "feature/x y", entries);
    assert_eq!(
        listing.objects[0].raw_url,
        "https://raw.githubusercontent.com/o/r/feature%2Fx%20y/my%20files/r%C3%A9sum%C3%A9%201.txt"
    );
    assert_eq!(listing.objects[0].bucket, "my files");
    assert_eq!(listing.objects[0].name, "r\u{e9}sum\u{e9} 1.txt");
}

#[test]
fn listing_refuses_bucket_sizes_over_u64() {
    let entries = vec![blob("a/x", Some(u64::MAX), None), blob("a/y", Some(1), None)];
    assert!(checked_list_objects("o", "r", "main", entries).is_none());
    let fine = vec![blob("a/x", Some(u64::MAX), None), blob("b/y", Some(1), None)];
    let listing = checked_list_objects("o", "r", "main", fine).unwrap();
    assert_eq!(listing.buckets.len(), 2);
    assert_eq!(listing.buckets[0].size, u64::MAX);
}

#[test]
fn marker_of_an_existing_bucket_keeps_its_totals() {
    let entries = vec![blob("p/a", Some(4), None), blob("p/.rustyobject", None, None)];
    let listing = list_objects("o", "r", "main", entries);
    assert_eq!(listing.buckets.len(), 1);
    assert_eq!((listing.buckets[0].objects, listing.buckets[0].size), (1, 4));
    assert_eq!(listing.objects.len(), 1);
}

#[test]
fn content_types_come_from_the_extension() {
    assert_eq!(content_type_for("a/b.png"), "image/png");
    assert_eq!(content_type_for("notes.txt"), "text/plain");
    assert_eq!(content_type_for("data.json"), "application/json");
    assert_eq!(content_type_for("no_extension"), "application/octet-stream");
}

#[test]
fn an_object_response_describes_one_entry() {
    let o = object_response("o", "r", "dev", blob("x/y/z.txt", Some(7), Some("abc")));
    assert_eq!(o.path, "x/y/z.txt");
    assert_eq!(o.name, "z.txt");
    assert_eq!(o.bucket, "x");
    assert_eq!(o.raw_url, "https://raw.githubusercontent.com/o/r/dev/x/y/z.txt");
}

#[test]
fn objects_at_the_same_path_keep_tree_order() {
    let entries = vec![
        blob("b/x", Some(1), Some("first")),
        blob("a/y", Some(2), None),
        blob("b/x", Some(3), Some("second")),
    ];
    let listing = list_objects("o", "r", "main", entries);
    let order: Vec<(&str, &str)> = listing.objects.iter().map(|o| (o.path.as_str(), o.sha.as_str())).collect();
    assert_eq!(order, vec![("a/y", ""), ("b/x", "first"), ("b/x", "second")]);
}
