//! The local index of a workspace, `config.rustyobject`: what it holds and how it is
//! built from the files of the workspace.

use vstd::prelude::*;
use crate::listing::{content_type_for, content_type_of};
use crate::outside::{since_epoch, sha256, sha256_of, whole_seconds};
use crate::sort::{Keyed, sort_by_key, sorted_by_key, with_key};
use crate::text::{lemma_split_join, lemma_split_without_sep, first_piece, replace_char, replaced, split_char, split_on, starts_with, str_eq, str_starts_with};

verus! {

/// The name of the index file.
pub open spec fn config_file_name() -> Seq<char> {
    "config.rustyobject"@
}

/// The name of the index file of older versions, still read.
pub open spec fn legacy_config_file_name() -> Seq<char> {
    ".rustyobject"@
}

/// One indexed file: its path relative to the workspace with `/` separators, its
/// size in bytes, the lower-case hex SHA-256 of its content, and its media type.
#[derive(Debug, Clone)]
pub struct ObjectEntry {
    pub path: String,
    pub size: u64,
    pub sha256: String,
    pub content_type: String,
}

/// The index of a workspace.
#[derive(Debug, Clone)]
pub struct RustyConfig {
    pub version: u8,
    pub repository: String,
    pub branch: String,
    pub root: String,
    pub generated_at: u64,
    pub objects: Vec<ObjectEntry>,
}

impl Keyed for ObjectEntry {
    open spec fn key_of(&self) -> Seq<char> {
        self.path@
    }

    fn key(&self) -> (k: &str) {
        self.path.as_str()
    }
}

/// `Path::join` of a relative name onto `base`, with `/` as the separator.
pub open spec fn joined(base: Seq<char>, name: Seq<char>) -> Seq<char> {
    if base.len() == 0 {
        name
    } else if base.last() == '/' {
        base + name
    } else {
        base + "/"@ + name
    }
}

/// `Path::join` of a relative name onto `base`, with `/` as the separator.
pub fn join_path(base: &str, name: &str) -> (r: String)
    ensures
        r@ == joined(base@, name@),
{
    let mut r = base.to_string();
    if base.is_empty() {
        return name.to_string();
    }
    let v = crate::text::chars_of(base);
    if v[v.len() - 1] != '/' {
        r.append("/");
    }
    r.append(name);
    r
}

/// The index file of a workspace.
pub fn config_path(workspace: &str) -> (r: String)
    ensures
        r@ == joined(workspace@, config_file_name()),
{
    join_path(workspace, "config.rustyobject")
}

/// The file that the index is read from: `config.rustyobject` when it exists, else
/// the older `.rustyobject`.
pub fn read_config_path(workspace: &str, config_exists: bool) -> (r: String)
    ensures
        r@ == joined(workspace@, if config_exists {
            config_file_name()
        } else {
            legacy_config_file_name()
        }),
{
    if config_exists {
        config_path(workspace)
    } else {
        join_path(workspace, ".rustyobject")
    }
}

/// The directories that the index leaves out.
pub open spec fn ignored_name(name: Seq<char>) -> bool {
    name == ".git"@ || name == "target"@ || name == "node_modules"@ || name == ".next"@ || name == "dist"@
}

/// The components of `/`-separated pieces that name a step: the pieces that are
/// neither empty (a repeated or trailing `/`) nor `.`.
pub open spec fn named_pieces(pieces: Seq<Seq<char>>) -> Seq<Seq<char>>
    decreases pieces.len(),
{
    if pieces.len() == 0 {
        Seq::<Seq<char>>::empty()
    } else {
        let rest = named_pieces(pieces.drop_last());
        let x = pieces.last();
        if x.len() > 0 && x != "."@ {
            rest.push(x)
        } else {
            rest
        }
    }
}

/// A `/`-separated path as `std::path::Path` compares it: whether it starts at the
/// root, whether it starts with the component `.`, and its other components.
pub open spec fn path_parts(p: Seq<char>) -> (bool, bool, Seq<Seq<char>>) {
    (starts_with(p, "/"@), split_on(p, '/')[0] == "."@, named_pieces(split_on(p, '/')))
}

/// The last component of a `/`-separated path as `Path::file_name` gives it: a
/// trailing `/` or `.` is passed over, and a path that ends in `..` (or names no
/// component) has none.
pub open spec fn file_name_of(p: Seq<char>) -> Option<Seq<char>> {
    let n = named_pieces(split_on(p, '/'));
    if n.len() == 0 || n.last() == ".."@ {
        None
    } else {
        Some(n.last())
    }
}

/// The components of a `/`-separated path that name a step.
fn named_pieces_of(s: &str) -> (r: Vec<String>)
    ensures
        r.deep_view() == named_pieces(split_on(s@, '/')),
{
    let parts = split_char(s, '/');
    let ghost all = parts.deep_view();
    let mut out: Vec<String> = Vec::new();
    let mut i: usize = 0;
    assert(all.take(0) =~= Seq::<Seq<char>>::empty());
    assert(out.deep_view() =~= Seq::<Seq<char>>::empty());
    while i < parts.len()
        invariant
            i <= parts@.len(),
            all == parts.deep_view(),
            all == split_on(s@, '/'),
            out.deep_view() == named_pieces(all.take(i as int)),
        decreases parts@.len() - i,
    {
        assert(all.take(i as int + 1).drop_last() =~= all.take(i as int));
        assert(all.take(i as int + 1).last() == parts@[i as int]@);
        let x = parts[i].as_str();
        if !x.is_empty() && !str_eq(x, ".") {
            let ghost before = out.deep_view();
            out.push(parts[i].clone());
            assert(out.deep_view() =~= before.push(parts@[i as int]@));
        }
        i += 1;
    }
    assert(all.take(all.len() as int) =~= all);
    out
}

/// Whether two lists of strings are equal.
fn strings_eq(a: &Vec<String>, b: &Vec<String>) -> (r: bool)
    ensures
        r == (a.deep_view() == b.deep_view()),
{
    if a.len() != b.len() {
        assert(a.deep_view().len() != b.deep_view().len());
        return false;
    }
    let mut i: usize = 0;
    while i < a.len()
        invariant
            a@.len() == b@.len(),
            i <= a@.len(),
            forall|j: int| 0 <= j < i ==> a@[j]@ == b@[j]@,
        decreases a@.len() - i,
    {
        if !str_eq(a[i].as_str(), b[i].as_str()) {
            assert(a.deep_view()[i as int] != b.deep_view()[i as int]);
            return false;
        }
        i += 1;
    }
    assert(a.deep_view() =~= b.deep_view());
    true
}

/// Whether the walk of `workspace` leaves out the directory `path` and all below it.
pub open spec fn skipped_dir(path: Seq<char>, workspace: Seq<char>) -> bool {
    path_parts(path) != path_parts(workspace) && match file_name_of(path) {
        Some(name) => ignored_name(name),
        None => false,
    }
}

/// The names of the directories that the walk leaves out.
pub open spec fn skipped_names() -> Set<Seq<char>> {
    set![".git"@, "target"@, "node_modules"@, ".next"@, "dist"@]
}

/// A directory other than the workspace is left out exactly when it has a file name
/// and that name is `.git`, `target`, `node_modules`, `.next` or `dist`, compared as
/// it is, case included; any other name (such as `build`) is walked.
pub proof fn law_only_listed_names_are_skipped(path: Seq<char>, workspace: Seq<char>)
    requires
        path_parts(path) != path_parts(workspace),
    ensures
        skipped_dir(path, workspace) <==> (file_name_of(path) is Some && skipped_names().contains(
            file_name_of(path)->0,
        )),
{
}

/// The file name of `parent/name` is `name`, for a name that is a plain component:
/// not empty, `.` or `..`, and without `/`.
pub proof fn law_file_name_of_child(parent: Seq<char>, name: Seq<char>)
    requires
        name.len() > 0,
        !name.contains('/'),
        name != "."@,
        name != ".."@,
    ensures
        file_name_of(parent + "/"@ + name) == Some(name),
{
    reveal_strlit("/");
    let p = parent + "/"@ + name;
    assert(p =~= parent + seq!['/'] + name);
    lemma_split_join(parent, name, '/');
    lemma_split_without_sep(name, '/');
    let sp = split_on(parent, '/');
    assert(split_on(p, '/') =~= sp.push(name));
    assert(split_on(p, '/').drop_last() =~= sp);
}

/// Below any parent, a directory named `name` is left out exactly when `name` is
/// one of `.git`, `target`, `node_modules`, `.next` and `dist`, at every depth.
pub proof fn law_skipped_at_any_depth(parent: Seq<char>, name: Seq<char>, workspace: Seq<char>)
    requires
        name.len() > 0,
        !name.contains('/'),
        name != "."@,
        name != ".."@,
        path_parts(parent + "/"@ + name) != path_parts(workspace),
    ensures
        skipped_dir(parent + "/"@ + name, workspace) <==> skipped_names().contains(name),
{
    law_file_name_of_child(parent, name);
}

/// Whether the walk of the workspace leaves out `path` and all below it: never the
/// workspace itself (compared component by component, as `Path` does); otherwise
/// when its file name is `.git`, `target`, `node_modules`, `.next` or `dist`.
/// Both paths are written with `/`.
pub fn is_ignored_dir(path: &str, workspace: &str) -> (r: bool)
    ensures
        r == skipped_dir(path@, workspace@),
{
    let pp = named_pieces_of(path);
    let wp = named_pieces_of(workspace);
    let pc = first_piece(path, '/');
    let wc = first_piece(workspace, '/');
    let same = str_starts_with(path, "/") == str_starts_with(workspace, "/") && str_eq(pc.as_str(), ".")
        == str_eq(wc.as_str(), ".") && strings_eq(&pp, &wp);
    if same {
        return false;
    }
    if pp.len() == 0 {
        return false;
    }
    let last = pp.len() - 1;
    assert(pp.deep_view()[last as int] == pp@[last as int]@);
    let n = pp[last].as_str();
    if str_eq(n, "..") {
        return false;
    }
    str_eq(n, ".git") || str_eq(n, "target") || str_eq(n, "node_modules") || str_eq(n, ".next") || str_eq(
        n,
        "dist",
    )
}

/// Whether a file is an index file, which the index does not list.
pub fn is_config_file_name(name: &str) -> (r: bool)
    ensures
        r == (name@ == config_file_name() || name@ == legacy_config_file_name()),
{
    str_eq(name, "config.rustyobject") || str_eq(name, ".rustyobject")
}

/// A path relative to the workspace written with `/`, whatever the platform's separator.
pub fn portable_path(relative: &str, separator: char) -> (r: String)
    ensures
        r@ == replaced(relative@, separator, '/'),
{
    replace_char(relative, separator, '/')
}

/// A lower-case hexadecimal digit of a value below 16.
pub open spec fn hex_lower(d: int) -> char {
    if d < 10 {
        (48 + d) as char
    } else {
        (87 + d) as char
    }
}

/// Bytes as lower-case hex, two digits each.
pub open spec fn hex_of(bytes: Seq<u8>) -> Seq<char>
    decreases bytes.len(),
{
    if bytes.len() == 0 {
        Seq::<char>::empty()
    } else {
        hex_of(bytes.drop_last()) + seq![hex_lower(bytes.last() as int / 16), hex_lower(bytes.last() as int % 16)]
    }
}

fn hex_digit(d: u8) -> (c: char)
    requires
        d < 16,
    ensures
        c == hex_lower(d as int),
{
    if d < 10 {
        (48 + d) as char
    } else {
        (87 + d) as char
    }
}

/// Bytes as lower-case hex, two digits each (`{:x}` of a digest).
pub fn to_hex(bytes: &[u8]) -> (r: String)
    ensures
        r@ == hex_of(bytes@),
{
    let mut r = String::new();
    let mut i: usize = 0;
    while i < bytes.len()
        invariant
            i <= bytes@.len(),
            r@ == hex_of(bytes@.take(i as int)),
        decreases bytes@.len() - i,
    {
        assert(bytes@.take(i + 1).drop_last() =~= bytes@.take(i as int));
        let b = bytes[i];
        crate::text::push_char(&mut r, hex_digit(b / 16));
        crate::text::push_char(&mut r, hex_digit(b % 16));
        i += 1;
    }
    assert(bytes@.take(i as int) =~= bytes@);
    r
}

/// The index entry of a file with relative path `path` and content `bytes`.
pub fn object_entry(path: String, bytes: &[u8]) -> (e: ObjectEntry)
    ensures
        e.path == path,
        e.size == bytes@.len(),
        e.sha256@ == hex_of(sha256_of(bytes@)),
        e.sha256@.len() == 64,
        e.content_type@ == content_type_of(path@),
{
    let digest = sha256(bytes);
    let hex = to_hex(digest.as_slice());
    proof {
        lemma_hex_len(digest@);
    }
    let content_type = content_type_for(path.as_str());
    ObjectEntry { path, size: bytes.len() as u64, sha256: hex, content_type }
}

/// Hex takes two characters per byte.
pub proof fn lemma_hex_len(bytes: Seq<u8>)
    ensures
        hex_of(bytes).len() == 2 * bytes.len(),
    decreases bytes.len(),
{
    if bytes.len() > 0 {
        lemma_hex_len(bytes.drop_last());
    }
}

/// The entries of an index, ordered by path; entries with the same path keep their order.
pub fn sorted_entries(entries: Vec<ObjectEntry>) -> (r: Vec<ObjectEntry>)
    ensures
        sorted_by_key(r@),
        r@.to_multiset() == entries@.to_multiset(),
        forall|k: Seq<char>| #[trigger] with_key(r@, k) == with_key(entries@, k),
{
    sort_by_key(entries)
}

/// The time stamp an index carries for a reading of the clock: the whole seconds
/// since 1970, or `0` where the clock stood before 1970 (`Err`).
pub fn seconds_or_zero(clock: Result<u64, ()>) -> (t: u64)
    ensures
        t == match clock {
            Ok(s) => s,
            Err(_) => 0u64,
        },
{
    match clock {
        Ok(s) => s,
        Err(_) => 0,
    }
}

/// The seconds since 1970 on the machine's clock, `0` when the clock is before 1970.
/// Which value comes back rests on the clock alone; `seconds_or_zero` states what
/// is made of each reading.
pub fn now_unix() -> (t: u64) {
    let clock = match since_epoch() {
        Ok(d) => Ok(whole_seconds(&d)),
        Err(_) => Err(()),
    };
    seconds_or_zero(clock)
}

/// A new index of version 1 for `repository` and `branch` with the given objects,
/// stamped with the current time.
pub fn build_config(repository: String, branch: String, objects: Vec<ObjectEntry>) -> (c: RustyConfig)
    ensures
        c.version == 1,
        c.repository == repository,
        c.branch == branch,
        c.root@ == "."@,
        c.objects == objects,
{
    build_config_at(repository, branch, objects, now_unix())
}

/// A new index of version 1 for `repository` and `branch` with the given objects,
/// stamped with the time `now`.
pub fn build_config_at(repository: String, branch: String, objects: Vec<ObjectEntry>, now: u64) -> (c: RustyConfig)
    ensures
        c.version == 1,
        c.repository == repository,
        c.branch == branch,
        c.root@ == "."@,
        c.objects == objects,
        c.generated_at == now,
{
    RustyConfig { version: 1, repository, branch, root: ".".to_string(), generated_at: now, objects }
}

impl RustyConfig {
    /// Replaces the objects of the index and stamps it with the current time; the
    /// repository, the branch, the root and the version stay.
    pub fn reindex(&mut self, objects: Vec<ObjectEntry>)
        ensures
            final(self).objects == objects,
            final(self).version == old(self).version,
            final(self).repository == old(self).repository,
            final(self).branch == old(self).branch,
            final(self).root == old(self).root,
    {
        let now = now_unix();
        self.reindex_at(objects, now);
    }

    /// Replaces the objects of the index and stamps it with the time `now`, whatever
    /// time it carried before; the repository, the branch, the root and the version stay.
    pub fn reindex_at(&mut self, objects: Vec<ObjectEntry>, now: u64)
        ensures
            final(self).objects == objects,
            final(self).generated_at == now,
            final(self).version == old(self).version,
            final(self).repository == old(self).repository,
            final(self).branch == old(self).branch,
            final(self).root == old(self).root,
    {
        self.objects = objects;
        self.generated_at = now;
    }
}

} // verus!
