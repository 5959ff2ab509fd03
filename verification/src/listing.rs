//! The object listing of a branch: which tree entries are objects, which buckets
//! they fall in, and the totals of each bucket.

use vstd::prelude::*;
use crate::github::{raw_url, raw_url_of};
use crate::outside::{guessed_mime, mime_first};
use crate::sort::{Keyed, lemma_map_same_multiset, sort_by_key, sorted_by_key, with_key};
use crate::text::{
    contains_char, ends_with, first_piece, last_piece, lemma_lex_asymmetric, lemma_lex_irreflexive, lemma_lex_total,
    lemma_lex_transitive, lex_lt, split_on, str_eq, str_lt, strip_suffix_once,
};

verus! {

/// An entry of a recursive git tree listing.
#[derive(Debug, Clone)]
pub struct GithubTreeEntry {
    pub path: String,
    pub entry_type: String,
    pub size: Option<u64>,
    pub sha: Option<String>,
}

/// An object as the console lists it.
#[derive(Debug, Clone)]
pub struct ObjectResponse {
    pub path: String,
    pub name: String,
    pub bucket: String,
    pub content_type: String,
    pub size: u64,
    pub sha: String,
    pub updated: String,
    pub raw_url: String,
    pub download_url: String,
}

/// A bucket with the number and total size of its objects.
#[derive(Debug, Clone)]
pub struct BucketResponse {
    pub name: String,
    pub objects: usize,
    pub size: u64,
}

/// The objects of a branch, ordered by path, and its buckets, ordered by name.
#[derive(Debug, Clone)]
pub struct ObjectListing {
    pub objects: Vec<ObjectResponse>,
    pub buckets: Vec<BucketResponse>,
}

impl Keyed for ObjectResponse {
    open spec fn key_of(&self) -> Seq<char> {
        self.path@
    }

    fn key(&self) -> (k: &str) {
        self.path.as_str()
    }
}

/// The file that marks a directory as a bucket.
pub open spec fn marker_suffix() -> Seq<char> {
    "/.rustyobject"@
}

/// A file of the tree (not a directory or a submodule).
pub open spec fn is_blob(e: GithubTreeEntry) -> bool {
    e.entry_type@ == "blob"@
}

/// A bucket marker: a file named `.rustyobject` inside a directory.
pub open spec fn is_marker(e: GithubTreeEntry) -> bool {
    is_blob(e) && ends_with(e.path@, marker_suffix())
}

/// The bucket that a marker at path `p` declares.
pub open spec fn marker_bucket(p: Seq<char>) -> Seq<char> {
    p.subrange(0, p.len() - marker_suffix().len())
}

/// A file that the listing shows as an object: not a marker, and not an index file
/// at the top of the repository.
pub open spec fn is_object(e: GithubTreeEntry) -> bool {
    &&& is_blob(e)
    &&& !ends_with(e.path@, marker_suffix())
    &&& e.path@ != ".rustyobject"@
    &&& e.path@ != "config.rustyobject"@
}

/// The bucket of an object: the directory at the top of its path, or `root` for a
/// file at the top of the repository.
pub open spec fn bucket_of(p: Seq<char>) -> Seq<char> {
    if p.contains('/') {
        split_on(p, '/')[0]
    } else {
        "root"@
    }
}

/// The name of an object: the last segment of its path.
pub open spec fn name_of(p: Seq<char>) -> Seq<char> {
    split_on(p, '/').last()
}

/// The size of an entry, `0` when the tree gives none.
pub open spec fn entry_size(e: GithubTreeEntry) -> u64 {
    match e.size {
        Some(s) => s,
        None => 0,
    }
}

/// The media type of a path: what `mime_guess` finds first, else `application/octet-stream`.
pub open spec fn content_type_of(path: Seq<char>) -> Seq<char> {
    match guessed_mime(path) {
        Some(m) => m,
        None => "application/octet-stream"@,
    }
}

/// The buckets of `entries` with the number and the total size of their objects.
/// A marker adds its bucket with no objects when it is not there yet.
pub open spec fn bucket_stats(entries: Seq<GithubTreeEntry>) -> Map<Seq<char>, (nat, nat)>
    decreases entries.len(),
{
    if entries.len() == 0 {
        Map::empty()
    } else {
        let m = bucket_stats(entries.drop_last());
        let e = entries.last();
        if is_marker(e) {
            let b = marker_bucket(e.path@);
            if m.contains_key(b) {
                m
            } else {
                m.insert(b, (0nat, 0nat))
            }
        } else if is_object(e) {
            let b = bucket_of(e.path@);
            let old = if m.contains_key(b) {
                m[b]
            } else {
                (0nat, 0nat)
            };
            m.insert(b, ((old.0 + 1) as nat, (old.1 + entry_size(e)) as nat))
        } else {
            m
        }
    }
}

/// Every bucket total of `entries` fits in a `u64`.
pub open spec fn sizes_fit(entries: Seq<GithubTreeEntry>) -> bool {
    forall|b: Seq<char>| #[trigger] bucket_stats(entries).contains_key(b) ==> bucket_stats(entries)[b].1
        <= u64::MAX
}

/// What the listing says of one object, over plain values.
pub struct ObjectView {
    pub path: Seq<char>,
    pub name: Seq<char>,
    pub bucket: Seq<char>,
    pub content_type: Seq<char>,
    pub size: u64,
    pub sha: Seq<char>,
    pub updated: Seq<char>,
    pub raw_url: Seq<char>,
    pub download_url: Seq<char>,
}

/// The view of a listed object.
pub open spec fn response_view(o: ObjectResponse) -> ObjectView {
    ObjectView {
        path: o.path@,
        name: o.name@,
        bucket: o.bucket@,
        content_type: o.content_type@,
        size: o.size,
        sha: o.sha@,
        updated: o.updated@,
        raw_url: o.raw_url@,
        download_url: o.download_url@,
    }
}

/// How the listing shows the object of entry `e`.
pub open spec fn object_view(owner: Seq<char>, repo: Seq<char>, branch: Seq<char>, e: GithubTreeEntry) -> ObjectView {
    ObjectView {
        path: e.path@,
        name: name_of(e.path@),
        bucket: bucket_of(e.path@),
        content_type: content_type_of(e.path@),
        size: entry_size(e),
        sha: match e.sha {
            Some(s) => s@,
            None => Seq::<char>::empty(),
        },
        updated: "synced"@,
        raw_url: raw_url_of(owner, repo, branch, e.path@),
        download_url: raw_url_of(owner, repo, branch, e.path@),
    }
}

/// The objects of `entries`, in tree order.
pub open spec fn expected_objects(owner: Seq<char>, repo: Seq<char>, branch: Seq<char>, entries: Seq<GithubTreeEntry>) -> Seq<ObjectView>
    decreases entries.len(),
{
    if entries.len() == 0 {
        Seq::<ObjectView>::empty()
    } else {
        let rest = expected_objects(owner, repo, branch, entries.drop_last());
        if is_object(entries.last()) {
            rest.push(object_view(owner, repo, branch, entries.last()))
        } else {
            rest
        }
    }
}

/// Buckets ordered strictly by name that hold exactly the totals `m`.
pub open spec fn buckets_hold(bs: Seq<BucketResponse>, m: Map<Seq<char>, (nat, nat)>) -> bool {
    &&& forall|i: int, j: int| 0 <= i < j < bs.len() ==> lex_lt(#[trigger] bs[i].name@, #[trigger] bs[j].name@)
    &&& forall|i: int| 0 <= i < bs.len() ==> #[trigger] m.contains_key(bs[i].name@) && m[bs[i].name@] == (
        bs[i].objects as nat,
        bs[i].size as nat,
    )
    &&& forall|b: Seq<char>| #[trigger] m.contains_key(b) ==> exists|i: int| 0 <= i < bs.len() && bs[i].name@ == b
}

/// `response_view` as a value.
pub open spec fn view_fn() -> spec_fn(ObjectResponse) -> ObjectView {
    |o: ObjectResponse| response_view(o)
}

/// The views in `s` of objects at `path`, in their order in `s`.
pub open spec fn views_at(s: Seq<ObjectView>, path: Seq<char>) -> Seq<ObjectView>
    decreases s.len(),
{
    if s.len() == 0 {
        Seq::<ObjectView>::empty()
    } else {
        let rest = views_at(s.drop_last(), path);
        if s.last().path == path {
            rest.push(s.last())
        } else {
            rest
        }
    }
}

/// Picking the objects at one path and then viewing them is viewing them and then
/// picking the views at that path.
pub proof fn lemma_views_at(s: Seq<ObjectResponse>, path: Seq<char>)
    ensures
        with_key(s, path).map_values(view_fn()) == views_at(s.map_values(view_fn()), path),
    decreases s.len(),
{
    if s.len() > 0 {
        lemma_views_at(s.drop_last(), path);
        assert(s.map_values(view_fn()).drop_last() =~= s.drop_last().map_values(view_fn()));
        assert(s.map_values(view_fn()).last() == response_view(s.last()));
        if s.last().key_of() == path {
            assert(with_key(s.drop_last(), path).push(s.last()).map_values(view_fn()) =~= with_key(
                s.drop_last(),
                path,
            ).map_values(view_fn()).push(response_view(s.last())));
        }
    } else {
        assert(with_key(s, path).map_values(view_fn()) =~= Seq::<ObjectView>::empty());
    }
}

/// What a listing of `entries` is: its objects are those of the tree, ordered by path,
/// objects at the same path in tree order; its buckets are those of `bucket_stats`,
/// ordered by name.
pub open spec fn is_listing_of(owner: Seq<char>, repo: Seq<char>, branch: Seq<char>, entries: Seq<GithubTreeEntry>, l: ObjectListing) -> bool {
    &&& sorted_by_key(l.objects@)
    &&& l.objects@.map_values(view_fn()).to_multiset() == expected_objects(owner, repo, branch, entries).to_multiset()
    &&& forall|path: Seq<char>| #[trigger] with_key(l.objects@, path).map_values(view_fn()) == views_at(
        expected_objects(owner, repo, branch, entries),
        path,
    )
    &&& buckets_hold(l.buckets@, bucket_stats(entries))
}

/// A bucket total never goes down as entries are added.
pub proof fn lemma_stats_grow(entries: Seq<GithubTreeEntry>, k: int, b: Seq<char>)
    requires
        0 <= k <= entries.len(),
        bucket_stats(entries.take(k)).contains_key(b),
    ensures
        bucket_stats(entries).contains_key(b),
        bucket_stats(entries.take(k))[b].0 <= bucket_stats(entries)[b].0,
        bucket_stats(entries.take(k))[b].1 <= bucket_stats(entries)[b].1,
    decreases entries.len() - k,
{
    if k == entries.len() {
        assert(entries.take(k) =~= entries);
    } else {
        assert(entries.take(k + 1).drop_last() =~= entries.take(k));
        lemma_stats_grow(entries, k + 1, b);
    }
}

/// A bucket never counts more objects than there are entries.
pub proof fn lemma_stats_count(entries: Seq<GithubTreeEntry>, b: Seq<char>)
    requires
        bucket_stats(entries).contains_key(b),
    ensures
        bucket_stats(entries)[b].0 <= entries.len(),
    decreases entries.len(),
{
    if entries.len() > 0 {
        let m = bucket_stats(entries.drop_last());
        if m.contains_key(b) {
            lemma_stats_count(entries.drop_last(), b);
        }
    }
}

/// The place of `name` among buckets ordered strictly by name.
fn locate(bs: &Vec<BucketResponse>, name: &str) -> (p: usize)
    requires
        forall|i: int, j: int| 0 <= i < j < bs@.len() ==> lex_lt(#[trigger] bs@[i].name@, #[trigger] bs@[j].name@),
    ensures
        p <= bs@.len(),
        forall|i: int| 0 <= i < p ==> lex_lt(#[trigger] bs@[i].name@, name@),
        p < bs@.len() ==> !lex_lt(bs@[p as int].name@, name@),
{
    let mut p: usize = 0;
    while p < bs.len() && str_lt(bs[p].name.as_str(), name)
        invariant
            p <= bs@.len(),
            forall|i: int| 0 <= i < p ==> lex_lt(#[trigger] bs@[i].name@, name@),
        decreases bs@.len() - p,
    {
        p += 1;
    }
    p
}

/// Whether `name` is at the place that `locate` found, and if not, that it is nowhere.
proof fn lemma_located(bs: Seq<BucketResponse>, name: Seq<char>, p: int)
    requires
        forall|i: int, j: int| 0 <= i < j < bs.len() ==> lex_lt(#[trigger] bs[i].name@, #[trigger] bs[j].name@),
        0 <= p <= bs.len(),
        forall|i: int| 0 <= i < p ==> lex_lt(#[trigger] bs[i].name@, name),
        p < bs.len() ==> !lex_lt(bs[p].name@, name),
        !(p < bs.len() && bs[p].name@ == name),
    ensures
        forall|i: int| 0 <= i < bs.len() ==> #[trigger] bs[i].name@ != name,
        forall|i: int| p <= i < bs.len() ==> lex_lt(name, #[trigger] bs[i].name@),
{
    if p < bs.len() {
        lemma_lex_total(bs[p].name@, name);
    }
    assert forall|i: int| p <= i < bs.len() implies lex_lt(name, #[trigger] bs[i].name@) by {
        if i > p {
            lemma_lex_transitive(name, bs[p].name@, bs[i].name@);
        }
    }
    assert forall|i: int| 0 <= i < bs.len() implies #[trigger] bs[i].name@ != name by {
        if i < p {
            lemma_lex_asymmetric(bs[i].name@, name);
        } else {
            lemma_lex_asymmetric(name, bs[i].name@);
        }
    }
}

/// Adds an empty bucket `name` unless it is there.
fn ensure_bucket(bs: &mut Vec<BucketResponse>, name: String, Ghost(m): Ghost<Map<Seq<char>, (nat, nat)>>)
    requires
        buckets_hold(old(bs)@, m),
    ensures
        buckets_hold(
            final(bs)@,
            if m.contains_key(name@) {
                m
            } else {
                m.insert(name@, (0nat, 0nat))
            },
        ),
{
    let p = locate(bs, name.as_str());
    if p < bs.len() && str_eq(bs[p].name.as_str(), name.as_str()) {
        return;
    }
    proof {
        lemma_located(bs@, name@, p as int);
    }
    let ghost before = bs@;
    let ghost nm = name@;
    bs.insert(p, BucketResponse { name, objects: 0, size: 0 });
    proof {
        let m2 = m.insert(nm, (0nat, 0nat));
        assert(!m.contains_key(nm));
        assert forall|i: int, j: int| 0 <= i < j < bs@.len() implies lex_lt(
            #[trigger] bs@[i].name@,
            #[trigger] bs@[j].name@,
        ) by {
            if j < p {
            } else if i < p && j == p {
            } else if i < p {
                assert(bs@[j] == before[j - 1]);
                lemma_lex_transitive(bs@[i].name@, nm, bs@[j].name@);
            } else if i == p {
                assert(bs@[j] == before[j - 1]);
            } else {
                assert(bs@[i] == before[i - 1]);
                assert(bs@[j] == before[j - 1]);
            }
        }
        assert forall|i: int| 0 <= i < bs@.len() implies #[trigger] m2.contains_key(bs@[i].name@)
            && m2[bs@[i].name@] == (bs@[i].objects as nat, bs@[i].size as nat) by {
            if i > p {
                assert(bs@[i] == before[i - 1]);
                assert(before[i - 1].name@ != nm);
            } else if i < p {
                assert(bs@[i] == before[i]);
                assert(before[i].name@ != nm);
            }
        }
        assert forall|b: Seq<char>| #[trigger] m2.contains_key(b) implies exists|i: int|
            0 <= i < bs@.len() && bs@[i].name@ == b by {
            if b == nm {
                assert(bs@[p as int].name@ == b);
            } else {
                let j = choose|j: int| 0 <= j < before.len() && before[j].name@ == b;
                if j < p {
                    assert(bs@[j].name@ == b);
                } else {
                    assert(bs@[j + 1].name@ == b);
                }
            }
        }
    }
}

/// The totals of bucket `b` in `m`, zero when it is not there.
pub open spec fn totals_in(m: Map<Seq<char>, (nat, nat)>, b: Seq<char>) -> (nat, nat) {
    if m.contains_key(b) {
        m[b]
    } else {
        (0nat, 0nat)
    }
}

/// Counts one object of `size` bytes in bucket `name`; `false`, with the buckets
/// left in any state, when the bucket's total size would not fit in a `u64`.
fn count_object(bs: &mut Vec<BucketResponse>, name: String, size: u64, Ghost(m): Ghost<Map<Seq<char>, (nat, nat)>>) -> (ok: bool)
    requires
        buckets_hold(old(bs)@, m),
        forall|b: Seq<char>| #[trigger] m.contains_key(b) ==> m[b].0 < usize::MAX,
    ensures
        ok == (totals_in(m, name@).1 + size <= u64::MAX),
        ok ==> buckets_hold(
            final(bs)@,
            m.insert(name@, ((totals_in(m, name@).0 + 1) as nat, (totals_in(m, name@).1 + size) as nat)),
        ),
{
    let p = locate(bs, name.as_str());
    let ghost before = bs@;
    let ghost nm = name@;
    let ghost m2 = m.insert(nm, ((totals_in(m, nm).0 + 1) as nat, (totals_in(m, nm).1 + size) as nat));
    if p < bs.len() && str_eq(bs[p].name.as_str(), name.as_str()) {
        let cur_size = bs[p].size;
        let cur_objects = bs[p].objects;
        assert(m.contains_key(nm) && m[nm] == (cur_objects as nat, cur_size as nat));
        match cur_size.checked_add(size) {
            None => {
                return false;
            },
            Some(total) => {
                let kept = bs[p].name.clone();
                bs.set(p, BucketResponse { name: kept, objects: cur_objects + 1, size: total });
                proof {
                    assert forall|i: int, j: int| 0 <= i < j < bs@.len() implies lex_lt(
                        #[trigger] bs@[i].name@,
                        #[trigger] bs@[j].name@,
                    ) by {
                        assert(before[i].name@ == bs@[i].name@);
                        assert(before[j].name@ == bs@[j].name@);
                    }
                    assert forall|i: int| 0 <= i < bs@.len() implies #[trigger] m2.contains_key(
                        bs@[i].name@,
                    ) && m2[bs@[i].name@] == (bs@[i].objects as nat, bs@[i].size as nat) by {
                        if i == p {
                            assert(bs@[i].name@ == nm);
                            assert(totals_in(m, nm) == (cur_objects as nat, cur_size as nat));
                        } else {
                            assert(bs@[i] == before[i]);
                            assert(before[p as int].name@ == nm);
                            assert(m.contains_key(before[i].name@));
                            assert(lex_lt(before[i].name@, nm) || lex_lt(nm, before[i].name@)) by {
                                if i < p {
                                } else {
                                    assert(lex_lt(before[p as int].name@, before[i].name@));
                                }
                            }
                            if lex_lt(before[i].name@, nm) {
                                lemma_lex_asymmetric(before[i].name@, nm);
                            } else {
                                lemma_lex_asymmetric(nm, before[i].name@);
                            }
                        }
                    }
                    assert forall|b: Seq<char>| #[trigger] m2.contains_key(b) implies exists|i: int|
                        0 <= i < bs@.len() && bs@[i].name@ == b by {
                        if b == nm {
                            assert(bs@[p as int].name@ == b);
                        } else {
                            let j = choose|j: int| 0 <= j < before.len() && before[j].name@ == b;
                            assert(bs@[j].name@ == b);
                        }
                    }
                }
                return true;
            },
        }
    }
    proof {
        lemma_located(bs@, name@, p as int);
    }
    bs.insert(p, BucketResponse { name, objects: 1, size });
    proof {
        assert(!m.contains_key(nm));
        assert forall|i: int, j: int| 0 <= i < j < bs@.len() implies lex_lt(
            #[trigger] bs@[i].name@,
            #[trigger] bs@[j].name@,
        ) by {
            if j < p {
            } else if i < p && j == p {
            } else if i < p {
                assert(bs@[j] == before[j - 1]);
                lemma_lex_transitive(bs@[i].name@, nm, bs@[j].name@);
            } else if i == p {
                assert(bs@[j] == before[j - 1]);
            } else {
                assert(bs@[i] == before[i - 1]);
                assert(bs@[j] == before[j - 1]);
            }
        }
        assert forall|i: int| 0 <= i < bs@.len() implies #[trigger] m2.contains_key(bs@[i].name@)
            && m2[bs@[i].name@] == (bs@[i].objects as nat, bs@[i].size as nat) by {
            if i > p {
                assert(bs@[i] == before[i - 1]);
                assert(before[i - 1].name@ != nm);
            } else if i < p {
                assert(bs@[i] == before[i]);
                assert(before[i].name@ != nm);
            }
        }
        assert forall|b: Seq<char>| #[trigger] m2.contains_key(b) implies exists|i: int|
            0 <= i < bs@.len() && bs@[i].name@ == b by {
            if b == nm {
                assert(bs@[p as int].name@ == b);
            } else {
                let j = choose|j: int| 0 <= j < before.len() && before[j].name@ == b;
                if j < p {
                    assert(bs@[j].name@ == b);
                } else {
                    assert(bs@[j + 1].name@ == b);
                }
            }
        }
    }
    true
}

/// The media type of a path: what `mime_guess` finds first, else `application/octet-stream`.
pub fn content_type_for(path: &str) -> (r: String)
    ensures
        r@ == content_type_of(path@),
{
    match mime_first(path) {
        Some(m) => m,
        None => "application/octet-stream".to_string(),
    }
}

/// How the listing shows the object of a tree entry.
pub fn object_response(owner: &str, repo: &str, branch: &str, e: GithubTreeEntry) -> (o: ObjectResponse)
    ensures
        response_view(o) == object_view(owner@, repo@, branch@, e),
{
    let name = last_piece(e.path.as_str(), '/');
    let bucket = if contains_char(e.path.as_str(), '/') {
        first_piece(e.path.as_str(), '/')
    } else {
        "root".to_string()
    };
    let content_type = content_type_for(e.path.as_str());
    let raw = raw_url(owner, repo, branch, e.path.as_str());
    let download = raw_url(owner, repo, branch, e.path.as_str());
    let size = match e.size {
        Some(s) => s,
        None => 0,
    };
    let sha = match e.sha {
        Some(s) => s,
        None => String::new(),
    };
    ObjectResponse {
        path: e.path,
        name,
        bucket,
        content_type,
        size,
        sha,
        updated: "synced".to_string(),
        raw_url: raw,
        download_url: download,
    }
}

/// The listing of a branch whose tree holds `entries`; `None` when the total size
/// of a bucket does not fit in a `u64`.
pub fn checked_list_objects(owner: &str, repo: &str, branch: &str, entries: Vec<GithubTreeEntry>) -> (r: Option<ObjectListing>)
    ensures
        match r {
            Some(l) => sizes_fit(entries@) && is_listing_of(owner@, repo@, branch@, entries@, l),
            None => !sizes_fit(entries@),
        },
{
    let ghost input = entries@;
    let n = entries.len();
    let mut objects: Vec<ObjectResponse> = Vec::new();
    let mut buckets: Vec<BucketResponse> = Vec::new();
    assert(input.take(0) =~= Seq::<GithubTreeEntry>::empty());
    assert(objects@.map_values(view_fn()) =~= Seq::<ObjectView>::empty());
    for e in it: entries.into_iter()
        invariant
            it.seq() == input,
            n == input.len(),
            objects@.map_values(view_fn()) == expected_objects(owner@, repo@, branch@, input.take(it.index() as int)),
            buckets_hold(buckets@, bucket_stats(input.take(it.index() as int))),
    {
        let ghost k = it.index() as int;
        let ghost m = bucket_stats(input.take(k));
        let ghost before_objects = objects@;
        proof {
            assert(input.take(k + 1).drop_last() =~= input.take(k));
            assert(input.take(k + 1).last() == e);
        }
        if str_eq(e.entry_type.as_str(), "blob") {
            match strip_suffix_once(e.path.as_str(), "/.rustyobject") {
                Some(b) => {
                    ensure_bucket(&mut buckets, b, Ghost(m));
                },
                None => {
                    if !str_eq(e.path.as_str(), ".rustyobject") && !str_eq(e.path.as_str(), "config.rustyobject") {
                        let b = if contains_char(e.path.as_str(), '/') {
                            first_piece(e.path.as_str(), '/')
                        } else {
                            "root".to_string()
                        };
                        let size = match e.size {
                            Some(s) => s,
                            None => 0,
                        };
                        proof {
                            assert forall|x: Seq<char>| #[trigger] m.contains_key(x) implies m[x].0 < usize::MAX by {
                                lemma_stats_count(input.take(k), x);
                            }
                        }
                        let ghost bv = b@;
                        if !count_object(&mut buckets, b, size, Ghost(m)) {
                            proof {
                                let m1 = bucket_stats(input.take(k + 1));
                                assert(m1.contains_key(bv) && m1[bv].1 > u64::MAX);
                                lemma_stats_grow(input, k + 1, bv);
                            }
                            return None;
                        }
                        let o = object_response(owner, repo, branch, e);
                        objects.push(o);
                        assert(objects@.map_values(view_fn()) =~= before_objects.map_values(view_fn()).push(response_view(o)));
                    }
                },
            }
        }
    }
    proof {
        assert(input.take(input.len() as int) =~= input);
        let m = bucket_stats(input);
        assert forall|b: Seq<char>| #[trigger] m.contains_key(b) implies m[b].1 <= u64::MAX by {
            let i = choose|i: int| 0 <= i < buckets@.len() && buckets@[i].name@ == b;
            assert(m.contains_key(buckets@[i].name@));
        }
    }
    let ghost unsorted = objects@;
    let sorted = sort_by_key(objects);
    proof {
        lemma_map_same_multiset(sorted@, unsorted, view_fn());
        assert forall|path: Seq<char>| #[trigger] with_key(sorted@, path).map_values(view_fn()) == views_at(
            expected_objects(owner@, repo@, branch@, input),
            path,
        ) by {
            assert(with_key(sorted@, path) == with_key(unsorted, path));
            lemma_views_at(unsorted, path);
        }
    }
    Some(ObjectListing { objects: sorted, buckets })
}

/// The listing of a branch whose tree holds `entries`.
pub fn list_objects(owner: &str, repo: &str, branch: &str, entries: Vec<GithubTreeEntry>) -> (l: ObjectListing)
    requires
        sizes_fit(entries@),
    ensures
        is_listing_of(owner@, repo@, branch@, entries@, l),
{
    match checked_list_objects(owner, repo, branch, entries) {
        Some(l) => l,
        None => ObjectListing { objects: Vec::new(), buckets: Vec::new() },
    }
}

/// An object that a prefix of the tree shows is shown by the whole tree.
pub proof fn lemma_expected_grow(owner: Seq<char>, repo: Seq<char>, branch: Seq<char>, entries: Seq<GithubTreeEntry>, k: int, x: ObjectView)
    requires
        0 <= k <= entries.len(),
        expected_objects(owner, repo, branch, entries.take(k)).contains(x),
    ensures
        expected_objects(owner, repo, branch, entries).contains(x),
    decreases entries.len() - k,
{
    if k == entries.len() {
        assert(entries.take(k) =~= entries);
    } else {
        let t = entries.take(k + 1);
        assert(t.drop_last() =~= entries.take(k));
        let prev = expected_objects(owner, repo, branch, entries.take(k));
        let i = choose|i: int| 0 <= i < prev.len() && prev[i] == x;
        if is_object(t.last()) {
            assert(expected_objects(owner, repo, branch, t)[i] == x);
        }
        lemma_expected_grow(owner, repo, branch, entries, k + 1, x);
    }
}

/// A file of the tree that is an object is in the listing, with its path, name,
/// bucket, size and URLs, and its bucket is listed with at least one object.
pub proof fn law_object_is_listed(owner: Seq<char>, repo: Seq<char>, branch: Seq<char>, entries: Seq<GithubTreeEntry>, k: int, l: ObjectListing)
    requires
        0 <= k < entries.len(),
        is_object(entries[k]),
        is_listing_of(owner, repo, branch, entries, l),
    ensures
        exists|i: int| 0 <= i < l.objects@.len() && response_view(#[trigger] l.objects@[i]) == object_view(owner, repo, branch, entries[k]),
        exists|j: int| 0 <= j < l.buckets@.len() && (#[trigger] l.buckets@[j]).name@ == bucket_of(entries[k].path@) && l.buckets@[j].objects >= 1,
{
    let x = object_view(owner, repo, branch, entries[k]);
    let t = entries.take(k + 1);
    assert(t.drop_last() =~= entries.take(k));
    assert(t.last() == entries[k]);
    let e = expected_objects(owner, repo, branch, t);
    assert(e[e.len() - 1] == x);
    lemma_expected_grow(owner, repo, branch, entries, k + 1, x);
    let full = expected_objects(owner, repo, branch, entries);
    let shown = l.objects@.map_values(view_fn());
    assert(full.to_multiset().count(x) > 0) by {
        broadcast use vstd::seq_lib::group_to_multiset_ensures;
    }
    assert(shown.contains(x)) by {
        broadcast use vstd::seq_lib::group_to_multiset_ensures;
        assert(shown.to_multiset().count(x) > 0);
    }
    let i = choose|i: int| 0 <= i < shown.len() && shown[i] == x;
    assert(response_view(l.objects@[i]) == x);
    let b = bucket_of(entries[k].path@);
    assert(bucket_stats(t).contains_key(b) && bucket_stats(t)[b].0 >= 1);
    lemma_stats_grow(entries, k + 1, b);
    let m = bucket_stats(entries);
    let j = choose|j: int| 0 <= j < l.buckets@.len() && l.buckets@[j].name@ == b;
    assert(m.contains_key(l.buckets@[j].name@));
}

/// How many of the objects `objs` are in bucket `b`, and their total size.
pub open spec fn bucket_total(objs: Seq<ObjectView>, b: Seq<char>) -> (nat, nat)
    decreases objs.len(),
{
    if objs.len() == 0 {
        (0nat, 0nat)
    } else {
        let r = bucket_total(objs.drop_last(), b);
        if objs.last().bucket == b {
            ((r.0 + 1) as nat, (r.1 + objs.last().size) as nat)
        } else {
            r
        }
    }
}

/// `t` with the object `x` counted in it when `x` is in bucket `b`.
pub open spec fn counted(t: (nat, nat), x: ObjectView, b: Seq<char>) -> (nat, nat) {
    if x.bucket == b {
        ((t.0 + 1) as nat, (t.1 + x.size) as nat)
    } else {
        t
    }
}

/// The totals of a bucket are those of the objects of the tree in it; a bucket
/// without totals has no object.
proof fn lemma_stats_are_totals(owner: Seq<char>, repo: Seq<char>, branch: Seq<char>, entries: Seq<GithubTreeEntry>)
    ensures
        forall|b: Seq<char>| #[trigger] bucket_stats(entries).contains_key(b) ==> bucket_stats(entries)[b]
            == bucket_total(expected_objects(owner, repo, branch, entries), b),
        forall|b: Seq<char>| !bucket_stats(entries).contains_key(b) ==> #[trigger] bucket_total(
            expected_objects(owner, repo, branch, entries),
            b,
        ) == (0nat, 0nat),
    decreases entries.len(),
{
    if entries.len() > 0 {
        let prev = entries.drop_last();
        lemma_stats_are_totals(owner, repo, branch, prev);
        let e = entries.last();
        let ex = expected_objects(owner, repo, branch, prev);
        if is_object(e) {
            let v = object_view(owner, repo, branch, e);
            assert(ex.push(v).drop_last() =~= ex);
            assert forall|b: Seq<char>| #[trigger] bucket_total(expected_objects(owner, repo, branch, entries), b)
                == counted(bucket_total(ex, b), v, b) by {
                assert(expected_objects(owner, repo, branch, entries) == ex.push(v));
            }
        }
    } else {
        assert forall|b: Seq<char>| #[trigger] bucket_total(expected_objects(owner, repo, branch, entries), b) == (
            0nat,
            0nat,
        ) by {}
    }
}

/// Taking one object out of a sequence takes its share out of every bucket total.
proof fn lemma_total_remove(s: Seq<ObjectView>, j: int, b: Seq<char>)
    requires
        0 <= j < s.len(),
    ensures
        bucket_total(s, b) == counted(bucket_total(s.remove(j), b), s[j], b),
    decreases s.len(),
{
    if j == s.len() - 1 {
        assert(s.remove(j) =~= s.drop_last());
    } else {
        lemma_total_remove(s.drop_last(), j, b);
        assert(s.drop_last().remove(j) =~= s.remove(j).drop_last());
        assert(s.remove(j).last() == s.last());
        assert(s.remove(j).len() > 0);
    }
}

/// Two sequences with the same objects have the same bucket totals.
proof fn lemma_total_same_multiset(a: Seq<ObjectView>, c: Seq<ObjectView>, b: Seq<char>)
    requires
        a.to_multiset() == c.to_multiset(),
    ensures
        bucket_total(a, b) == bucket_total(c, b),
    decreases a.len(),
{
    broadcast use vstd::seq_lib::group_to_multiset_ensures;

    if a.len() == 0 {
        assert(c.len() == c.to_multiset().len());
        assert(c.len() == 0);
    } else {
        let x = a.last();
        let a1 = a.drop_last();
        assert(a =~= a1.push(x));
        assert(a.contains(x)) by {
            assert(a[a.len() - 1] == x);
        }
        assert(c.to_multiset().count(x) > 0);
        assert(c.contains(x));
        let j = choose|j: int| 0 <= j < c.len() && c[j] == x;
        let c1 = c.remove(j);
        assert(c1.to_multiset() =~= c.to_multiset().remove(x));
        assert(a1.to_multiset() =~= a.to_multiset().remove(x));
        lemma_total_same_multiset(a1, c1, b);
        lemma_total_remove(c, j, b);
    }
}

/// Each bucket of a listing holds exactly the listed objects whose bucket it is:
/// its object count is how many of them there are, and its size is the sum of
/// their sizes, for objects at any depth below the bucket.
pub proof fn law_bucket_totals_add_up(owner: Seq<char>, repo: Seq<char>, branch: Seq<char>, entries: Seq<GithubTreeEntry>, l: ObjectListing)
    requires
        is_listing_of(owner, repo, branch, entries, l),
    ensures
        forall|i: int| 0 <= i < l.buckets@.len() ==> bucket_total(l.objects@.map_values(view_fn()), (#[trigger] l.buckets@[i]).name@)
            == (l.buckets@[i].objects as nat, l.buckets@[i].size as nat),
{
    lemma_stats_are_totals(owner, repo, branch, entries);
    let shown = l.objects@.map_values(view_fn());
    let ex = expected_objects(owner, repo, branch, entries);
    assert forall|i: int| 0 <= i < l.buckets@.len() implies bucket_total(shown, (#[trigger] l.buckets@[i]).name@)
        == (l.buckets@[i].objects as nat, l.buckets@[i].size as nat) by {
        let b = l.buckets@[i].name@;
        lemma_total_same_multiset(shown, ex, b);
        assert(bucket_stats(entries).contains_key(b));
    }
}

} // verus!
