//! Writing to the repository: bucket creation, uploads, and the file preview.

use vstd::prelude::*;
use crate::api::{validate_path, normalized, safe_path, path_error_message, ApiError, BAD_REQUEST, CONFLICT};
use crate::github::{contents_path, encode_path, encoded, encoded_path, with_ref};
use crate::outside::{base64_chars, base64_encode};
use crate::json::{str_field, JsonValue};
use crate::text::{ends_with, str_eq, trim, trim_ws};
use crate::listing::{bucket_stats, is_blob, is_object, lemma_stats_grow, marker_bucket, marker_suffix, GithubTreeEntry};

verus! {

/// What a lookup of an existing file answered.
#[derive(PartialEq, Eq, Structural, Debug)]
pub enum Lookup {
    /// A `2xx` answer: the file is there.
    Exists,
    /// `404`: the file is not there.
    Missing,
    /// Any other answer: the lookup failed.
    Failed,
}

/// How an HTTP status of a lookup reads.
pub open spec fn lookup_of(status: u16) -> Lookup {
    if 200 <= status <= 299 {
        Lookup::Exists
    } else if status == 404 {
        Lookup::Missing
    } else {
        Lookup::Failed
    }
}

/// How an HTTP status of a lookup reads.
pub fn classify_lookup(status: u16) -> (r: Lookup)
    ensures
        r == lookup_of(status),
{
    if 200 <= status && status <= 299 {
        Lookup::Exists
    } else if status == 404 {
        Lookup::Missing
    } else {
        Lookup::Failed
    }
}

/// The `sha` that a write of a file sends, given how its lookup read and the body
/// of the lookup's answer (`None` where it was not read or did not parse): the
/// body's string field `sha` when the file exists, else none.
pub open spec fn sha_to_send(lookup: Lookup, body: Option<JsonValue>) -> Option<Seq<char>> {
    match (lookup, body) {
        (Lookup::Exists, Some(v)) => str_field(v, "sha"@),
        _ => None,
    }
}

/// The `sha` that a write of a file sends after its lookup: the one that the lookup
/// answered for an existing file, so that GitHub replaces that version.
pub fn lookup_sha(lookup: Lookup, body: Option<JsonValue>) -> (r: Option<String>)
    ensures
        match r {
            Some(s) => sha_to_send(lookup, body) == Some(s@),
            None => sha_to_send(lookup, body) is None,
        },
{
    match (lookup, body) {
        (Lookup::Exists, Some(v)) => v.string_field("sha"),
        _ => None,
    }
}

/// A requested branch is used when it is not blank.
pub open spec fn usable(requested: Option<String>) -> Option<String> {
    match requested {
        Some(b) => if trim_ws(b@).len() > 0 {
            Some(b)
        } else {
            None
        },
        None => None,
    }
}

/// The branch that a listing reads: the requested one, else the repository's default.
pub fn listed_branch(requested: Option<String>, default_branch: String) -> (r: String)
    ensures
        r == match requested {
            Some(b) => b,
            None => default_branch,
        },
{
    match requested {
        Some(b) => b,
        None => default_branch,
    }
}

/// The requested branch unless it is missing or blank.
pub fn usable_branch(requested: Option<String>) -> (r: Option<String>)
    ensures
        r == usable(requested),
{
    match requested {
        Some(b) => {
            let t = trim(b.as_str());
            if t.as_str().is_empty() {
                None
            } else {
                Some(b)
            }
        },
        None => None,
    }
}

/// The path of the marker file that makes a directory a bucket.
pub open spec fn marker_path_of(bucket: Seq<char>) -> Seq<char> {
    bucket + "/.rustyobject"@
}

/// The text of a new bucket's marker file.
pub open spec fn marker_text() -> Seq<char> {
    "RusttyObject bucket marker\n"@
}

/// Everything a bucket creation sends to GitHub.
#[derive(Debug, Clone)]
pub struct BucketPlan {
    pub branch: String,
    pub marker_path: String,
    pub lookup_endpoint: String,
    pub put_endpoint: String,
    pub message: String,
    pub content: String,
}

/// The commit message of a new bucket, unless the request gives one.
pub open spec fn bucket_message(bucket: Seq<char>) -> Seq<char> {
    "Create bucket "@ + bucket + " via RusttyObject"@
}

/// The requests that create bucket `bucket` (already validated) in `owner/repo`:
/// a lookup of the marker file on the branch, then a write of it.
pub fn plan_bucket(
    bucket: &str,
    owner: &str,
    repo: &str,
    requested_branch: Option<String>,
    default_branch: String,
    message: Option<String>,
) -> (p: BucketPlan)
    ensures
        p.branch == match usable(requested_branch) {
            Some(b) => b,
            None => default_branch,
        },
        p.marker_path@ == marker_path_of(bucket@),
        p.put_endpoint@ == "/repos/"@ + owner@ + "/"@ + repo@ + "/contents/"@ + encoded_path(marker_path_of(bucket@)),
        p.lookup_endpoint@ == p.put_endpoint@ + "?ref="@ + encoded(p.branch@),
        p.message@ == match message {
            Some(m) => m@,
            None => bucket_message(bucket@),
        },
        p.content@ == base64_chars(vstd::utf8::encode_utf8(marker_text())),
{
    let branch = match usable_branch(requested_branch) {
        Some(b) => b,
        None => default_branch,
    };
    let mut marker_path = bucket.to_string();
    marker_path.append("/.rustyobject");
    let encoded_marker = encode_path(marker_path.as_str());
    let put_endpoint = contents_path(owner, repo, encoded_marker.as_str());
    let lookup_endpoint = with_ref(put_endpoint.as_str(), branch.as_str());
    let message = match message {
        Some(m) => m,
        None => {
            let mut m = "Create bucket ".to_string();
            m.append(bucket);
            m.append(" via RusttyObject");
            m
        },
    };
    let content = base64_encode("RusttyObject bucket marker\n".as_bytes());
    BucketPlan { branch, marker_path, lookup_endpoint, put_endpoint, message, content }
}

/// The message when a bucket to create is already there.
pub open spec fn bucket_exists_message(bucket: Seq<char>) -> Seq<char> {
    "Bucket '"@ + bucket + "' already exists"@
}

/// The answer when the marker of a bucket to create is already there.
pub fn bucket_exists(bucket: &str) -> (e: ApiError)
    ensures
        e.status == CONFLICT,
        e.message@ == bucket_exists_message(bucket@),
{
    let mut m = "Bucket '".to_string();
    m.append(bucket);
    m.append("' already exists");
    ApiError::with_status(CONFLICT, m)
}

/// The contents endpoint that the preview of `path` (already validated) reads on `branch`.
pub fn preview_endpoint(owner: &str, repo: &str, path: &str, branch: &str) -> (r: String)
    ensures
        r@ == "/repos/"@ + owner@ + "/"@ + repo@ + "/contents/"@ + encoded_path(path@) + "?ref="@ + encoded(branch@),
{
    let encoded_p = encode_path(path);
    let endpoint = contents_path(owner, repo, encoded_p.as_str());
    with_ref(endpoint.as_str(), branch)
}

/// The largest upload that the GitHub Contents API takes: 100 MB.
pub const MAX_UPLOAD_BYTES: usize = 104857600;

pub open spec fn upload_limit_message() -> Seq<char> {
    "GitHub Contents API uploads are limited to 100 MB"@
}

pub open spec fn missing_file_message() -> Seq<char> {
    "A file is required"@
}

pub open spec fn unnamed_file_message() -> Seq<char> {
    "The uploaded file has no name"@
}

/// A multipart field of an upload, by name.
#[derive(PartialEq, Eq, Structural, Debug)]
pub enum UploadField {
    File,
    Bucket,
    Path,
    Branch,
    Message,
    Other,
}

/// Which field a multipart field name is.
pub open spec fn field_of(name: Seq<char>) -> UploadField {
    if name == "file"@ {
        UploadField::File
    } else if name == "bucket"@ {
        UploadField::Bucket
    } else if name == "path"@ {
        UploadField::Path
    } else if name == "branch"@ {
        UploadField::Branch
    } else if name == "message"@ {
        UploadField::Message
    } else {
        UploadField::Other
    }
}

/// Which field a multipart field name is.
pub fn field_kind(name: &str) -> (r: UploadField)
    ensures
        r == field_of(name@),
{
    if str_eq(name, "file") {
        UploadField::File
    } else if str_eq(name, "bucket") {
        UploadField::Bucket
    } else if str_eq(name, "path") {
        UploadField::Path
    } else if str_eq(name, "branch") {
        UploadField::Branch
    } else if str_eq(name, "message") {
        UploadField::Message
    } else {
        UploadField::Other
    }
}

/// The fields of an upload read so far. The bucket is `root` until one is given.
#[derive(Debug, Clone)]
pub struct UploadForm {
    pub bytes: Option<Vec<u8>>,
    pub file_name: Option<String>,
    pub bucket: String,
    pub path: Option<String>,
    pub branch: Option<String>,
    pub message: Option<String>,
}

/// An upload with its file and its checked path.
#[derive(Debug, Clone)]
pub struct ReadyUpload {
    pub bytes: Vec<u8>,
    pub file_path: String,
    pub branch: Option<String>,
    pub message: Option<String>,
}

/// Everything an upload sends to GitHub.
#[derive(Debug, Clone)]
pub struct UploadPlan {
    pub file_path: String,
    pub branch: String,
    pub lookup_endpoint: String,
    pub put_endpoint: String,
    pub message: String,
    pub content: String,
}

/// The path that an upload asks for: its `path` field, else the file name inside its
/// bucket, or the file name alone for the `root` bucket.
pub open spec fn requested_path(path: Option<String>, bucket: Seq<char>, file_name: Seq<char>) -> Seq<char> {
    match path {
        Some(p) => p@,
        None => if bucket == "root"@ {
            file_name
        } else {
            bucket + "/"@ + file_name
        },
    }
}

/// The commit message of an upload, unless the request gives one.
pub open spec fn upload_message(file_path: Seq<char>) -> Seq<char> {
    "Upload "@ + file_path + " via RusttyObject"@
}

impl UploadForm {
    /// A form with no field read yet.
    pub fn new() -> (f: UploadForm)
        ensures
            f.bytes is None,
            f.file_name is None,
            f.bucket@ == "root"@,
            f.path is None,
            f.branch is None,
            f.message is None,
    {
        UploadForm {
            bytes: None,
            file_name: None,
            bucket: "root".to_string(),
            path: None,
            branch: None,
            message: None,
        }
    }

    /// Takes the `file` field: its file name, then its content, which must not be
    /// larger than 100 MB.
    pub fn accept_file(&mut self, file_name: Option<String>, content: Vec<u8>) -> (r: Result<(), ApiError>)
        ensures
            final(self).file_name == file_name,
            final(self).bucket == old(self).bucket,
            final(self).path == old(self).path,
            final(self).branch == old(self).branch,
            final(self).message == old(self).message,
            match r {
                Ok(()) => content@.len() <= MAX_UPLOAD_BYTES && final(self).bytes == Some(content),
                Err(e) => content@.len() > MAX_UPLOAD_BYTES && final(self).bytes == old(self).bytes
                    && e.status == BAD_REQUEST && e.message@ == upload_limit_message(),
            },
    {
        self.file_name = file_name;
        if content.len() > MAX_UPLOAD_BYTES {
            return Err(ApiError::bad_request("GitHub Contents API uploads are limited to 100 MB".to_string()));
        }
        self.bytes = Some(content);
        Ok(())
    }

    /// Takes a text field; the file field and unknown fields leave the form as it is.
    pub fn accept_text(&mut self, field: UploadField, text: String)
        ensures
            final(self).bytes == old(self).bytes,
            final(self).file_name == old(self).file_name,
            final(self).bucket == if field == UploadField::Bucket {
                text
            } else {
                old(self).bucket
            },
            final(self).path == if field == UploadField::Path {
                Some(text)
            } else {
                old(self).path
            },
            final(self).branch == if field == UploadField::Branch {
                Some(text)
            } else {
                old(self).branch
            },
            final(self).message == if field == UploadField::Message {
                Some(text)
            } else {
                old(self).message
            },
    {
        match field {
            UploadField::Bucket => {
                self.bucket = text;
            },
            UploadField::Path => {
                self.path = Some(text);
            },
            UploadField::Branch => {
                self.branch = Some(text);
            },
            UploadField::Message => {
                self.message = Some(text);
            },
            _ => {},
        }
    }

    /// Ends the form: the file and its name are required, and the path that the
    /// upload asks for must pass `validate_path`.
    pub fn finish(self) -> (r: Result<ReadyUpload, ApiError>)
        ensures
            match r {
                Ok(u) => self.bytes == Some(u.bytes) && self.file_name is Some && safe_path(
                    normalized(requested_path(self.path, self.bucket@, self.file_name->0@)),
                ) && u.file_path@ == normalized(requested_path(self.path, self.bucket@, self.file_name->0@))
                    && u.branch == self.branch && u.message == self.message,
                Err(e) => e.status == BAD_REQUEST && if self.bytes is None {
                    e.message@ == missing_file_message()
                } else if self.file_name is None {
                    e.message@ == unnamed_file_message()
                } else {
                    !safe_path(normalized(requested_path(self.path, self.bucket@, self.file_name->0@)))
                        && e.message@ == path_error_message()
                },
            },
    {
        let UploadForm { bytes, file_name, bucket, path, branch, message } = self;
        let bytes = match bytes {
            Some(b) => b,
            None => {
                return Err(ApiError::bad_request("A file is required".to_string()));
            },
        };
        let file_name = match file_name {
            Some(n) => n,
            None => {
                return Err(ApiError::bad_request("The uploaded file has no name".to_string()));
            },
        };
        let requested = match path {
            Some(p) => p,
            None => {
                if str_eq(bucket.as_str(), "root") {
                    file_name
                } else {
                    let mut p = bucket.clone();
                    p.append("/");
                    p.append(file_name.as_str());
                    p
                }
            },
        };
        let file_path = validate_path(requested)?;
        Ok(ReadyUpload { bytes, file_path, branch, message })
    }
}

impl ReadyUpload {
    /// The requests that write the upload to `owner/repo`: a lookup of the file on the
    /// branch (the requested one, else the repository's default), then a write of it.
    pub fn plan(&self, owner: &str, repo: &str, default_branch: String) -> (p: UploadPlan)
        ensures
            p.file_path == self.file_path,
            p.branch == match self.branch {
                Some(b) => b,
                None => default_branch,
            },
            p.put_endpoint@ == "/repos/"@ + owner@ + "/"@ + repo@ + "/contents/"@ + encoded_path(self.file_path@),
            p.lookup_endpoint@ == p.put_endpoint@ + "?ref="@ + encoded(p.branch@),
            p.message@ == match self.message {
                Some(m) => m@,
                None => upload_message(self.file_path@),
            },
            p.content@ == base64_chars(self.bytes@),
    {
        let branch = match &self.branch {
            Some(b) => b.clone(),
            None => default_branch,
        };
        let encoded_p = encode_path(self.file_path.as_str());
        let put_endpoint = contents_path(owner, repo, encoded_p.as_str());
        let lookup_endpoint = with_ref(put_endpoint.as_str(), branch.as_str());
        let message = match &self.message {
            Some(m) => m.clone(),
            None => {
                let mut m = "Upload ".to_string();
                m.append(self.file_path.as_str());
                m.append(" via RusttyObject");
                m
            },
        };
        let content = base64_encode(self.bytes.as_slice());
        UploadPlan {
            file_path: self.file_path.clone(),
            branch,
            lookup_endpoint,
            put_endpoint,
            message,
            content,
        }
    }
}

/// A bucket whose marker `plan_bucket` writes is listed by the object listing of
/// any tree that holds the marker, and the marker itself is not listed as an object.
pub proof fn law_created_bucket_is_listed(entries: Seq<GithubTreeEntry>, k: int, bucket: Seq<char>)
    requires
        0 <= k < entries.len(),
        is_blob(entries[k]),
        entries[k].path@ == marker_path_of(bucket),
    ensures
        bucket_stats(entries).contains_key(bucket),
        !is_object(entries[k]),
{
    let p = entries[k].path@;
    assert(p.subrange(p.len() - marker_suffix().len(), p.len() as int) =~= marker_suffix());
    assert(ends_with(p, marker_suffix()));
    assert(marker_bucket(p) =~= bucket);
    let t = entries.take(k + 1);
    assert(t.drop_last() =~= entries.take(k));
    assert(t.last() == entries[k]);
    assert(bucket_stats(t).contains_key(bucket));
    lemma_stats_grow(entries, k + 1, bucket);
}

} // verus!
