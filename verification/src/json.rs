//! JSON values as GitHub sends them, and what the API reads out of them.

use vstd::prelude::*;
use crate::api::{ApiError, BAD_GATEWAY};
use crate::text::{join, join_strings, str_eq, trim, trim_ws};

verus! {

/// A JSON value. Numbers keep their text; an object keeps its fields in order.
#[derive(Debug)]
pub enum JsonValue {
    Null,
    Bool(bool),
    Number(String),
    Str(String),
    Array(Vec<JsonValue>),
    Object(Vec<(String, JsonValue)>),
}

/// The value of the first field named `key`.
pub open spec fn find_field(fields: Seq<(String, JsonValue)>, key: Seq<char>) -> Option<JsonValue>
    decreases fields.len(),
{
    if fields.len() == 0 {
        None
    } else if fields[0].0@ == key {
        Some(fields[0].1)
    } else {
        find_field(fields.drop_first(), key)
    }
}

/// `serde_json::Value::get` with a field name: `None` unless `v` is an object with that field.
pub open spec fn json_get(v: JsonValue, key: Seq<char>) -> Option<JsonValue> {
    match v {
        JsonValue::Object(fields) => find_field(fields@, key),
        _ => None,
    }
}

/// The field `key` of `v` when it is a string.
pub open spec fn str_field(v: JsonValue, key: Seq<char>) -> Option<Seq<char>> {
    match json_get(v, key) {
        Some(JsonValue::Str(s)) => Some(s@),
        _ => None,
    }
}

impl JsonValue {
    /// The value of the field `key`, when `self` is an object that has it.
    pub fn get<'a>(&'a self, key: &str) -> (r: Option<&'a JsonValue>)
        ensures
            match r {
                Some(x) => json_get(*self, key@) == Some(*x),
                None => json_get(*self, key@) is None,
            },
    {
        match self {
            JsonValue::Object(fields) => {
                let mut i: usize = 0;
                assert(fields@.skip(0) =~= fields@);
                while i < fields.len()
                    invariant
                        i <= fields@.len(),
                        json_get(*self, key@) == find_field(fields@, key@),
                        find_field(fields@, key@) == find_field(fields@.skip(i as int), key@),
                    decreases fields@.len() - i,
                {
                    assert(fields@.skip(i as int)[0] == fields@[i as int]);
                    let entry = &fields[i];
                    if str_eq(entry.0.as_str(), key) {
                        assert(fields@.skip(i as int)[0].0@ == key@);
                        assert(find_field(fields@.skip(i as int), key@) == Some(entry.1));
                        return Some(&entry.1);
                    }
                    assert(fields@.skip(i as int).drop_first() =~= fields@.skip(i + 1));
                    i += 1;
                }
                None
            },
            _ => None,
        }
    }

    /// The field `key` of `self` when it is a string.
    pub fn string_field(&self, key: &str) -> (r: Option<String>)
        ensures
            match r {
                Some(s) => str_field(*self, key@) == Some(s@),
                None => str_field(*self, key@) is None,
            },
    {
        match self.get(key) {
            Some(JsonValue::Str(s)) => Some(s.clone()),
            _ => None,
        }
    }
}

/// The messages of the error items that carry one, in order.
pub open spec fn item_messages(items: Seq<JsonValue>) -> Seq<Seq<char>>
    decreases items.len(),
{
    if items.len() == 0 {
        Seq::<Seq<char>>::empty()
    } else {
        let rest = item_messages(items.drop_last());
        match str_field(items.last(), "message"@) {
            Some(m) => rest.push(m),
            None => rest,
        }
    }
}

/// What a GitHub error body says: its `message`, or else the messages of its
/// `errors` joined by `, `.
pub open spec fn error_body_message(v: JsonValue) -> Option<Seq<char>> {
    match str_field(v, "message"@) {
        Some(m) => Some(m),
        None => match json_get(v, "errors"@) {
            Some(JsonValue::Array(items)) => Some(join(item_messages(items@), ", "@)),
            _ => None,
        },
    }
}

pub open spec fn no_details_message() -> Seq<char> {
    "GitHub returned an error without details"@
}

/// The message of an error answer from GitHub with body `body` (`None` when it
/// could not be read) that parsed as `parsed`.
pub open spec fn upstream_message(body: Option<Seq<char>>, parsed: Option<JsonValue>) -> Seq<char> {
    match body {
        None => no_details_message(),
        Some(b) => {
            let from_json = match parsed {
                Some(v) => error_body_message(v),
                None => None,
            };
            if from_json is Some && from_json->0.len() > 0 {
                from_json->0
            } else if trim_ws(b).len() == 0 {
                no_details_message()
            } else {
                "GitHub returned an error: "@ + trim_ws(b)
            }
        },
    }
}

/// The status of the answer to a failed GitHub request: GitHub's own when it is a
/// valid HTTP status code, `502` otherwise.
pub open spec fn upstream_status(code: u16) -> u16 {
    if 100 <= code <= 999 {
        code
    } else {
        BAD_GATEWAY
    }
}

/// The messages of the items of an `errors` array.
fn collect_item_messages(items: &Vec<JsonValue>) -> (r: Vec<String>)
    ensures
        r.deep_view() == item_messages(items@),
{
    let mut r: Vec<String> = Vec::new();
    let mut i: usize = 0;
    while i < items.len()
        invariant
            i <= items@.len(),
            r.deep_view() == item_messages(items@.take(i as int)),
        decreases items@.len() - i,
    {
        assert(items@.take(i + 1).drop_last() =~= items@.take(i as int));
        assert(items@.take(i + 1).last() == items@[i as int]);
        let ghost before = r.deep_view();
        match items[i].string_field("message") {
            Some(m) => {
                r.push(m);
                assert(r.deep_view() =~= before.push(m@));
            },
            None => {},
        }
        i += 1;
    }
    assert(items@.take(i as int) =~= items@);
    r
}

/// What a GitHub error body says, as `error_body_message` defines it.
pub fn body_message(v: &JsonValue) -> (r: Option<String>)
    ensures
        match r {
            Some(m) => error_body_message(*v) == Some(m@),
            None => error_body_message(*v) is None,
        },
{
    match v.string_field("message") {
        Some(m) => Some(m),
        None => match v.get("errors") {
            Some(JsonValue::Array(items)) => {
                let msgs = collect_item_messages(items);
                Some(join_strings(&msgs, ", "))
            },
            _ => None,
        },
    }
}

/// The error that answers a failed GitHub request with status `code`, whose body
/// read as `body` and parsed as `parsed`.
pub fn upstream_error(code: u16, body: Option<String>, parsed: Option<JsonValue>) -> (e: ApiError)
    ensures
        e.status == upstream_status(code),
        e.message@ == upstream_message(
            match body {
                Some(b) => Some(b@),
                None => None,
            },
            parsed,
        ),
{
    let status = if 100 <= code && code <= 999 {
        code
    } else {
        BAD_GATEWAY
    };
    let message = match body {
        None => "GitHub returned an error without details".to_string(),
        Some(b) => {
            let from_json = match &parsed {
                Some(v) => body_message(v),
                None => None,
            };
            match from_json {
                Some(m) if !m.as_str().is_empty() => m,
                _ => {
                    let t = trim(b.as_str());
                    if t.as_str().is_empty() {
                        "GitHub returned an error without details".to_string()
                    } else {
                        let mut s = "GitHub returned an error: ".to_string();
                        s.append(t.as_str());
                        s
                    }
                },
            }
        },
    };
    ApiError::with_status(status, message)
}

/// The `sha` of the `commit` that a contents request answered with.
pub fn commit_sha(result: &JsonValue) -> (r: Option<&JsonValue>)
    ensures
        match r {
            Some(x) => match json_get(*result, "commit"@) {
                Some(c) => json_get(c, "sha"@) == Some(*x),
                None => false,
            },
            None => match json_get(*result, "commit"@) {
                Some(c) => json_get(c, "sha"@) is None,
                None => true,
            },
        },
{
    match result.get("commit") {
        Some(c) => c.get("sha"),
        None => None,
    }
}

} // verus!
