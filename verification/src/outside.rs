//! The calls into outside crates and into std that the logic needs, each with the
//! contract that the called code's source or documentation shows.

use vstd::prelude::*;

verus! {

/// A byte that `urlencoding` leaves as it is: ASCII letters, digits, `-`, `.`, `_`, `~`.
pub open spec fn url_safe_byte(b: u8) -> bool {
    (48 <= b <= 57) || (65 <= b <= 90) || (97 <= b <= 122) || b == 45 || b == 46 || b == 95 || b == 126
}

/// An upper-case hexadecimal digit for a value below 16.
pub open spec fn hex_upper(d: int) -> char {
    if d < 10 {
        (48 + d) as char
    } else {
        (55 + d) as char
    }
}

/// The text that `urlencoding` writes for one byte.
pub open spec fn url_encode_byte(b: u8) -> Seq<char> {
    if url_safe_byte(b) {
        seq![b as char]
    } else {
        seq!['%', hex_upper(b as int / 16), hex_upper(b as int % 16)]
    }
}

/// Percent-encoding of a byte sequence, byte by byte.
pub open spec fn percent_encode(bytes: Seq<u8>) -> Seq<char>
    decreases bytes.len(),
{
    if bytes.len() == 0 {
        Seq::<char>::empty()
    } else {
        percent_encode(bytes.drop_last()) + url_encode_byte(bytes.last())
    }
}

/// `urlencoding::encode`: every byte of the UTF-8 encoding of `s` is kept when it is
/// an ASCII letter, digit, `-`, `.`, `_` or `~`, and written `%XX` (upper-case hex) otherwise.
#[verifier::external_body]
pub(crate) fn url_encode(s: &str) -> (r: String)
    ensures
        r@ == percent_encode(vstd::utf8::encode_utf8(s@)),
{
    urlencoding::encode(s).into_owned()
}

/// The standard base64 alphabet.
pub open spec fn b64_char(v: int) -> char {
    if v < 26 {
        (65 + v) as char
    } else if v < 52 {
        (71 + v) as char
    } else if v < 62 {
        (v - 4) as char
    } else if v == 62 {
        '+'
    } else {
        '/'
    }
}

/// Standard base64 with `=` padding: three bytes become four characters.
pub open spec fn base64_chars(bytes: Seq<u8>) -> Seq<char>
    decreases bytes.len(),
{
    if bytes.len() == 0 {
        Seq::<char>::empty()
    } else if bytes.len() == 1 {
        let b0 = bytes[0] as int;
        seq![b64_char(b0 / 4), b64_char((b0 % 4) * 16), '=', '=']
    } else if bytes.len() == 2 {
        let b0 = bytes[0] as int;
        let b1 = bytes[1] as int;
        seq![b64_char(b0 / 4), b64_char((b0 % 4) * 16 + b1 / 16), b64_char((b1 % 16) * 4), '=']
    } else {
        let b0 = bytes[0] as int;
        let b1 = bytes[1] as int;
        let b2 = bytes[2] as int;
        seq![
            b64_char(b0 / 4),
            b64_char((b0 % 4) * 16 + b1 / 16),
            b64_char((b1 % 16) * 4 + b2 / 64),
            b64_char(b2 % 64),
        ] + base64_chars(bytes.skip(3))
    }
}

/// `base64::engine::general_purpose::STANDARD.encode`: standard alphabet, padded with `=`.
#[verifier::external_body]
pub(crate) fn base64_encode(bytes: &[u8]) -> (r: String)
    ensures
        r@ == base64_chars(bytes@),
{
    base64::Engine::encode(&base64::engine::general_purpose::STANDARD, bytes)
}

/// The SHA-256 digest of `data`, as `sha2` computes it.
pub uninterp spec fn sha256_of(data: Seq<u8>) -> Seq<u8>;

/// `sha2::Sha256::digest`: the 32-byte SHA-256 digest of `data`.
#[verifier::external_body]
pub(crate) fn sha256(data: &[u8]) -> (r: Vec<u8>)
    ensures
        r@ == sha256_of(data@),
        r@.len() == 32,
{
    <sha2::Sha256 as sha2::Digest>::digest(data).to_vec()
}

/// The first media type that `mime_guess` associates with the extension of `path`, if any.
pub uninterp spec fn guessed_mime(path: Seq<char>) -> Option<Seq<char>>;

/// `mime_guess::from_path(path).first()`, as the essence string of the media type.
#[verifier::external_body]
pub(crate) fn mime_first(path: &str) -> (r: Option<String>)
    ensures
        match r {
            Some(m) => guessed_mime(path@) == Some(m@),
            None => guessed_mime(path@) is None,
        },
{
    mime_guess::from_path(path).first().map(|m| m.essence_str().to_string())
}

/// A lower-case hexadecimal digit.
pub open spec fn lower_hex_char(c: char) -> bool {
    ('0' <= c && c <= '9') || ('a' <= c && c <= 'f')
}

/// The hyphenated form of a UUID: 36 characters, `-` at 8, 13, 18 and 23, lower-case
/// hexadecimal digits elsewhere.
pub open spec fn hyphenated_uuid(s: Seq<char>) -> bool {
    &&& s.len() == 36
    &&& forall|i: int| 0 <= i < 36 ==> if i == 8 || i == 13 || i == 18 || i == 23 {
        #[trigger] s[i] == '-'
    } else {
        lower_hex_char(s[i])
    }
}

/// The text of the version-4 UUID that `uuid` builds from 16 random bytes.
pub uninterp spec fn uuid_text_of(random: Seq<u8>) -> Seq<char>;

/// `uuid::Builder::from_random_bytes(random).into_uuid().to_string()`: the UUID of
/// version 4 made of the bytes `random` (with its version and variant bits set),
/// in its hyphenated lower-case form. The text is a function of the bytes alone.
#[verifier::external_body]
pub(crate) fn uuid_from_random(random: [u8; 16]) -> (r: String)
    ensures
        r@ == uuid_text_of(random@),
        hyphenated_uuid(r@),
{
    uuid::Builder::from_random_bytes(random).into_uuid().to_string()
}

/// `std::time::SystemTimeError`, which `SystemTime::elapsed` gives when the clock
/// stands before the time it is asked about.
#[verifier::external_type_specification]
#[verifier::external_body]
pub struct ExSystemTimeError(std::time::SystemTimeError);

/// `UNIX_EPOCH.elapsed()`: the time from 1970 to the machine's clock, `Err` when the
/// clock is before 1970. The value is the machine's clock: nothing is stated of it.
#[verifier::external_body]
pub(crate) fn since_epoch() -> (r: Result<std::time::Duration, std::time::SystemTimeError>) {
    std::time::UNIX_EPOCH.elapsed()
}

/// `Duration::as_secs`: the whole seconds of a duration. Nothing is stated of the
/// value, since `Duration` is opaque here; the call cannot fail.
#[verifier::external_body]
pub(crate) fn whole_seconds(d: &std::time::Duration) -> (r: u64) {
    d.as_secs()
}

} // verus!
