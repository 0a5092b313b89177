//! Identifiers, URLs and digests. The parsing and hashing themselves are done
//! by the `uuid`, `url`, `sha2` and `hex` crates; what the service decides on
//! their results is verified here.
use vstd::prelude::*;
use sha2::Digest;
use crate::error::{ApiError, ordinary};
use crate::text::{
    CharClass, any_in, any_in_class, byte_len, chars_of, str_equals, string_of, trim, trim_chars,
};
use crate::inputs::byte_length;

verus! {

/// The canonical (hyphenated, lower-case) text of the UUID that `s` spells,
/// in any of the forms that `uuid::Uuid::parse_str` accepts, or `None`.
pub uninterp spec fn uuid_text(s: Seq<char>) -> Option<Seq<char>>;

/// Parses `s` with `uuid::Uuid::parse_str` and renders the UUID with its
/// `Display` impl. The contract claims only that the result is the named
/// function of `s` and that a rendered UUID has its 36 characters.
#[verifier::external_body]
fn parse_uuid(s: &str) -> (r: Option<String>)
    ensures
        (match r {
            Some(t) => uuid_text(s@) == Some(t@),
            None => uuid_text(s@) is None,
        }),
        r matches Some(t) ==> t@.len() == 36,
{
    uuid::Uuid::parse_str(s).ok().map(|id| id.to_string())
}

/// A fresh random (version 4) UUID from `uuid::Uuid::new_v4`, rendered
/// hyphenated: 36 characters, nothing more is claimed.
#[verifier::external_body]
pub(crate) fn new_uuid() -> (r: String)
    ensures
        r@.len() == 36,
{
    uuid::Uuid::new_v4().to_string()
}

/// A lowercase hexadecimal digit.
pub open spec fn lower_hex_digit(c: char) -> bool {
    ('0' <= c <= '9') || ('a' <= c <= 'f')
}

/// A fresh random UUID from `uuid::Uuid::new_v4` in its simple form, which
/// the crate writes as 32 lowercase hexadecimal digits; which digits is not
/// claimed.
#[verifier::external_body]
pub(crate) fn new_uuid_simple() -> (r: String)
    ensures
        r@.len() == 32,
        forall|i: int| 0 <= i < r@.len() ==> lower_hex_digit(#[trigger] r@[i]),
{
    uuid::Uuid::new_v4().simple().to_string()
}

/// The first byte of a fresh random UUID from `uuid::Uuid::new_v4`: any byte.
#[verifier::external_body]
pub(crate) fn random_byte() -> (r: u8) {
    uuid::Uuid::new_v4().as_bytes()[0]
}

/// The canonical id that `value` spells, or `None`.
pub open spec fn canonical_id(value: Seq<char>) -> Option<Seq<char>> {
    uuid_text(value)
}

fn canonical_or(value: &str, message: &str) -> (r: Result<String, ApiError>)
    ensures
        (match r {
            Ok(t) => uuid_text(value@) == Some(t@),
            Err(e) => uuid_text(value@) is None && ordinary(e, 404, message@),
        }),
{
    match parse_uuid(value) {
        Some(t) => Ok(t),
        None => Err(ApiError::not_found(message.to_owned())),
    }
}

/// A thread id in canonical form; an unparseable id is an unknown thread.
pub fn thread_id(value: &str) -> (r: Result<String, ApiError>)
    ensures
        (match r {
            Ok(t) => uuid_text(value@) == Some(t@),
            Err(e) => uuid_text(value@) is None && ordinary(e, 404, "thread not found"@),
        }),
{
    canonical_or(value, "thread not found")
}

/// A record id (worker, pairing, check) in canonical form.
pub fn record_id(value: &str) -> (r: Result<String, ApiError>)
    ensures
        (match r {
            Ok(t) => uuid_text(value@) == Some(t@),
            Err(e) => uuid_text(value@) is None && ordinary(e, 404, "record not found"@),
        }),
{
    canonical_or(value, "record not found")
}

/// An upstream id in canonical form.
pub fn upstream_id(value: &str) -> (r: Result<String, ApiError>)
    ensures
        (match r {
            Ok(t) => uuid_text(value@) == Some(t@),
            Err(e) => uuid_text(value@) is None && ordinary(e, 404, "upstream not found"@),
        }),
{
    canonical_or(value, "upstream not found")
}

/// The boot id a Worker sends: absent or empty means none; anything else
/// must spell a UUID and is kept as sent.
pub open spec fn boot_header_spec(value: Option<Seq<char>>) -> Option<Option<Seq<char>>> {
    match value {
        None => Some(None),
        Some(v) => if v.len() == 0 {
            Some(None)
        } else if uuid_text(v) is Some {
            Some(Some(v))
        } else {
            None
        },
    }
}

pub fn boot_header(value: Option<&str>) -> (r: Result<Option<String>, ApiError>)
    ensures
        (match r {
            Ok(b) => boot_header_spec(
                match value {
                    Some(v) => Some(v@),
                    None => None,
                },
            ) == Some(
                match b {
                    Some(t) => Some(t@),
                    None => None,
                },
            ),
            Err(e) => boot_header_spec(
                match value {
                    Some(v) => Some(v@),
                    None => None,
                },
            ) is None && ordinary(e, 400, "invalid Worker boot ID"@),
        }),
{
    match value {
        None => Ok(None),
        Some(v) => {
            if v.unicode_len() == 0 {
                Ok(None)
            } else {
                match parse_uuid(v) {
                    Some(_) => Ok(Some(v.to_owned())),
                    None => Err(ApiError::bad_request("invalid Worker boot ID".to_owned())),
                }
            }
        },
    }
}

/// The scheme and host of the URL that `s` spells, as `url::Url::parse`
/// reads it, or `None` when it does not parse.
pub uninterp spec fn url_parts(s: Seq<char>) -> Option<(Seq<char>, Option<Seq<char>>)>;

/// Parses `s` with `url::Url::parse` and reads back `scheme()` and
/// `host_str()`. The contract claims only that these are the named function
/// of `s`.
#[verifier::external_body]
fn parse_url(s: &str) -> (r: Option<(String, Option<String>)>)
    ensures
        url_parts(s@) == (match r {
            Some((scheme, host)) => Some(
                (
                    scheme@,
                    match host {
                        Some(h) => Some(h@),
                        None => None,
                    },
                ),
            ),
            None => None,
        }),
{
    url::Url::parse(s).ok().map(|u| (u.scheme().to_owned(), u.host_str().map(str::to_owned)))
}

/// An absolute `http` or `https` URL with a host.
pub open spec fn web_url(s: Seq<char>) -> bool {
    url_parts(s) matches Some((scheme, host)) && (scheme == "http"@ || scheme == "https"@)
        && host is Some
}

fn web_scheme(s: &str) -> (r: bool)
    ensures
        r == web_url(s@),
{
    match parse_url(s) {
        Some((scheme, host)) => (str_equals(scheme.as_str(), "http") || str_equals(
            scheme.as_str(),
            "https",
        )) && host.is_some(),
        None => false,
    }
}

/// Whether a browser may navigate to `value`.
pub fn is_web_url(value: &str) -> (r: bool)
    ensures
        r == web_url(value@),
{
    web_scheme(value)
}

/// `s` without trailing `/` characters.
pub open spec fn trim_slashes(s: Seq<char>) -> Seq<char>
    decreases s.len(),
{
    if s.len() > 0 && s.last() == '/' {
        trim_slashes(s.drop_last())
    } else {
        s
    }
}

fn trim_slashes_exec(s: &[char]) -> (r: String)
    ensures
        r@ == trim_slashes(s@),
{
    let mut end = s.len();
    assert(s@.take(end as int) =~= s@);
    while end > 0 && s[end - 1] == '/'
        invariant
            end <= s.len(),
            trim_slashes(s@) == trim_slashes(s@.take(end as int)),
        decreases end,
    {
        assert(s@.take(end as int).drop_last() =~= s@.take(end - 1));
        end -= 1;
    }
    assert(s@.take(end as int) =~= s@.subrange(0, end as int));
    crate::text::string_of_range(s, 0, end)
}

pub open spec fn base_url_message() -> Seq<char> {
    "base_url must be a valid HTTP or HTTPS URL"@
}

/// The stored form of an upstream base URL: trimmed, without trailing
/// slashes, an `http(s)` URL with a host, at most 2048 bytes and free of
/// control characters.
pub open spec fn base_url_spec(value: Seq<char>) -> Result<Seq<char>, Seq<char>> {
    let v = trim_slashes(trim(value));
    if !web_url(v) {
        Err(base_url_message())
    } else if byte_len(v) > 2048 || any_in(v, CharClass::Control) {
        Err("base_url must contain at most 2048 visible characters"@)
    } else {
        Ok(v)
    }
}

pub fn validate_base_url(value: String) -> (r: Result<String, ApiError>)
    ensures
        (match r {
            Ok(v) => base_url_spec(value@) == Ok::<Seq<char>, Seq<char>>(v@),
            Err(e) => base_url_spec(value@) matches Err(m) && ordinary(e, 400, m),
        }),
{
    let t = trim_chars(chars_of(value.as_str()).as_slice(), CharClass::Whitespace);
    let v = trim_slashes_exec(t.as_slice());
    if !web_scheme(v.as_str()) {
        return Err(ApiError::bad_request("base_url must be a valid HTTP or HTTPS URL".to_owned()));
    }
    let vc = chars_of(v.as_str());
    let too_long = if vc.len() > 2048 {
        proof {
            crate::text::lemma_byte_len_ge_len(vc@);
        }
        true
    } else {
        byte_length(vc.as_slice()) > 2048
    };
    if too_long || any_in_class(vc.as_slice(), CharClass::Control) {
        return Err(
            ApiError::bad_request(
                "base_url must contain at most 2048 visible characters".to_owned(),
            ),
        );
    }
    Ok(v)
}

/// The name an upstream gets from its URL: its host, or `default`.
pub open spec fn name_from_base_url_spec(base_url: Seq<char>) -> Seq<char> {
    match url_parts(base_url) {
        Some((_, Some(host))) => host,
        _ => "default"@,
    }
}

pub fn name_from_base_url(base_url: &str) -> (r: String)
    ensures
        r@ == name_from_base_url_spec(base_url@),
{
    match parse_url(base_url) {
        Some((_, Some(host))) => host,
        _ => "default".to_owned(),
    }
}

/// The SHA-256 digest of the UTF-8 encoding of `s`.
pub uninterp spec fn sha256_utf8(s: Seq<char>) -> Seq<u8>;

/// Hashes the UTF-8 bytes of `s` with `sha2::Sha256::digest`. The contract
/// claims only that the digest is the named function of `s` and is 32 bytes
/// long, as the algorithm fixes.
#[verifier::external_body]
fn sha256(s: &str) -> (r: Vec<u8>)
    ensures
        r@ == sha256_utf8(s@),
        r@.len() == 32,
{
    sha2::Sha256::digest(s.as_bytes()).to_vec()
}

pub open spec fn hex_digit(d: u8) -> char {
    if d < 10 {
        (('0' as u8) + d) as char
    } else {
        (('a' as u8) + d - 10) as char
    }
}

/// Lower-case hexadecimal, two digits per byte.
pub open spec fn hex_lower(bytes: Seq<u8>) -> Seq<char>
    decreases bytes.len(),
{
    if bytes.len() == 0 {
        Seq::empty()
    } else {
        hex_lower(bytes.drop_last()) + seq![
            hex_digit(bytes.last() / 16),
            hex_digit(bytes.last() % 16),
        ]
    }
}

/// `hex::encode`: each byte as two lower-case hexadecimal digits, in order.
#[verifier::external_body]
fn hex_encode(bytes: &[u8]) -> (r: String)
    ensures
        r@ == hex_lower(bytes@),
{
    hex::encode(bytes)
}

/// The stored form of a secret: its SHA-256 digest in lower-case hex.
pub open spec fn hash_secret_spec(value: Seq<char>) -> Seq<char> {
    hex_lower(sha256_utf8(value))
}

pub fn hash_secret(value: &str) -> (r: String)
    ensures
        r@ == hash_secret_spec(value@),
{
    let digest = sha256(value);
    hex_encode(digest.as_slice())
}

/// The key under which a thread's upstream turn state is kept: the hash of
/// the base URL without trailing slashes and the consumer secret, on two
/// lines.
pub open spec fn upstream_key_spec(base_url: Seq<char>, secret: Seq<char>) -> Seq<char> {
    hash_secret_spec(trim_slashes(base_url) + seq!['\n'] + secret)
}

pub fn upstream_key(base_url: &str, secret: &str) -> (r: String)
    ensures
        r@ == upstream_key_spec(base_url@, secret@),
{
    let bc = chars_of(base_url);
    let base = trim_slashes_exec(bc.as_slice());
    let mut v: Vec<char> = chars_of(base.as_str());
    v.push('\n');
    crate::text::extend_str(&mut v, secret);
    assert(v@ =~= trim_slashes(base_url@) + seq!['\n'] + secret@);
    let joined = string_of(v.as_slice());
    hash_secret(joined.as_str())
}

/// Trailing slashes do not matter: a base URL with one more `/` at its end
/// keys the same turn state.
pub proof fn lemma_upstream_key_ignores_trailing_slash(base_url: Seq<char>, secret: Seq<char>)
    ensures
        upstream_key_spec(base_url.push('/'), secret) == upstream_key_spec(base_url, secret),
{
    assert(base_url.push('/').drop_last() =~= base_url);
}

} // verus!
