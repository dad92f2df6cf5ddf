//! The remote store's interface: the URL of each request, and what each
//! response status means.
//!
//! Requests go to `{server}/api/v1/{email}/{collection}`. The account's email
//! is percent-encoded, and so is a file name in a push and in every path below
//! `words`. A name that is fetched from `anga` or `meta` is sent as the listing
//! gave it.

use crate::collection::{Collection, Scope};
use crate::error::{KayaError, TransportFailure};
use crate::text::{strip_trailing, strip_trailing_char};
use vstd::prelude::*;
use vstd::string::{StringExecFns, StringSliceAdditionalSpecFns};
use vstd::utf8::encode_utf8;

verus! {

/// The bytes that percent-encoding leaves as they are: the ASCII letters and
/// digits, `-`, `.`, `_` and `~`.
pub open spec fn is_unreserved(b: u8) -> bool {
    ||| 0x30 <= b <= 0x39
    ||| 0x41 <= b <= 0x5A
    ||| 0x61 <= b <= 0x7A
    ||| b == 0x2D
    ||| b == 0x2E
    ||| b == 0x5F
    ||| b == 0x7E
}

/// The upper-case hexadecimal digit for `d`.
pub open spec fn hex_upper(d: u8) -> char {
    if d < 10 {
        (0x30 + d) as u8 as char
    } else {
        (0x41 + d - 10) as u8 as char
    }
}

/// One byte, percent-encoded.
pub open spec fn escaped(b: u8) -> Seq<char> {
    if is_unreserved(b) {
        seq![b as char]
    } else {
        seq!['%', hex_upper(b / 16), hex_upper(b % 16)]
    }
}

/// A byte string, percent-encoded.
pub open spec fn percent_encoded_bytes(bytes: Seq<u8>) -> Seq<char>
    decreases bytes.len(),
{
    if bytes.len() == 0 {
        Seq::<char>::empty()
    } else {
        escaped(bytes.first()) + percent_encoded_bytes(bytes.drop_first())
    }
}

/// A text, percent-encoded: each byte of its UTF-8 form is kept if it is
/// unreserved and written as `%` and two upper-case hexadecimal digits if not.
pub open spec fn percent_encoded(text: Seq<char>) -> Seq<char> {
    percent_encoded_bytes(encode_utf8(text))
}

/// The start of every URL of an account.
pub open spec fn api_root_of(server: Seq<char>, email: Seq<char>) -> Seq<char> {
    strip_trailing(server, '/') + "/api/v1/"@ + percent_encoded(email)
}

/// The URL that lists the sub-directories of `words`.
pub open spec fn words_index_url_of(server: Seq<char>, email: Seq<char>) -> Seq<char> {
    api_root_of(server, email) + "/words"@
}

/// The URL that lists the files of a collection.
pub open spec fn listing_url_of(server: Seq<char>, email: Seq<char>, scope: Scope) -> Seq<char> {
    match scope {
        Scope::Words(anga) => api_root_of(server, email) + "/words/"@ + percent_encoded(anga),
        _ => api_root_of(server, email) + "/"@ + scope.segment(),
    }
}

/// The URL that a file is fetched from.
pub open spec fn download_url_of(
    server: Seq<char>,
    email: Seq<char>,
    scope: Scope,
    filename: Seq<char>,
) -> Seq<char> {
    match scope {
        Scope::Words(_) => listing_url_of(server, email, scope) + "/"@ + percent_encoded(filename),
        _ => listing_url_of(server, email, scope) + "/"@ + filename,
    }
}

/// The URL that a file is pushed to.
pub open spec fn upload_url_of(
    server: Seq<char>,
    email: Seq<char>,
    scope: Scope,
    filename: Seq<char>,
) -> Seq<char> {
    listing_url_of(server, email, scope) + "/"@ + percent_encoded(filename)
}

/// What a response status means to the sync engine.
#[derive(Clone, Copy, Debug, PartialEq, Eq, Structural)]
pub enum StatusClass {
    /// 200 to 299.
    Success,
    /// 401: the credentials were refused.
    Unauthorized,
    /// 409: the remote store already holds the file.
    Conflict,
    /// Any other status.
    Failure,
}

/// The class of a status.
pub open spec fn status_class(status: u16) -> StatusClass {
    if 200 <= status <= 299 {
        StatusClass::Success
    } else if status == 401 {
        StatusClass::Unauthorized
    } else if status == 409 {
        StatusClass::Conflict
    } else {
        StatusClass::Failure
    }
}

/// Whether a push that was answered with `status` has put the file on the
/// remote store: a success has, and so has a conflict, which says that the
/// file was there already.
pub open spec fn upload_accepted(status: u16) -> bool {
    status_class(status) == StatusClass::Success || status_class(status) == StatusClass::Conflict
}

/// What a reader of a response is owed: nothing to complain of on success, the
/// refusal of the credentials on 401, the status itself otherwise.
pub open spec fn response_verdict(status: u16) -> Option<TransportFailure> {
    match status_class(status) {
        StatusClass::Success => None,
        StatusClass::Unauthorized => Some(TransportFailure::Unauthorized),
        _ => Some(TransportFailure::Status(status)),
    }
}

/// What `urlencoding::encode` returns: the text with every byte of its UTF-8
/// form percent-encoded, except the ASCII letters and digits, `-`, `.`, `_`
/// and `~`; the escapes use upper-case hexadecimal digits.
#[verifier::external_body]
fn percent_encode(text: &str) -> (out: String)
    ensures
        out@ == percent_encoded(text@),
{
    urlencoding::encode(text).into_owned()
}

/// The start of every URL of the account: the server without trailing
/// slashes, `/api/v1/`, and the encoded email.
pub fn api_root(server: &str, email: &str) -> (url: String)
    ensures
        url@ == api_root_of(server@, email@),
{
    let mut url = strip_trailing_char(server, '/');
    url.append("/api/v1/");
    let encoded = percent_encode(email);
    url.append(encoded.as_str());
    url
}

/// The URL that lists the sub-directories of `words`.
pub fn words_index_url(server: &str, email: &str) -> (url: String)
    ensures
        url@ == words_index_url_of(server@, email@),
{
    let mut url = api_root(server, email);
    url.append("/words");
    url
}

/// The URL that lists the files of `collection`.
pub fn listing_url(server: &str, email: &str, collection: &Collection) -> (url: String)
    ensures
        url@ == listing_url_of(server@, email@, collection@),
{
    let mut url = api_root(server, email);
    match collection {
        Collection::Words(anga) => {
            url.append("/words/");
            let encoded = percent_encode(anga.as_str());
            url.append(encoded.as_str());
        },
        _ => {
            url.append("/");
            url.append(collection.remote_segment());
        },
    }
    url
}

/// The URL that `filename` is fetched from.
pub fn download_url(server: &str, email: &str, collection: &Collection, filename: &str) -> (url:
    String)
    ensures
        url@ == download_url_of(server@, email@, collection@, filename@),
{
    let mut url = listing_url(server, email, collection);
    url.append("/");
    match collection {
        Collection::Words(_) => {
            let encoded = percent_encode(filename);
            url.append(encoded.as_str());
        },
        _ => {
            url.append(filename);
        },
    }
    url
}

/// The URL that `filename` is pushed to.
pub fn upload_url(server: &str, email: &str, collection: &Collection, filename: &str) -> (url:
    String)
    ensures
        url@ == upload_url_of(server@, email@, collection@, filename@),
{
    let mut url = listing_url(server, email, collection);
    url.append("/");
    let encoded = percent_encode(filename);
    url.append(encoded.as_str());
    url
}

/// The class of `status`.
pub fn classify_status(status: u16) -> (class: StatusClass)
    ensures
        class == status_class(status),
{
    if 200 <= status && status <= 299 {
        StatusClass::Success
    } else if status == 401 {
        StatusClass::Unauthorized
    } else if status == 409 {
        StatusClass::Conflict
    } else {
        StatusClass::Failure
    }
}

/// Whether a push answered with `status` counts as done.
pub fn is_upload_accepted(status: u16) -> (r: bool)
    ensures
        r == upload_accepted(status),
{
    match classify_status(status) {
        StatusClass::Success => true,
        StatusClass::Conflict => true,
        _ => false,
    }
}

/// Reads the status of a response: `Ok` on success, the refusal of the
/// credentials on 401, and the status itself on any other.
pub fn check_status(status: u16) -> (r: Result<(), KayaError>)
    ensures
        match response_verdict(status) {
            None => r is Ok,
            Some(TransportFailure::Unauthorized) => r matches Err(
                KayaError::Transport(TransportFailure::Unauthorized),
            ),
            Some(_) => r matches Err(KayaError::Transport(TransportFailure::Status(code)))
                && code == status,
        },
{
    match classify_status(status) {
        StatusClass::Success => Ok(()),
        StatusClass::Unauthorized => Err(KayaError::Transport(TransportFailure::Unauthorized)),
        _ => Err(KayaError::Transport(TransportFailure::Status(status))),
    }
}

/// A conflict is to a push what a success is: a push that was answered with
/// 409 counts as done, as does one that was answered with any status from 200
/// to 299.
pub proof fn lemma_conflict_is_success(success: u16)
    requires
        200 <= success <= 299,
    ensures
        upload_accepted(409),
        upload_accepted(409) == upload_accepted(success),
{
}

/// A percent-encoded text holds no slash, so an encoded name is always one
/// path segment.
pub proof fn lemma_encoded_has_no_slash(bytes: Seq<u8>)
    ensures
        !percent_encoded_bytes(bytes).contains('/'),
    decreases bytes.len(),
{
    if bytes.len() > 0 {
        let head = escaped(bytes.first());
        let tail = percent_encoded_bytes(bytes.drop_first());
        lemma_encoded_has_no_slash(bytes.drop_first());
        assert(!head.contains('/')) by {
            lemma_escaped_has_no_slash(bytes.first());
        }
        assert forall|k: int| 0 <= k < (head + tail).len() implies (head + tail)[k] != '/' by {
            if k < head.len() {
                assert(head.contains(head[k]));
            } else {
                assert(tail.contains(tail[k - head.len()]));
            }
        }
    }
}

proof fn lemma_escaped_has_no_slash(b: u8)
    ensures
        !escaped(b).contains('/'),
{
    let e = escaped(b);
    assert forall|k: int| 0 <= k < e.len() implies e[k] != '/' by {
        assert('/' as u32 == 0x2F);
        assert('%' as u32 == 0x25);
        let hi = b / 16;
        let lo = b % 16;
        assert(hex_upper(hi) as u32 != 0x2F);
        assert(hex_upper(lo) as u32 != 0x2F);
    }
}

} // verus!
