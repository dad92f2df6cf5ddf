//! The native-messaging surface: what each kind of message asks for, and what
//! is answered. Framing, and the reading and writing of files, are left to the
//! host program.

use crate::collection::{Collection, Scope};
use crate::config::{
    account_is, copy_text, merge_config, resolve_test_account, test_account, text_of, Account,
    Config, ConfigUpdate,
};
use crate::error::{error_text, DecodeFailure, KayaError, MessageField};
use crate::http::first_index;
use crate::listing::views;
use crate::remote::{listing_url, listing_url_of};
use crate::text::{has_prefix, has_suffix, range_equals, string_from, text_equals, to_chars};
use crate::vault::{base64_decode, decode_base64};
use vstd::prelude::*;
use vstd::slice::slice_to_vec;
use vstd::string::{StringExecFns, StringSliceAdditionalSpecFns};
use vstd::utf8::encode_utf8;

verus! {

/// A message from the browser.
#[derive(Debug)]
pub struct IncomingMessage {
    pub id: Option<u64>,
    pub message: String,
    pub filename: Option<String>,
    pub content_type: Option<String>,
    pub text: Option<String>,
    pub base64: Option<String>,
    pub server: Option<String>,
    pub email: Option<String>,
    pub password: Option<String>,
}

/// A message to the browser.
#[derive(Debug)]
pub struct OutgoingMessage {
    pub id: Option<u64>,
    pub success: bool,
    pub error: Option<String>,
    pub urls: Option<Vec<String>>,
    pub message_type: Option<String>,
    pub has_password: Option<bool>,
}

/// What a message asks for.
#[derive(Clone, Copy, Debug, PartialEq, Eq, Structural)]
pub enum MessageKind {
    /// New account settings.
    Config,
    /// Whether a password is stored.
    ConfigStatus,
    /// A test of the connection to the remote store.
    TestConnection,
    /// A content file to save.
    Anga,
    /// A metadata file to save.
    Meta,
    /// Nothing that is known.
    Unknown,
}

/// A file to write: its name and its content.
#[derive(Debug)]
pub struct FileWrite {
    pub filename: String,
    pub content: Vec<u8>,
}

/// The kind that a tag names.
pub open spec fn kind_of(tag: Seq<char>) -> MessageKind {
    if tag == "config"@ {
        MessageKind::Config
    } else if tag == "config_status"@ {
        MessageKind::ConfigStatus
    } else if tag == "test_connection"@ {
        MessageKind::TestConnection
    } else if tag == "anga"@ {
        MessageKind::Anga
    } else if tag == "meta"@ {
        MessageKind::Meta
    } else {
        MessageKind::Unknown
    }
}

/// Whether a message of this kind, once served, is followed by a sync pass at
/// once: the two kinds that save a file are.
pub open spec fn kind_triggers_sync(kind: MessageKind) -> bool {
    kind == MessageKind::Anga || kind == MessageKind::Meta
}

/// The kind of a message, by its tag.
pub fn message_kind(tag: &str) -> (kind: MessageKind)
    ensures
        kind == kind_of(tag@),
{
    if text_equals(tag, "config") {
        MessageKind::Config
    } else if text_equals(tag, "config_status") {
        MessageKind::ConfigStatus
    } else if text_equals(tag, "test_connection") {
        MessageKind::TestConnection
    } else if text_equals(tag, "anga") {
        MessageKind::Anga
    } else if text_equals(tag, "meta") {
        MessageKind::Meta
    } else {
        MessageKind::Unknown
    }
}

/// Whether a message of this kind is followed by a sync pass at once.
pub fn triggers_sync(kind: MessageKind) -> (r: bool)
    ensures
        r == kind_triggers_sync(kind),
{
    match kind {
        MessageKind::Anga => true,
        MessageKind::Meta => true,
        _ => false,
    }
}

/// The error for a message whose tag names nothing that is known.
pub fn unknown_message(tag: &str) -> (e: KayaError)
    ensures
        e matches KayaError::Decode(DecodeFailure::UnknownMessageType(t)) && t@ == tag@,
{
    KayaError::Decode(DecodeFailure::UnknownMessageType(String::from_str(tag)))
}

/// The settings that a message carries.
pub fn config_update(msg: &IncomingMessage) -> (update: ConfigUpdate)
    ensures
        text_of(&update.server) == text_of(&msg.server),
        text_of(&update.email) == text_of(&msg.email),
        text_of(&update.password) == text_of(&msg.password),
{
    ConfigUpdate {
        server: copy_text(&msg.server),
        email: copy_text(&msg.email),
        password: copy_text(&msg.password),
    }
}

/// The settings to store when a `config` message arrives: those of
/// `existing`, with what the message carries in place of what it had. A
/// password in the message is sealed under a new key. The settings are had
/// wherever the message holds no password, and wherever the cipher seals its
/// password whatever key and nonce are drawn.
pub fn handle_config_message(msg: &IncomingMessage, existing: &Config) -> (r: Result<
    Config,
    KayaError,
>)
    ensures
        match r {
            Ok(config) => {
                &&& text_of(&config.server) == crate::config::first_present(
                    &msg.server,
                    &existing.server,
                )
                &&& text_of(&config.email) == crate::config::first_present(
                    &msg.email,
                    &existing.email,
                )
                &&& match msg.password {
                    Some(password) => {
                        &&& config.well_formed()
                        &&& config.encrypted_password is Some
                        &&& config.stored_password() == Some(
                            Ok::<Seq<char>, KayaError>(password@),
                        )
                    },
                    None => {
                        &&& text_of(&config.encrypted_password) == text_of(
                            &existing.encrypted_password,
                        )
                        &&& text_of(&config.encryption_key) == text_of(&existing.encryption_key)
                    },
                }
            },
            Err(e) => msg.password is Some && e == KayaError::Crypto(
                crate::error::CryptoFailure::SealFailed,
            ),
        },
        msg.password is None ==> r is Ok,
        msg.password matches Some(password) && crate::vault::always_seals(password@) ==> r is Ok,
{
    let update = config_update(msg);
    merge_config(&update, existing)
}

/// What a `test_connection` message leads to: the account to test, and the
/// URL to get, which is the listing of `anga`.
pub fn handle_test_connection(msg: &IncomingMessage, config: &Config) -> (r: Result<
    (Account, String),
    KayaError,
>)
    ensures
        match test_account(&config_view(msg), config) {
            Ok(texts) => r matches Ok(probe) && account_is(&probe.0, texts) && probe.1@
                == listing_url_of(texts.0, texts.1, Scope::Anga),
            Err(e) => r matches Err(f) && f == e,
        },
{
    let update = config_update(msg);
    proof {
        lemma_same_settings(&update, &config_view(msg), config);
    }
    match resolve_test_account(&update, config) {
        Ok(account) => {
            let url = listing_url(
                account.server.as_str(),
                account.email.as_str(),
                &Collection::Anga,
            );
            Ok((account, url))
        },
        Err(e) => Err(e),
    }
}

/// The settings that a message carries, as a ghost value.
pub open spec fn config_view(msg: &IncomingMessage) -> ConfigUpdate {
    ConfigUpdate { server: msg.server, email: msg.email, password: msg.password }
}

proof fn lemma_same_settings(a: &ConfigUpdate, b: &ConfigUpdate, config: &Config)
    requires
        text_of(&a.server) == text_of(&b.server),
        text_of(&a.email) == text_of(&b.email),
        text_of(&a.password) == text_of(&b.password),
    ensures
        test_account(a, config) == test_account(b, config),
{
}

/// What an `anga` message asks to be written: the file named by the message,
/// holding the decoded `base64` field where the type is `base64`, and the
/// bytes of the `text` field where the type is `text` or absent.
pub open spec fn anga_write(msg: &IncomingMessage) -> Result<(Seq<char>, Seq<u8>), KayaError> {
    match msg.filename {
        None => Err(KayaError::Decode(DecodeFailure::MissingField(MessageField::Filename))),
        Some(filename) => {
            if msg.content_type matches Some(kind) && kind@ == "base64"@ {
                match msg.base64 {
                    None => Err(
                        KayaError::Decode(DecodeFailure::MissingField(MessageField::Base64)),
                    ),
                    Some(encoded) => match base64_decode(encoded@) {
                        None => Err(KayaError::Decode(DecodeFailure::Base64)),
                        Some(bytes) => Ok((filename@, bytes)),
                    },
                }
            } else if msg.content_type is None || msg.content_type->0@ == "text"@ {
                match msg.text {
                    None => Err(KayaError::Decode(DecodeFailure::MissingField(MessageField::Text))),
                    Some(text) => Ok((filename@, encode_utf8(text@))),
                }
            } else {
                Err(KayaError::Decode(DecodeFailure::UnknownContentType(msg.content_type->0)))
            }
        },
    }
}

/// What a `meta` message asks to be written: the file named by the message,
/// holding the bytes of the `text` field.
pub open spec fn meta_write(msg: &IncomingMessage) -> Result<(Seq<char>, Seq<u8>), KayaError> {
    match (msg.filename, msg.text) {
        (None, _) => Err(KayaError::Decode(DecodeFailure::MissingField(MessageField::Filename))),
        (Some(_), None) => Err(KayaError::Decode(DecodeFailure::MissingField(MessageField::Text))),
        (Some(filename), Some(text)) => Ok((filename@, encode_utf8(text@))),
    }
}

/// `r` is the write that `expected` describes, or its error. An unknown
/// content type is reported with the type.
pub open spec fn is_write_result(
    r: &Result<FileWrite, KayaError>,
    expected: Result<(Seq<char>, Seq<u8>), KayaError>,
) -> bool {
    match expected {
        Ok((filename, content)) => r matches Ok(write) && write.filename@ == filename
            && write.content@ == content,
        Err(KayaError::Decode(DecodeFailure::UnknownContentType(kind))) => r matches Err(
            KayaError::Decode(DecodeFailure::UnknownContentType(k)),
        ) && k@ == kind@,
        Err(e) => r matches Err(f) && *f == e,
    }
}

/// The bytes of a text.
fn bytes_of(text: &str) -> (bytes: Vec<u8>)
    ensures
        bytes@ == encode_utf8(text@),
{
    slice_to_vec(text.as_bytes())
}

/// Reads from an `anga` message what is to be written.
pub fn handle_anga_message(msg: &IncomingMessage) -> (r: Result<FileWrite, KayaError>)
    ensures
        is_write_result(&r, anga_write(msg)),
{
    let filename = match &msg.filename {
        Some(filename) => filename.clone(),
        None => {
            return Err(KayaError::Decode(DecodeFailure::MissingField(MessageField::Filename)));
        },
    };
    let is_base64 = match &msg.content_type {
        Some(kind) => text_equals(kind.as_str(), "base64"),
        None => false,
    };
    let is_text = match &msg.content_type {
        Some(kind) => text_equals(kind.as_str(), "text"),
        None => true,
    };
    if is_base64 {
        match &msg.base64 {
            None => Err(KayaError::Decode(DecodeFailure::MissingField(MessageField::Base64))),
            Some(encoded) => match decode_base64(encoded.as_str()) {
                Ok(content) => Ok(FileWrite { filename, content }),
                Err(_) => Err(KayaError::Decode(DecodeFailure::Base64)),
            },
        }
    } else if is_text {
        match &msg.text {
            None => Err(KayaError::Decode(DecodeFailure::MissingField(MessageField::Text))),
            Some(text) => Ok(FileWrite { filename, content: bytes_of(text.as_str()) }),
        }
    } else {
        match &msg.content_type {
            Some(kind) => Err(
                KayaError::Decode(DecodeFailure::UnknownContentType(kind.clone())),
            ),
            None => Err(KayaError::Decode(DecodeFailure::MissingField(MessageField::Text))),
        }
    }
}

/// Reads from a `meta` message what is to be written.
pub fn handle_meta_message(msg: &IncomingMessage) -> (r: Result<FileWrite, KayaError>)
    ensures
        is_write_result(&r, meta_write(msg)),
{
    let filename = match &msg.filename {
        Some(filename) => filename.clone(),
        None => {
            return Err(KayaError::Decode(DecodeFailure::MissingField(MessageField::Filename)));
        },
    };
    match &msg.text {
        None => Err(KayaError::Decode(DecodeFailure::MissingField(MessageField::Text))),
        Some(text) => Ok(FileWrite { filename, content: bytes_of(text.as_str()) }),
    }
}

/// The answer to a `config_status` message that was served.
pub fn status_response(id: Option<u64>, has_password: bool) -> (out: OutgoingMessage)
    ensures
        out.id == id,
        out.success,
        out.error is None,
        out.urls is None,
        out.message_type is None,
        out.has_password == Some(has_password),
{
    OutgoingMessage {
        id,
        success: true,
        error: None,
        urls: None,
        message_type: None,
        has_password: Some(has_password),
    }
}

/// The answer to any other message that was served: it carries the
/// bookmarked URLs, where they could be read, under the type `bookmarks`.
pub fn success_response(id: Option<u64>, urls: Option<Vec<String>>) -> (out: OutgoingMessage)
    ensures
        out.id == id,
        out.success,
        out.error is None,
        out.urls == urls,
        out.message_type matches Some(t) && t@ == "bookmarks"@,
        out.has_password is None,
{
    OutgoingMessage {
        id,
        success: true,
        error: None,
        urls,
        message_type: Some(String::from_str("bookmarks")),
        has_password: None,
    }
}

/// The answer to a message that could not be served: it carries the text of
/// the error and nothing else.
pub fn failure_response(id: Option<u64>, error: &KayaError) -> (out: OutgoingMessage)
    ensures
        out.id == id,
        !out.success,
        out.error matches Some(text) && text@ == error_text(error),
        out.urls is None,
        out.message_type is None,
        out.has_password is None,
{
    OutgoingMessage {
        id,
        success: false,
        error: Some(error.message()),
        urls: None,
        message_type: None,
        has_password: None,
    }
}

/// A bookmark file is one with the extension `url`: its name ends with `.url`
/// and has something before that.
pub open spec fn is_bookmark_name(name: Seq<char>) -> bool {
    has_suffix(name, ".url"@) && name.len() > ".url"@.len()
}

/// Whether `name` is the name of a bookmark file.
pub fn is_bookmark_file(name: &str) -> (r: bool)
    ensures
        r == is_bookmark_name(name@),
{
    let chars = to_chars(name);
    let n = chars.len();
    let m = ".url".unicode_len();
    if n <= m {
        return false;
    }
    range_equals(&chars, n - m, n, ".url")
}

/// A line as it is read: without the carriage return that stands before its
/// line feed, if there is one.
pub open spec fn line_text(raw: Seq<char>, terminated: bool) -> Seq<char> {
    if terminated && raw.len() > 0 && raw.last() == '\r' {
        raw.drop_last()
    } else {
        raw
    }
}

/// The URL that a line holds: what follows `URL=` at its start.
pub open spec fn url_on(line: Seq<char>) -> Seq<Seq<char>> {
    if has_prefix(line, "URL="@) {
        seq![line.subrange("URL="@.len() as int, line.len() as int)]
    } else {
        Seq::<Seq<char>>::empty()
    }
}

/// The URLs that a bookmark file holds, in the order of its lines. Lines end
/// with a line feed, which a carriage return may precede.
pub open spec fn urls_in(text: Seq<char>) -> Seq<Seq<char>>
    decreases text.len(),
{
    if text.len() == 0 {
        Seq::<Seq<char>>::empty()
    } else {
        let cut = first_index(text, '\n');
        if 0 <= cut < text.len() {
            url_on(line_text(text.subrange(0, cut), true)) + urls_in(
                text.subrange(cut + 1, text.len() as int),
            )
        } else {
            url_on(text)
        }
    }
}

proof fn lemma_first_newline(text: Seq<char>, i: int)
    requires
        0 <= i <= text.len(),
        forall|k: int| 0 <= k < i ==> text[k] != '\n',
        i < text.len() ==> text[i] == '\n',
    ensures
        first_index(text, '\n') == i,
    decreases i,
{
    if i > 0 {
        let t = text.drop_first();
        assert forall|k: int| 0 <= k < i - 1 implies t[k] != '\n' by {
            assert(t[k] == text[k + 1]);
        }
        lemma_first_newline(t, i - 1);
    }
}

/// Appends the URL on the line `chars[from..to]`, if it holds one.
fn push_url(out: &mut Vec<String>, chars: &Vec<char>, from: usize, to: usize)
    requires
        from <= to <= chars.len(),
    ensures
        views(final(out)@) == views(old(out)@) + url_on(chars@.subrange(from as int, to as int)),
{
    let ghost line = chars@.subrange(from as int, to as int);
    let ghost before = views(out@);
    let m = "URL=".unicode_len();
    if m <= to - from && range_equals(chars, from, from + m, "URL=") {
        let url = string_from(chars, from + m, to);
        out.push(url);
        proof {
            assert(line.subrange(0, m as int) =~= chars@.subrange(from as int, from + m));
            assert(line.subrange(m as int, line.len() as int) =~= chars@.subrange(
                from + m,
                to as int,
            ));
            assert(views(out@) =~= before + url_on(line));
        }
    } else {
        proof {
            if m <= to - from {
                assert(line.subrange(0, m as int) =~= chars@.subrange(from as int, from + m));
            }
            assert(views(out@) =~= before + url_on(line));
        }
    }
}

/// The URLs that the text of a bookmark file holds.
pub fn extract_urls(content: &str) -> (urls: Vec<String>)
    ensures
        views(urls@) == urls_in(content@),
{
    let chars = to_chars(content);
    let n = chars.len();
    let mut urls: Vec<String> = Vec::new();
    let mut start: usize = 0;
    let mut pos: usize = 0;
    proof {
        assert(chars@.subrange(0, n as int) =~= chars@);
        assert(views(urls@) =~= Seq::<Seq<char>>::empty());
    }
    while pos < n
        invariant
            n == chars.len(),
            start <= pos <= n,
            forall|k: int| start <= k < pos ==> chars@[k] != '\n',
            views(urls@) + urls_in(chars@.subrange(start as int, n as int)) == urls_in(chars@),
        decreases n - pos,
    {
        if chars[pos] == '\n' {
            let ghost rest = chars@.subrange(start as int, n as int);
            let ghost before = views(urls@);
            let end = if pos > start && chars[pos - 1] == '\r' {
                pos - 1
            } else {
                pos
            };
            proof {
                lemma_first_newline(rest, pos - start);
                let raw = rest.subrange(0, pos - start);
                assert(raw =~= chars@.subrange(start as int, pos as int));
                assert(line_text(raw, true) =~= chars@.subrange(start as int, end as int));
                assert(rest.subrange(pos - start + 1, rest.len() as int) =~= chars@.subrange(
                    pos + 1,
                    n as int,
                ));
            }
            push_url(&mut urls, &chars, start, end);
            proof {
                let line = chars@.subrange(start as int, end as int);
                let tail = urls_in(chars@.subrange(pos + 1, n as int));
                assert(urls_in(rest) == url_on(line) + tail);
                assert((before + url_on(line)) + tail =~= before + (url_on(line) + tail));
            }
            start = pos + 1;
        }
        pos += 1;
    }
    let ghost rest = chars@.subrange(start as int, n as int);
    let ghost before = views(urls@);
    proof {
        if rest.len() > 0 {
            lemma_first_newline(rest, rest.len() as int);
        } else {
            assert(url_on(rest) =~= Seq::<Seq<char>>::empty()) by {
                reveal_strlit("URL=");
            }
        }
        assert(urls_in(rest) == url_on(rest));
    }
    push_url(&mut urls, &chars, start, n);
    urls
}

} // verus!
