//! The errors of the library, and the text each is reported with.

use vstd::prelude::*;
use vstd::string::StringExecFns;

verus! {

/// A setting that an account needs and that is absent.
#[derive(Clone, Copy, Debug, PartialEq, Eq, Structural)]
pub enum MissingSetting {
    Server,
    Email,
    Password,
}

/// A field that a message needs and that is absent.
#[derive(Clone, Copy, Debug, PartialEq, Eq, Structural)]
pub enum MessageField {
    Filename,
    Text,
    Base64,
}

/// Why sealing or opening the password failed.
#[derive(Clone, Copy, Debug, PartialEq, Eq, Structural)]
pub enum CryptoFailure {
    /// The stored key is not 32 bytes long.
    InvalidKeyLength,
    /// The blob is too short to hold a nonce and a tag.
    InvalidCiphertext,
    /// The blob was not sealed with this key, or was altered since.
    AuthenticationFailed,
    /// The opened bytes are not valid UTF-8.
    InvalidEncoding,
    /// The password could not be sealed.
    SealFailed,
}

/// Why something could not be decoded.
#[derive(Debug)]
pub enum DecodeFailure {
    /// Malformed JSON; the text says what the parser found.
    Json(String),
    /// Malformed base64.
    Base64,
    /// A malformed settings record; the text says what the parser found.
    Config(String),
    /// A message without a field that its kind needs.
    MissingField(MessageField),
    /// A message whose content type is not known.
    UnknownContentType(String),
    /// A message whose kind is not known.
    UnknownMessageType(String),
    /// A broken message frame; the text says what was wrong.
    Framing(String),
}

/// Why the remote store could not serve a request.
#[derive(Debug)]
pub enum TransportFailure {
    /// No response was had; the text says why.
    Network(String),
    /// The remote store refused the credentials (status 401).
    Unauthorized,
    /// The remote store answered with this status, which is no success.
    Status(u16),
}

/// An error of the library.
#[derive(Debug)]
pub enum KayaError {
    /// Reading or writing local state failed; the text says how.
    Io(String),
    /// Input could not be decoded.
    Decode(DecodeFailure),
    /// The remote store could not be reached or refused.
    Transport(TransportFailure),
    /// The credential vault failed.
    Crypto(CryptoFailure),
    /// The account lacks a setting.
    ConfigIncomplete(MissingSetting),
}

/// The decimal digit for `d`.
pub open spec fn digit_char(d: nat) -> char {
    if d == 0 {
        '0'
    } else if d == 1 {
        '1'
    } else if d == 2 {
        '2'
    } else if d == 3 {
        '3'
    } else if d == 4 {
        '4'
    } else if d == 5 {
        '5'
    } else if d == 6 {
        '6'
    } else if d == 7 {
        '7'
    } else if d == 8 {
        '8'
    } else {
        '9'
    }
}

/// `n` in decimal, without leading zeros.
pub open spec fn decimal(n: nat) -> Seq<char>
    decreases n,
{
    if n < 10 {
        seq![digit_char(n)]
    } else {
        decimal(n / 10).push(digit_char(n % 10))
    }
}

/// The text that `e` is reported with.
pub open spec fn crypto_text(e: CryptoFailure) -> Seq<char> {
    match e {
        CryptoFailure::InvalidKeyLength => "Invalid key length"@,
        CryptoFailure::InvalidCiphertext => "Invalid encrypted data"@,
        CryptoFailure::AuthenticationFailed => "Failed to decrypt: Unspecified"@,
        CryptoFailure::InvalidEncoding => "Invalid UTF-8"@,
        CryptoFailure::SealFailed => "Failed to encrypt: Unspecified"@,
    }
}

/// The text that `e` is reported with.
pub open spec fn missing_setting_text(e: MissingSetting) -> Seq<char> {
    match e {
        MissingSetting::Server => "Missing server"@,
        MissingSetting::Email => "Missing email"@,
        MissingSetting::Password => "No password configured"@,
    }
}

/// The text that `e` is reported with.
pub open spec fn missing_field_text(e: MessageField) -> Seq<char> {
    match e {
        MessageField::Filename => "Missing filename"@,
        MessageField::Text => "Missing text content"@,
        MessageField::Base64 => "Missing base64 content"@,
    }
}

/// The text that `e` is reported with: the class of the error, a colon, and
/// what went wrong.
pub open spec fn error_text(e: &KayaError) -> Seq<char> {
    match e {
        KayaError::Io(detail) => "IO error: "@ + detail@,
        KayaError::Decode(DecodeFailure::Json(detail)) => "JSON error: "@ + detail@,
        KayaError::Decode(DecodeFailure::Base64) => "Base64 decode error"@,
        KayaError::Decode(DecodeFailure::Config(detail)) => "Config error: Invalid config: "@
            + detail@,
        KayaError::Decode(DecodeFailure::MissingField(field)) => "Config error: "@
            + missing_field_text(*field),
        KayaError::Decode(DecodeFailure::UnknownContentType(kind)) =>
            "Config error: Unknown content type: "@ + kind@,
        KayaError::Decode(DecodeFailure::UnknownMessageType(kind)) =>
            "Config error: Unknown message type: "@ + kind@,
        KayaError::Decode(DecodeFailure::Framing(detail)) => "Native messaging error: "@
            + detail@,
        KayaError::Transport(TransportFailure::Network(detail)) => "HTTP error: "@ + detail@,
        KayaError::Transport(TransportFailure::Unauthorized) =>
            "Config error: Authentication failed - check your email and password"@,
        KayaError::Transport(TransportFailure::Status(code)) =>
            "Config error: Server returned status "@ + decimal(*code as nat),
        KayaError::Crypto(failure) => "Encryption error: "@ + crypto_text(*failure),
        KayaError::ConfigIncomplete(setting) => "Config error: "@ + missing_setting_text(*setting),
    }
}

fn digit(d: u16) -> (c: char)
    requires
        d < 10,
    ensures
        c == digit_char(d as nat),
{
    if d == 0 {
        '0'
    } else if d == 1 {
        '1'
    } else if d == 2 {
        '2'
    } else if d == 3 {
        '3'
    } else if d == 4 {
        '4'
    } else if d == 5 {
        '5'
    } else if d == 6 {
        '6'
    } else if d == 7 {
        '7'
    } else if d == 8 {
        '8'
    } else {
        '9'
    }
}

/// Appends `n` in decimal to `out`.
fn push_decimal(out: &mut String, n: u16)
    ensures
        final(out)@ == old(out)@ + decimal(n as nat),
    decreases n,
{
    if n < 10 {
        out.push(digit(n));
        assert(old(out)@.push(digit_char(n as nat)) =~= old(out)@ + decimal(n as nat));
    } else {
        push_decimal(out, n / 10);
        out.push(digit(n % 10));
        assert((old(out)@ + decimal((n / 10) as nat)).push(digit_char((n % 10) as nat)) =~= old(
            out,
        )@ + decimal(n as nat));
    }
}

fn crypto_message(e: CryptoFailure) -> (text: &'static str)
    ensures
        text@ == crypto_text(e),
{
    match e {
        CryptoFailure::InvalidKeyLength => "Invalid key length",
        CryptoFailure::InvalidCiphertext => "Invalid encrypted data",
        CryptoFailure::AuthenticationFailed => "Failed to decrypt: Unspecified",
        CryptoFailure::InvalidEncoding => "Invalid UTF-8",
        CryptoFailure::SealFailed => "Failed to encrypt: Unspecified",
    }
}

fn missing_setting_message(e: MissingSetting) -> (text: &'static str)
    ensures
        text@ == missing_setting_text(e),
{
    match e {
        MissingSetting::Server => "Missing server",
        MissingSetting::Email => "Missing email",
        MissingSetting::Password => "No password configured",
    }
}

fn missing_field_message(e: MessageField) -> (text: &'static str)
    ensures
        text@ == missing_field_text(e),
{
    match e {
        MessageField::Filename => "Missing filename",
        MessageField::Text => "Missing text content",
        MessageField::Base64 => "Missing base64 content",
    }
}

/// `head` followed by `tail`.
fn append_text(head: &str, tail: &str) -> (out: String)
    ensures
        out@ == head@ + tail@,
{
    let mut out = String::from_str(head);
    out.append(tail);
    out
}

impl KayaError {
    /// The text that the error is reported with.
    pub fn message(&self) -> (text: String)
        ensures
            text@ == error_text(self),
    {
        match self {
            KayaError::Io(detail) => append_text("IO error: ", detail.as_str()),
            KayaError::Decode(DecodeFailure::Json(detail)) => append_text(
                "JSON error: ",
                detail.as_str(),
            ),
            KayaError::Decode(DecodeFailure::Base64) => String::from_str("Base64 decode error"),
            KayaError::Decode(DecodeFailure::Config(detail)) => append_text(
                "Config error: Invalid config: ",
                detail.as_str(),
            ),
            KayaError::Decode(DecodeFailure::MissingField(field)) => append_text(
                "Config error: ",
                missing_field_message(*field),
            ),
            KayaError::Decode(DecodeFailure::UnknownContentType(kind)) => append_text(
                "Config error: Unknown content type: ",
                kind.as_str(),
            ),
            KayaError::Decode(DecodeFailure::UnknownMessageType(kind)) => append_text(
                "Config error: Unknown message type: ",
                kind.as_str(),
            ),
            KayaError::Decode(DecodeFailure::Framing(detail)) => append_text(
                "Native messaging error: ",
                detail.as_str(),
            ),
            KayaError::Transport(TransportFailure::Network(detail)) => append_text(
                "HTTP error: ",
                detail.as_str(),
            ),
            KayaError::Transport(TransportFailure::Unauthorized) => String::from_str(
                "Config error: Authentication failed - check your email and password",
            ),
            KayaError::Transport(TransportFailure::Status(code)) => {
                let mut out = String::from_str("Config error: Server returned status ");
                push_decimal(&mut out, *code);
                out
            },
            KayaError::Crypto(failure) => append_text("Encryption error: ", crypto_message(*failure)),
            KayaError::ConfigIncomplete(setting) => append_text(
                "Config error: ",
                missing_setting_message(*setting),
            ),
        }
    }
}

} // verus!
