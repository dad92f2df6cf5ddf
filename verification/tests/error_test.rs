use savebutton_sync::error::{
    CryptoFailure, DecodeFailure, KayaError, MessageField, MissingSetting,
    TransportFailure,
};

#[test]
fn error_messages() {
    let cases: Vec<(KayaError, &str)> = vec![
        (KayaError::Io("disk full".to_string()), "IO error: disk full"),
        (
            KayaError::Decode(DecodeFailure::Json("eof".to_string())),
            "JSON error: eof",
        ),
        (KayaError::Decode(DecodeFailure::Base64), "Base64 decode error"),
        (
            KayaError::Decode(DecodeFailure::Config("bad key".to_string())),
            "Config error: Invalid config: bad key",
        ),
        (
            KayaError::Decode(DecodeFailure::MissingField(MessageField::Filename)),
            "Config error: Missing filename",
        ),
        (
            KayaError::Decode(DecodeFailure::MissingField(MessageField::Text)),
            "Config error: Missing text content",
        ),
        (
            KayaError::Decode(DecodeFailure::MissingField(MessageField::Base64)),
            "Config error: Missing base64 content",
        ),
        (
            KayaError::Decode(DecodeFailure::UnknownContentType("x".to_string())),
            "Config error: Unknown content type: x",
        ),
        (
            KayaError::Decode(DecodeFailure::UnknownMessageType("y".to_string())),
            "Config error: Unknown message type: y",
        ),
        (
            KayaError::Decode(DecodeFailure::Framing("short".to_string())),
            "Native messaging error: short",
        ),
        (
            KayaError::Transport(TransportFailure::Network("refused".to_string())),
            "HTTP error: refused",
        ),
        (
            KayaError::Transport(TransportFailure::Unauthorized),
            "Config error: Authentication failed - check your email and password",
        ),
        (
            KayaError::Transport(TransportFailure::Status(503)),
            "Config error: Server returned status 503",
        ),
        (
            KayaError::Crypto(CryptoFailure::InvalidKeyLength),
            "Encryption error: Invalid key length",
        ),
        (
            KayaError::Crypto(CryptoFailure::InvalidCiphertext),
            "Encryption error: Invalid encrypted data",
        ),
        (
            KayaError::Crypto(CryptoFailure::AuthenticationFailed),
            "Encryption error: Failed to decrypt: Unspecified",
        ),
        (
            KayaError::Crypto(CryptoFailure::InvalidEncoding),
            "Encryption error: Invalid UTF-8",
        ),
        (
            KayaError::Crypto(CryptoFailure::SealFailed),
            "Encryption error: Failed to encrypt: Unspecified",
        ),
        (
            KayaError::ConfigIncomplete(MissingSetting::Server),
            "Config error: Missing server",
        ),
        (
            KayaError::ConfigIncomplete(MissingSetting::Email),
            "Config error: Missing email",
        ),
        (
            KayaError::ConfigIncomplete(MissingSetting::Password),
            "Config error: No password configured",
        ),
    ];
    for (error, expected) in cases {
        assert_eq!(error.message(), expected);
    }
}

#[test]
fn status_codes_are_written_in_decimal() {
    for (code, text) in [(0u16, "0"), (7, "7"), (10, "10"), (404, "404"), (65535, "65535")] {
        assert_eq!(
            KayaError::Transport(TransportFailure::Status(code)).message(),
            format!("Config error: Server returned status {}", text)
        );
    }
}
