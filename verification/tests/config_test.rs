use savebutton_sync::config::{
    handle_config_status, merge_config, resolve_account, resolve_test_account, store_credentials,
    Config, ConfigUpdate,
};
use savebutton_sync::error::{CryptoFailure, DecodeFailure, KayaError, MissingSetting};
use savebutton_sync::native::{
    handle_config_message, handle_test_connection, IncomingMessage,
};
use savebutton_sync::remote::check_status;
use savebutton_sync::sync::sync_with_server;
use savebutton_sync::vault::{decode_key, decrypt_password};

fn message(kind: &str) -> IncomingMessage {
    IncomingMessage {
        id: Some(1),
        message: kind.to_string(),
        filename: None,
        content_type: None,
        text: None,
        base64: None,
        server: None,
        email: None,
        password: None,
    }
}

fn text(value: &str) -> Option<String> {
    Some(value.to_string())
}

#[test]
fn stored_credentials_hold_all_fields_and_open() {
    let config =
        store_credentials("https://h".to_string(), "a@b.c".to_string(), "secret").unwrap();
    assert_eq!(config.server, text("https://h"));
    assert_eq!(config.email, text("a@b.c"));
    assert!(handle_config_status(&config));
    let key = decode_key(config.encryption_key.as_ref().unwrap()).unwrap();
    let blob = config.encrypted_password.as_ref().unwrap();
    assert_eq!(decrypt_password(blob, &key).unwrap(), "secret");
    assert_ne!(blob, "secret");
    assert_eq!(config.unlock().unwrap().unwrap(), "secret");
}

#[test]
fn empty_settings_have_nothing() {
    let config = Config::new();
    assert!(config.server.is_none());
    assert!(config.email.is_none());
    assert!(!handle_config_status(&config));
    assert!(config.unlock().is_none());
    assert!(matches!(resolve_account(&config), Ok(None)));
    assert!(matches!(sync_with_server(&config), Ok(None)));
}

#[test]
fn incomplete_settings_make_sync_a_no_op() {
    let full = store_credentials("https://h".to_string(), "a@b.c".to_string(), "pw").unwrap();
    let no_server = Config {
        server: None,
        email: full.email.clone(),
        encrypted_password: full.encrypted_password.clone(),
        encryption_key: full.encryption_key.clone(),
    };
    let no_email = Config {
        server: full.server.clone(),
        email: None,
        encrypted_password: full.encrypted_password.clone(),
        encryption_key: full.encryption_key.clone(),
    };
    let no_key = Config {
        server: full.server.clone(),
        email: full.email.clone(),
        encrypted_password: full.encrypted_password.clone(),
        encryption_key: None,
    };
    let no_password = Config {
        server: full.server.clone(),
        email: full.email.clone(),
        encrypted_password: None,
        encryption_key: full.encryption_key.clone(),
    };
    assert!(matches!(resolve_account(&no_server), Ok(None)));
    assert!(matches!(resolve_account(&no_email), Ok(None)));
    assert!(matches!(resolve_account(&no_key), Ok(None)));
    assert!(matches!(resolve_account(&no_password), Ok(None)));
    let account = resolve_account(&full).unwrap().unwrap();
    assert_eq!(account.server, "https://h");
    assert_eq!(account.email, "a@b.c");
    assert_eq!(account.password, "pw");
}

#[test]
fn broken_vault_is_an_error_for_sync() {
    let full = store_credentials("https://h".to_string(), "a@b.c".to_string(), "pw").unwrap();
    let bad_key = Config {
        server: full.server.clone(),
        email: full.email.clone(),
        encrypted_password: full.encrypted_password.clone(),
        encryption_key: text("AAAA"),
    };
    assert!(matches!(
        resolve_account(&bad_key),
        Err(KayaError::Crypto(CryptoFailure::InvalidKeyLength))
    ));
    let bad_key_text = Config {
        server: full.server.clone(),
        email: full.email.clone(),
        encrypted_password: full.encrypted_password.clone(),
        encryption_key: text("***"),
    };
    assert!(matches!(
        resolve_account(&bad_key_text),
        Err(KayaError::Decode(DecodeFailure::Base64))
    ));
    let bad_blob = Config {
        server: full.server.clone(),
        email: full.email.clone(),
        encrypted_password: text("AAAA"),
        encryption_key: full.encryption_key.clone(),
    };
    assert!(matches!(
        resolve_account(&bad_blob),
        Err(KayaError::Crypto(CryptoFailure::InvalidCiphertext))
    ));
    assert!(matches!(
        sync_with_server(&bad_blob),
        Err(KayaError::Crypto(CryptoFailure::InvalidCiphertext))
    ));
}

#[test]
fn merging_keeps_what_the_update_lacks() {
    let existing = store_credentials("https://old".to_string(), "old@b.c".to_string(), "pw")
        .unwrap();
    let update = ConfigUpdate { server: text("https://new"), email: None, password: None };
    let merged = merge_config(&update, &existing).unwrap();
    assert_eq!(merged.server, text("https://new"));
    assert_eq!(merged.email, text("old@b.c"));
    assert_eq!(merged.encrypted_password, existing.encrypted_password);
    assert_eq!(merged.encryption_key, existing.encryption_key);

    let update = ConfigUpdate { server: None, email: text("new@b.c"), password: text("next") };
    let merged = merge_config(&update, &existing).unwrap();
    assert_eq!(merged.server, text("https://old"));
    assert_eq!(merged.email, text("new@b.c"));
    assert_ne!(merged.encrypted_password, existing.encrypted_password);
    assert_ne!(merged.encryption_key, existing.encryption_key);
    assert_eq!(merged.unlock().unwrap().unwrap(), "next");
}

#[test]
fn connection_test_reports_what_is_missing() {
    let empty = Config::new();
    let none = ConfigUpdate { server: None, email: None, password: None };
    assert!(matches!(
        resolve_test_account(&none, &empty),
        Err(KayaError::ConfigIncomplete(MissingSetting::Server))
    ));
    let server = ConfigUpdate { server: text("https://h"), email: None, password: None };
    assert!(matches!(
        resolve_test_account(&server, &empty),
        Err(KayaError::ConfigIncomplete(MissingSetting::Email))
    ));
    let both = ConfigUpdate { server: text("https://h"), email: text("a@b.c"), password: None };
    assert!(matches!(
        resolve_test_account(&both, &empty),
        Err(KayaError::ConfigIncomplete(MissingSetting::Password))
    ));
    let all = ConfigUpdate {
        server: text("https://h"),
        email: text("a@b.c"),
        password: text("pw"),
    };
    let account = resolve_test_account(&all, &empty).unwrap();
    assert_eq!(account.server, "https://h");
    assert_eq!(account.email, "a@b.c");
    assert_eq!(account.password, "pw");
}

#[test]
fn connection_test_prefers_the_request_over_the_settings() {
    let stored = store_credentials("https://old".to_string(), "old@b.c".to_string(), "stored")
        .unwrap();
    let update = ConfigUpdate { server: text("https://new"), email: None, password: None };
    let account = resolve_test_account(&update, &stored).unwrap();
    assert_eq!(account.server, "https://new");
    assert_eq!(account.email, "old@b.c");
    assert_eq!(account.password, "stored");
    let update = ConfigUpdate { server: None, email: None, password: text("typed") };
    let account = resolve_test_account(&update, &stored).unwrap();
    assert_eq!(account.password, "typed");
}

#[test]
fn config_message_round_trips_to_a_connection_test() {
    let mut config_msg = message("config");
    config_msg.server = text("https://stub.example/");
    config_msg.email = text("me@example.org");
    config_msg.password = text("secret");
    let stored = handle_config_message(&config_msg, &Config::new()).unwrap();
    assert!(handle_config_status(&stored));

    let probe = message("test_connection");
    let (account, url) = handle_test_connection(&probe, &stored).unwrap();
    assert_eq!(account.password, "secret");
    assert_eq!(account.email, "me@example.org");
    assert_eq!(url, "https://stub.example/api/v1/me%40example.org/anga");
    assert!(check_status(200).is_ok());

    let start = sync_with_server(&stored).unwrap().unwrap();
    assert_eq!(start.account.password, "secret");
}
