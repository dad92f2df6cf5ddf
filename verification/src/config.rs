//! The account settings: the server, the email, and the password in its
//! sealed form together with the key that opens it.

use crate::error::{CryptoFailure, DecodeFailure, KayaError, MissingSetting};
use crate::vault::{
    always_seals, base64_decode, decode_key, decoded_key, decrypt_password, decrypted,
    encode_key, encrypt_password, generate_encryption_key, KEY_LEN,
};
use vstd::prelude::*;
use vstd::utf8::encode_utf8;

verus! {

/// The settings as they are stored. Every field may be absent; the sealed
/// password and its key are written together.
#[derive(Debug)]
pub struct Config {
    pub server: Option<String>,
    pub email: Option<String>,
    pub encrypted_password: Option<String>,
    pub encryption_key: Option<String>,
}

/// New settings as a front-end receives them. An absent field leaves the
/// stored one as it is.
pub struct ConfigUpdate {
    pub server: Option<String>,
    pub email: Option<String>,
    pub password: Option<String>,
}

/// What is needed to talk to the remote store. The password is in the clear
/// and is meant to live no longer than the requests it is used for.
pub struct Account {
    pub server: String,
    pub email: String,
    pub password: String,
}

/// An optional text by its view.
pub open spec fn text_of(value: &Option<String>) -> Option<Seq<char>> {
    match value {
        Some(text) => Some(text@),
        None => None,
    }
}

/// The first of two optional texts that is present.
pub open spec fn first_present(first: &Option<String>, second: &Option<String>) -> Option<
    Seq<char>,
> {
    if first is Some {
        text_of(first)
    } else {
        text_of(second)
    }
}

impl Config {
    /// The sealed password and its key are both present or both absent.
    pub open spec fn well_formed(&self) -> bool {
        self.encrypted_password is Some <==> self.encryption_key is Some
    }

    /// What the stored password opens to: nothing where the sealed password or
    /// its key is absent, else the password or the reason why the vault does
    /// not yield it.
    pub open spec fn stored_password(&self) -> Option<Result<Seq<char>, KayaError>> {
        match (self.encrypted_password, self.encryption_key) {
            (Some(blob), Some(key_text)) => Some(
                match decoded_key(key_text@) {
                    Ok(key) => decrypted(blob@, key),
                    Err(e) => Err(e),
                },
            ),
            _ => None,
        }
    }

    /// Settings with nothing in them.
    pub fn new() -> (config: Config)
        ensures
            config.server is None,
            config.email is None,
            config.encrypted_password is None,
            config.encryption_key is None,
            config.well_formed(),
    {
        Config { server: None, email: None, encrypted_password: None, encryption_key: None }
    }

    /// Opens the stored password; `None` where none is stored.
    pub fn unlock(&self) -> (r: Option<Result<String, KayaError>>)
        ensures
            match self.stored_password() {
                None => r is None,
                Some(Ok(password)) => r matches Some(Ok(p)) && p@ == password,
                Some(Err(e)) => r matches Some(Err(f)) && f == e,
            },
    {
        match (&self.encrypted_password, &self.encryption_key) {
            (Some(blob), Some(key_text)) => {
                match decode_key(key_text.as_str()) {
                    Ok(key) => Some(decrypt_password(blob.as_str(), &key)),
                    Err(e) => Some(Err(e)),
                }
            },
            _ => None,
        }
    }
}

/// A copy of an optional text.
pub fn copy_text(value: &Option<String>) -> (copy: Option<String>)
    ensures
        text_of(&copy) == text_of(value),
{
    match value {
        Some(text) => Some(text.clone()),
        None => None,
    }
}

/// The first of two optional texts that is present.
pub fn first_of(first: &Option<String>, second: &Option<String>) -> (r: Option<String>)
    ensures
        text_of(&r) == first_present(first, second),
{
    match first {
        Some(text) => Some(text.clone()),
        None => copy_text(second),
    }
}

/// Whether a password is stored.
pub fn handle_config_status(config: &Config) -> (has_password: bool)
    ensures
        has_password == (config.encrypted_password is Some),
{
    config.encrypted_password.is_some()
}

/// The settings that replace the stored ones when an account is configured
/// anew: the password is sealed under a new random key.
///
/// The result holds all four fields, and its stored password opens to
/// `password`. The settings are had wherever the cipher seals the password
/// whatever key and nonce are drawn.
pub fn store_credentials(server: String, email: String, password: &str) -> (r: Result<
    Config,
    KayaError,
>)
    ensures
        match r {
            Ok(config) => {
                &&& text_of(&config.server) == Some(server@)
                &&& text_of(&config.email) == Some(email@)
                &&& config.well_formed()
                &&& config.stored_password() == Some(Ok::<Seq<char>, KayaError>(password@))
            },
            Err(e) => e == KayaError::Crypto(CryptoFailure::SealFailed),
        },
        always_seals(password@) ==> r is Ok,
{
    let key = generate_encryption_key();
    let blob = match encrypt_password(password, &key) {
        Ok(blob) => blob,
        Err(e) => {
            return Err(e);
        },
    };
    let key_text = encode_key(&key);
    Ok(
        Config {
            server: Some(server),
            email: Some(email),
            encrypted_password: Some(blob),
            encryption_key: Some(key_text),
        },
    )
}

/// The settings that replace `existing` when `update` arrives. A server or an
/// email that the update lacks is kept. A password in the update is sealed
/// under a new random key; without one, the sealed password and its key are
/// kept as they are. The settings are had wherever the update holds no
/// password, and wherever the cipher seals its password whatever key and nonce
/// are drawn.
pub fn merge_config(update: &ConfigUpdate, existing: &Config) -> (r: Result<Config, KayaError>)
    ensures
        match r {
            Ok(config) => {
                &&& text_of(&config.server) == first_present(&update.server, &existing.server)
                &&& text_of(&config.email) == first_present(&update.email, &existing.email)
                &&& match update.password {
                    Some(password) => {
                        &&& config.well_formed()
                        &&& config.encrypted_password is Some
                        &&& config.stored_password() == Some(
                            Ok::<Seq<char>, KayaError>(password@),
                        )
                    },
                    None => {
                        &&& text_of(&config.encrypted_password) == text_of(
                            &existing.encrypted_password,
                        )
                        &&& text_of(&config.encryption_key) == text_of(&existing.encryption_key)
                        &&& existing.well_formed() ==> config.well_formed()
                    },
                }
            },
            Err(e) => update.password is Some && e == KayaError::Crypto(CryptoFailure::SealFailed),
        },
        update.password is None ==> r is Ok,
        update.password matches Some(password) && always_seals(password@) ==> r is Ok,
{
    let server = first_of(&update.server, &existing.server);
    let email = first_of(&update.email, &existing.email);
    match &update.password {
        Some(password) => {
            let key = generate_encryption_key();
            let blob = match encrypt_password(password.as_str(), &key) {
                Ok(blob) => blob,
                Err(e) => {
                    return Err(e);
                },
            };
            let key_text = encode_key(&key);
            Ok(
                Config {
                    server,
                    email,
                    encrypted_password: Some(blob),
                    encryption_key: Some(key_text),
                },
            )
        },
        None => Ok(
            Config {
                server,
                email,
                encrypted_password: copy_text(&existing.encrypted_password),
                encryption_key: copy_text(&existing.encryption_key),
            },
        ),
    }
}

/// What a sync pass is given: nothing where the settings lack the server, the
/// email, the sealed password or its key; the failure of the vault where the
/// stored password does not open; else the account.
pub open spec fn sync_account(config: &Config) -> Result<
    Option<(Seq<char>, Seq<char>, Seq<char>)>,
    KayaError,
> {
    if config.server is None || config.email is None {
        Ok(None)
    } else {
        match config.stored_password() {
            None => Ok(None),
            Some(Ok(password)) => Ok(Some((config.server->0@, config.email->0@, password))),
            Some(Err(e)) => Err(e),
        }
    }
}

/// `account` holds these three texts.
pub open spec fn account_is(account: &Account, texts: (Seq<char>, Seq<char>, Seq<char>)) -> bool {
    account.server@ == texts.0 && account.email@ == texts.1 && account.password@ == texts.2
}

/// Reads from the settings what a sync pass needs. Incomplete settings are no
/// error: there is then nothing to do.
pub fn resolve_account(config: &Config) -> (r: Result<Option<Account>, KayaError>)
    ensures
        match sync_account(config) {
            Ok(None) => r matches Ok(None),
            Ok(Some(texts)) => r matches Ok(Some(account)) && account_is(&account, texts),
            Err(e) => r matches Err(f) && f == e,
        },
{
    let server = match &config.server {
        Some(server) => server.clone(),
        None => {
            return Ok(None);
        },
    };
    let email = match &config.email {
        Some(email) => email.clone(),
        None => {
            return Ok(None);
        },
    };
    match config.unlock() {
        None => Ok(None),
        Some(Ok(password)) => Ok(Some(Account { server, email, password })),
        Some(Err(e)) => Err(e),
    }
}

/// What a connection test is given. The server and the email come from the
/// request, or else from the settings; so does the password, which the
/// settings hold sealed. What is missing is reported in this order: server,
/// email, password.
pub open spec fn test_account(update: &ConfigUpdate, config: &Config) -> Result<
    (Seq<char>, Seq<char>, Seq<char>),
    KayaError,
> {
    match (
        first_present(&update.server, &config.server),
        first_present(&update.email, &config.email),
    ) {
        (None, _) => Err(KayaError::ConfigIncomplete(MissingSetting::Server)),
        (Some(_), None) => Err(KayaError::ConfigIncomplete(MissingSetting::Email)),
        (Some(server), Some(email)) => match update.password {
            Some(password) => Ok((server, email, password@)),
            None => match config.stored_password() {
                None => Err(KayaError::ConfigIncomplete(MissingSetting::Password)),
                Some(Ok(password)) => Ok((server, email, password)),
                Some(Err(e)) => Err(e),
            },
        },
    }
}

/// Reads from a request and the settings what a connection test needs.
pub fn resolve_test_account(update: &ConfigUpdate, config: &Config) -> (r: Result<
    Account,
    KayaError,
>)
    ensures
        match test_account(update, config) {
            Ok(texts) => r matches Ok(account) && account_is(&account, texts),
            Err(e) => r matches Err(f) && f == e,
        },
{
    let server = match first_of(&update.server, &config.server) {
        Some(server) => server,
        None => {
            return Err(KayaError::ConfigIncomplete(MissingSetting::Server));
        },
    };
    let email = match first_of(&update.email, &config.email) {
        Some(email) => email,
        None => {
            return Err(KayaError::ConfigIncomplete(MissingSetting::Email));
        },
    };
    let password = match &update.password {
        Some(password) => password.clone(),
        None => match config.unlock() {
            None => {
                return Err(KayaError::ConfigIncomplete(MissingSetting::Password));
            },
            Some(Ok(password)) => password,
            Some(Err(e)) => {
                return Err(e);
            },
        },
    };
    Ok(Account { server, email, password })
}

/// A password that was stored can be used: once an update with a password
/// has been merged into any settings, the settings report a password, and
/// both a sync pass and a connection test that name a server and an email get
/// exactly that password.
pub proof fn lemma_stored_password_is_used(config: Config, probe: ConfigUpdate, password: Seq<char>)
    requires
        config.stored_password() == Some(Ok::<Seq<char>, KayaError>(password)),
        config.server is Some,
        config.email is Some,
        probe.password is None,
    ensures
        config.encrypted_password is Some,
        sync_account(&config) matches Ok(Some(texts)) && texts.2 == password,
        test_account(&probe, &config) matches Ok(texts) && texts.2 == password,
{
}

} // verus!
