//! The credential vault: the account password is sealed with AES-256-GCM
//! under a random key and a fresh random nonce, and stored as base64 text.
//!
//! A blob is the base64 form of the 12 bytes of the nonce followed by the
//! ciphertext and its 16-byte tag. The cipher and the base64 codec are those
//! of the `ring` and `base64` crates; what this module relies on is stated in
//! the contracts of the private functions that call them.

use crate::error::{CryptoFailure, DecodeFailure, KayaError};
use vstd::prelude::*;
use vstd::slice::slice_subrange;
use vstd::string::StringSliceAdditionalSpecFns;
use vstd::utf8::{
    decode_utf8, encode_utf8, encode_utf8_decode_utf8, encode_utf8_valid_utf8, valid_utf8,
};

verus! {

/// The length of a key in bytes.
pub const KEY_LEN: usize = 32;

/// The length of a nonce in bytes.
pub const NONCE_LEN: usize = 12;

/// The length of an authentication tag in bytes.
pub const TAG_LEN: usize = 16;

/// The ciphertext and tag that AES-256-GCM gives for a plaintext under a key
/// and a nonce, with no associated data; nothing where it refuses the input.
pub uninterp spec fn aead_seal(key: Seq<u8>, nonce: Seq<u8>, plaintext: Seq<u8>) -> Option<Seq<u8>>;

/// The plaintext that AES-256-GCM recovers from a ciphertext and tag under a
/// key and a nonce, with no associated data; nothing where the tag is not the
/// one that belongs to them.
pub uninterp spec fn aead_open(key: Seq<u8>, nonce: Seq<u8>, sealed: Seq<u8>) -> Option<Seq<u8>>;

/// The standard base64 form of a byte string, with padding.
pub uninterp spec fn base64_encode(bytes: Seq<u8>) -> Seq<char>;

/// The byte string that a standard base64 text stands for; nothing where the
/// text is malformed.
pub uninterp spec fn base64_decode(text: Seq<char>) -> Option<Seq<u8>>;

/// `ring::error::Unspecified`, the error of `ring` that says nothing of its
/// cause. The functions that get one answer with an error of the library.
#[verifier::external_type_specification]
#[verifier::external_body]
pub struct ExUnspecified(ring::error::Unspecified);

/// `base64::DecodeError`, which says where a text stops being base64. The
/// functions that get one answer with an error of the library, which keeps
/// that the text is no base64 and not where it stops being so.
#[verifier::external_type_specification]
#[verifier::external_body]
pub struct ExDecodeError(base64::DecodeError);

/// `N` bytes from `rand::thread_rng`, by `RngCore::fill_bytes`. Nothing is
/// known of them. The call panics where the operating system gives the
/// generator no seed.
#[verifier::external_body]
fn random_bytes<const N: usize>() -> (out: [u8; N]) {
    let mut out = [0u8; N];
    rand::RngCore::fill_bytes(&mut rand::thread_rng(), &mut out);
    out
}

/// `LessSafeKey::seal_in_place_append_tag` of `ring`, for AES-256-GCM with no
/// associated data. On success the result is the ciphertext, as long as the
/// plaintext, followed by the tag; opening it under the same key and nonce
/// gives the plaintext back.
#[verifier::external_body]
fn seal(key: &[u8; KEY_LEN], nonce: &[u8; NONCE_LEN], plaintext: &[u8]) -> (out: Result<
    Vec<u8>,
    ring::error::Unspecified,
>)
    ensures
        match out {
            Ok(sealed) => {
                &&& aead_seal(key@, nonce@, plaintext@) == Some(sealed@)
                &&& sealed@.len() == plaintext@.len() + TAG_LEN
                &&& aead_open(key@, nonce@, sealed@) == Some(plaintext@)
            },
            Err(_) => aead_seal(key@, nonce@, plaintext@) is None,
        },
{
    let unbound = ring::aead::UnboundKey::new(&ring::aead::AES_256_GCM, key)?;
    let mut in_out = plaintext.to_vec();
    ring::aead::LessSafeKey::new(unbound).seal_in_place_append_tag(
        ring::aead::Nonce::assume_unique_for_key(*nonce),
        ring::aead::Aad::empty(),
        &mut in_out,
    )?;
    Ok(in_out)
}

/// `LessSafeKey::open_in_place` of `ring`, for AES-256-GCM with no associated
/// data: the plaintext where the tag at the end of `sealed` is authentic, and
/// an error where it is not or `sealed` is too short to hold one.
#[verifier::external_body]
fn open(key: &[u8; KEY_LEN], nonce: &[u8; NONCE_LEN], sealed: &[u8]) -> (out: Result<
    Vec<u8>,
    ring::error::Unspecified,
>)
    ensures
        match out {
            Ok(plaintext) => aead_open(key@, nonce@, sealed@) == Some(plaintext@),
            Err(_) => aead_open(key@, nonce@, sealed@) is None,
        },
{
    let unbound = ring::aead::UnboundKey::new(&ring::aead::AES_256_GCM, key)?;
    let mut in_out = sealed.to_vec();
    let plaintext = ring::aead::LessSafeKey::new(unbound).open_in_place(
        ring::aead::Nonce::assume_unique_for_key(*nonce),
        ring::aead::Aad::empty(),
        &mut in_out,
    )?;
    Ok(plaintext.to_vec())
}

/// `Engine::encode` of `base64`, with the standard alphabet and padding.
/// Decoding the result gives the bytes back. The call panics where the result
/// would be longer than a vector can be, which `requires` excludes.
#[verifier::external_body]
pub(crate) fn encode_base64(bytes: &[u8]) -> (text: String)
    requires
        bytes@.len() / 3 * 4 + 4 <= usize::MAX / 2,
    ensures
        text@ == base64_encode(bytes@),
        base64_decode(text@) == Some(bytes@),
{
    base64::Engine::encode(&base64::engine::general_purpose::STANDARD, bytes)
}

/// `Engine::decode` of `base64`, with the standard alphabet and padding: the
/// bytes that the text stands for, or an error where it is malformed.
#[verifier::external_body]
pub(crate) fn decode_base64(text: &str) -> (out: Result<Vec<u8>, base64::DecodeError>)
    ensures
        match out {
            Ok(bytes) => base64_decode(text@) == Some(bytes@),
            Err(_) => base64_decode(text@) is None,
        },
{
    base64::Engine::decode(&base64::engine::general_purpose::STANDARD, text)
}

/// `String::from_utf8`: the text that the bytes encode, where they are valid
/// UTF-8.
#[verifier::external_body]
fn text_from_utf8(bytes: Vec<u8>) -> (out: Option<String>)
    ensures
        match out {
            Some(text) => valid_utf8(bytes@) && text@ == decode_utf8(bytes@),
            None => !valid_utf8(bytes@),
        },
{
    String::from_utf8(bytes).ok()
}

/// The longest password, in bytes of UTF-8, that is sealed: with its nonce
/// and tag it must leave room for its base64 form.
pub open spec fn max_password_len() -> int {
    usize::MAX / 4 - NONCE_LEN - TAG_LEN
}

/// The cipher seals `password` under `key` whatever nonce is drawn: the
/// password is not too long, and no nonce makes the cipher refuse.
pub open spec fn seals_under(password: Seq<char>, key: Seq<u8>) -> bool {
    &&& encode_utf8(password).len() <= max_password_len()
    &&& forall|nonce: Seq<u8>|
        nonce.len() == NONCE_LEN ==> (#[trigger] aead_seal(key, nonce, encode_utf8(password)))
            is Some
}

/// The cipher seals `password` whatever key and nonce are drawn.
pub open spec fn always_seals(password: Seq<char>) -> bool {
    forall|key: Seq<u8>| key.len() == KEY_LEN ==> #[trigger] seals_under(password, key)
}

/// `blob` is the password sealed under `key` with `nonce`: it is the base64
/// form of the nonce and the sealed UTF-8 bytes of the password, and both the
/// codec and the cipher give back what they were given.
pub open spec fn is_sealed_password(
    blob: Seq<char>,
    password: Seq<char>,
    key: Seq<u8>,
    nonce: Seq<u8>,
) -> bool {
    &&& nonce.len() == NONCE_LEN
    &&& aead_seal(key, nonce, encode_utf8(password)) matches Some(sealed)
    &&& sealed.len() == encode_utf8(password).len() + TAG_LEN
    &&& aead_open(key, nonce, sealed) == Some(encode_utf8(password))
    &&& blob == base64_encode(nonce + sealed)
    &&& base64_decode(blob) == Some(nonce + sealed)
}

/// `blob` is the password sealed under `key` with some nonce.
pub open spec fn is_encryption_of(blob: Seq<char>, password: Seq<char>, key: Seq<u8>) -> bool {
    exists|nonce: Seq<u8>| is_sealed_password(blob, password, key, nonce)
}

/// What opening `blob` under `key` gives: the password, or the reason why
/// there is none.
pub open spec fn decrypted(blob: Seq<char>, key: Seq<u8>) -> Result<Seq<char>, KayaError> {
    match base64_decode(blob) {
        None => Err(KayaError::Decode(DecodeFailure::Base64)),
        Some(data) => if data.len() < NONCE_LEN + TAG_LEN {
            Err(KayaError::Crypto(CryptoFailure::InvalidCiphertext))
        } else {
            match aead_open(
                key,
                data.subrange(0, NONCE_LEN as int),
                data.subrange(NONCE_LEN as int, data.len() as int),
            ) {
                None => Err(KayaError::Crypto(CryptoFailure::AuthenticationFailed)),
                Some(plaintext) => if valid_utf8(plaintext) {
                    Ok(decode_utf8(plaintext))
                } else {
                    Err(KayaError::Crypto(CryptoFailure::InvalidEncoding))
                },
            }
        },
    }
}

/// `result` is `expected`, with the text of a success taken by its view.
pub open spec fn text_result_is(
    result: &Result<String, KayaError>,
    expected: Result<Seq<char>, KayaError>,
) -> bool {
    match expected {
        Ok(text) => result matches Ok(t) && t@ == text,
        Err(e) => result matches Err(f) && *f == e,
    }
}

/// The base64 form of a key, as it is stored.
pub fn encode_key(key: &[u8; KEY_LEN]) -> (text: String)
    ensures
        text@ == base64_encode(key@),
        base64_decode(text@) == Some(key@),
{
    encode_base64(key.as_slice())
}

/// What a stored key text stands for: the key, `Base64` where the text is no
/// base64, `InvalidKeyLength` where it does not stand for 32 bytes.
pub open spec fn decoded_key(text: Seq<char>) -> Result<Seq<u8>, KayaError> {
    match base64_decode(text) {
        None => Err(KayaError::Decode(DecodeFailure::Base64)),
        Some(bytes) => if bytes.len() == KEY_LEN {
            Ok(bytes)
        } else {
            Err(KayaError::Crypto(CryptoFailure::InvalidKeyLength))
        },
    }
}

/// Reads a key from its stored form.
pub fn decode_key(text: &str) -> (r: Result<[u8; KEY_LEN], KayaError>)
    ensures
        match decoded_key(text@) {
            Ok(bytes) => r matches Ok(key) && key@ == bytes,
            Err(e) => r matches Err(f) && f == e,
        },
{
    let bytes = match decode_base64(text) {
        Ok(bytes) => bytes,
        Err(_) => {
            return Err(KayaError::Decode(DecodeFailure::Base64));
        },
    };
    if bytes.len() != KEY_LEN {
        return Err(KayaError::Crypto(CryptoFailure::InvalidKeyLength));
    }
    let mut key: [u8; KEY_LEN] = [0u8; KEY_LEN];
    let mut i: usize = 0;
    while i < KEY_LEN
        invariant
            i <= KEY_LEN == bytes.len(),
            forall|k: int| 0 <= k < i ==> key@[k] == bytes@[k],
        decreases KEY_LEN - i,
    {
        key[i] = bytes[i];
        i += 1;
    }
    assert(key@ =~= bytes@);
    Ok(key)
}

/// A new random key.
pub fn generate_encryption_key() -> (key: [u8; KEY_LEN])
    ensures
        key@.len() == KEY_LEN,
{
    random_bytes()
}

/// The blob for a nonce and what sealing under it gave.
pub fn assemble_blob(nonce: &[u8; NONCE_LEN], sealed: &Vec<u8>) -> (blob: String)
    requires
        sealed@.len() <= usize::MAX / 4 - NONCE_LEN,
    ensures
        blob@ == base64_encode(nonce@ + sealed@),
        base64_decode(blob@) == Some(nonce@ + sealed@),
{
    let mut data: Vec<u8> = Vec::new();
    data.extend_from_slice(nonce.as_slice());
    data.extend_from_slice(sealed.as_slice());
    assert(data@ =~= nonce@ + sealed@);
    encode_base64(data.as_slice())
}

/// Seals `password` under `key` with `nonce`.
///
/// The result is an error where the password is longer than
/// `max_password_len()` bytes or the cipher refuses it. A nonce must never be
/// used twice with one key: `encrypt_password` draws a fresh one.
pub fn encrypt_with_nonce(password: &str, key: &[u8; KEY_LEN], nonce: &[u8; NONCE_LEN]) -> (r:
    Result<String, KayaError>)
    ensures
        match r {
            Ok(blob) => is_sealed_password(blob@, password@, key@, nonce@),
            Err(e) => e == KayaError::Crypto(CryptoFailure::SealFailed),
        },
        r is Ok <==> encode_utf8(password@).len() <= max_password_len() && aead_seal(
            key@,
            nonce@,
            encode_utf8(password@),
        ) is Some,
{
    let plaintext = password.as_bytes();
    if plaintext.len() > usize::MAX / 4 - NONCE_LEN - TAG_LEN {
        return Err(KayaError::Crypto(CryptoFailure::SealFailed));
    }
    match seal(key, nonce, plaintext) {
        Ok(sealed) => Ok(assemble_blob(nonce, &sealed)),
        Err(_) => Err(KayaError::Crypto(CryptoFailure::SealFailed)),
    }
}

/// Seals `password` under `key` with a fresh random nonce.
///
/// Sealing succeeds where the cipher seals the password under the key
/// whatever nonce is drawn, and fails where the password is too long. Whatever
/// nonce is drawn, the blob that comes back opens to the password under the
/// same key.
pub fn encrypt_password(password: &str, key: &[u8; KEY_LEN]) -> (r: Result<String, KayaError>)
    ensures
        match r {
            Ok(blob) => is_encryption_of(blob@, password@, key@) && decrypted(blob@, key@) == Ok::<
                Seq<char>,
                KayaError,
            >(password@),
            Err(e) => e == KayaError::Crypto(CryptoFailure::SealFailed),
        },
        seals_under(password@, key@) ==> r is Ok,
        encode_utf8(password@).len() > max_password_len() ==> r is Err,
{
    let nonce: [u8; NONCE_LEN] = random_bytes();
    let r = encrypt_with_nonce(password, key, &nonce);
    proof {
        if r is Ok {
            assert(is_sealed_password(r->Ok_0@, password@, key@, nonce@));
            lemma_decrypt_inverts_encrypt(r->Ok_0@, password@, key@);
        }
    }
    r
}

/// Opens `encrypted` under `key`.
///
/// The text must be base64 (`Base64` otherwise) of at least a nonce and a tag
/// (`InvalidCiphertext`), the tag must be authentic (`AuthenticationFailed`),
/// and the plaintext must be UTF-8 (`InvalidEncoding`).
pub fn decrypt_password(encrypted: &str, key: &[u8; KEY_LEN]) -> (r: Result<String, KayaError>)
    ensures
        text_result_is(&r, decrypted(encrypted@, key@)),
{
    let data = match decode_base64(encrypted) {
        Ok(data) => data,
        Err(_) => {
            return Err(KayaError::Decode(DecodeFailure::Base64));
        },
    };
    if data.len() < NONCE_LEN + TAG_LEN {
        return Err(KayaError::Crypto(CryptoFailure::InvalidCiphertext));
    }
    let mut nonce: [u8; NONCE_LEN] = [0u8; NONCE_LEN];
    let mut i: usize = 0;
    while i < NONCE_LEN
        invariant
            i <= NONCE_LEN <= data.len(),
            forall|k: int| 0 <= k < i ==> nonce@[k] == data@[k],
        decreases NONCE_LEN - i,
    {
        nonce[i] = data[i];
        i += 1;
    }
    assert(nonce@ =~= data@.subrange(0, NONCE_LEN as int));
    let sealed = slice_subrange(data.as_slice(), NONCE_LEN, data.len());
    match open(key, &nonce, sealed) {
        Ok(plaintext) => match text_from_utf8(plaintext) {
            Some(password) => Ok(password),
            None => Err(KayaError::Crypto(CryptoFailure::InvalidEncoding)),
        },
        Err(_) => Err(KayaError::Crypto(CryptoFailure::AuthenticationFailed)),
    }
}

/// Opening what was sealed gives the password back: for every password, key
/// and blob, if the blob is the password sealed under the key, then opening
/// the blob under the key succeeds with exactly that password.
pub proof fn lemma_decrypt_inverts_encrypt(blob: Seq<char>, password: Seq<char>, key: Seq<u8>)
    requires
        is_encryption_of(blob, password, key),
    ensures
        decrypted(blob, key) == Ok::<Seq<char>, KayaError>(password),
{
    let nonce = choose|nonce: Seq<u8>| is_sealed_password(blob, password, key, nonce);
    let plaintext = encode_utf8(password);
    let sealed = aead_seal(key, nonce, plaintext)->0;
    let data = nonce + sealed;
    assert(data.subrange(0, NONCE_LEN as int) =~= nonce);
    assert(data.subrange(NONCE_LEN as int, data.len() as int) =~= sealed);
    encode_utf8_valid_utf8(password);
    encode_utf8_decode_utf8(password);
}

/// Two nonces never give one blob: if one password is sealed under one key
/// with two different nonces, the two blobs differ.
pub proof fn lemma_fresh_nonce_gives_fresh_blob(
    first: Seq<char>,
    second: Seq<char>,
    password: Seq<char>,
    key: Seq<u8>,
    nonce1: Seq<u8>,
    nonce2: Seq<u8>,
)
    requires
        is_sealed_password(first, password, key, nonce1),
        is_sealed_password(second, password, key, nonce2),
        nonce1 != nonce2,
    ensures
        first != second,
{
    if first == second {
        let sealed1 = aead_seal(key, nonce1, encode_utf8(password))->0;
        let sealed2 = aead_seal(key, nonce2, encode_utf8(password))->0;
        assert(nonce1 + sealed1 == nonce2 + sealed2);
        assert((nonce1 + sealed1).subrange(0, NONCE_LEN as int) =~= nonce1);
        assert((nonce2 + sealed2).subrange(0, NONCE_LEN as int) =~= nonce2);
    }
}

/// Opening gives a text only where the cipher vouches for the blob: if a blob
/// opens, it is base64 of a nonce and of bytes that the cipher authenticates
/// under that nonce and the key, and the text is what those bytes hold. A
/// blob that the cipher refuses gives the authentication error and no text.
pub proof fn lemma_text_only_from_authentic_blob(blob: Seq<char>, key: Seq<u8>)
    ensures
        decrypted(blob, key) matches Ok(text) ==> {
            &&& base64_decode(blob) matches Some(data)
            &&& data.len() >= NONCE_LEN + TAG_LEN
            &&& aead_open(
                key,
                data.subrange(0, NONCE_LEN as int),
                data.subrange(NONCE_LEN as int, data.len() as int),
            ) matches Some(plaintext)
            &&& valid_utf8(plaintext)
            &&& text == decode_utf8(plaintext)
        },
        (base64_decode(blob) matches Some(data) && data.len() >= NONCE_LEN + TAG_LEN && aead_open(
            key,
            data.subrange(0, NONCE_LEN as int),
            data.subrange(NONCE_LEN as int, data.len() as int),
        ) is None) ==> decrypted(blob, key) == Err::<Seq<char>, KayaError>(
            KayaError::Crypto(CryptoFailure::AuthenticationFailed),
        ),
{
}

/// A blob that is too short to hold a nonce and a tag never opens.
pub proof fn lemma_short_blob_is_refused(blob: Seq<char>, key: Seq<u8>)
    requires
        base64_decode(blob) matches Some(data) && data.len() < NONCE_LEN + TAG_LEN,
    ensures
        decrypted(blob, key) == Err::<Seq<char>, KayaError>(
            KayaError::Crypto(CryptoFailure::InvalidCiphertext),
        ),
{
}

} // verus!
