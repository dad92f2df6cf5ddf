use base64::Engine;
use savebutton_sync::error::{CryptoFailure, DecodeFailure, KayaError};
use savebutton_sync::vault::{
    assemble_blob, decode_key, decrypt_password, encode_key, encrypt_password,
    encrypt_with_nonce, generate_encryption_key, KEY_LEN, NONCE_LEN, TAG_LEN,
};

fn b64(bytes: &[u8]) -> String {
    base64::engine::general_purpose::STANDARD.encode(bytes)
}

fn unb64(text: &str) -> Vec<u8> {
    base64::engine::general_purpose::STANDARD.decode(text).unwrap()
}

fn hex(text: &str) -> Vec<u8> {
    let digits: Vec<u8> = text
        .bytes()
        .map(|b| match b {
            b'0'..=b'9' => b - b'0',
            b'a'..=b'f' => b - b'a' + 10,
            _ => panic!("not a hex digit"),
        })
        .collect();
    digits.chunks(2).map(|pair| pair[0] * 16 + pair[1]).collect()
}

#[test]
fn decrypt_recovers_what_encrypt_sealed() {
    let passwords = ["secret", "", "pässwörd ☃", "a\nb\tc", "x".repeat(1000).as_str()]
        .map(|p| p.to_string());
    for password in passwords.iter() {
        let key = generate_encryption_key();
        let blob = encrypt_password(password, &key).unwrap();
        assert_eq!(&decrypt_password(&blob, &key).unwrap(), password);
    }
}

#[test]
fn blob_is_nonce_ciphertext_and_tag_in_base64() {
    let key = generate_encryption_key();
    let blob = encrypt_password("secret", &key).unwrap();
    let data = unb64(&blob);
    assert_eq!(data.len(), NONCE_LEN + "secret".len() + TAG_LEN);
    assert_eq!(KEY_LEN, 32);
    assert_eq!(NONCE_LEN, 12);
    assert_eq!(TAG_LEN, 16);
}

#[test]
fn two_encryptions_differ() {
    let key = generate_encryption_key();
    let first = encrypt_password("secret", &key).unwrap();
    let second = encrypt_password("secret", &key).unwrap();
    assert_ne!(first, second);
    assert_ne!(unb64(&first)[..NONCE_LEN], unb64(&second)[..NONCE_LEN]);
    assert_eq!(decrypt_password(&first, &key).unwrap(), "secret");
    assert_eq!(decrypt_password(&second, &key).unwrap(), "secret");
}

#[test]
fn keys_are_fresh() {
    let first = generate_encryption_key();
    let second = generate_encryption_key();
    assert_ne!(first, second);
    assert_ne!(first, [0u8; KEY_LEN]);
}

#[test]
fn sealing_with_a_given_nonce_is_the_standard_cipher() {
    let key = [0u8; KEY_LEN];
    let nonce = [0u8; NONCE_LEN];
    let empty = encrypt_with_nonce("", &key, &nonce).unwrap();
    let mut expected = vec![0u8; NONCE_LEN];
    expected.extend(hex("530f8afbc74536b9a963b4f1c4cb738b"));
    assert_eq!(empty, b64(&expected));

    let zeros = "\0".repeat(16);
    let block = encrypt_with_nonce(&zeros, &key, &nonce).unwrap();
    let mut expected = vec![0u8; NONCE_LEN];
    expected.extend(hex("cea7403d4d606b6e074ec5d3baf39d18"));
    expected.extend(hex("d0d1c8a799996bf0265b98b5d48ab919"));
    assert_eq!(block, b64(&expected));
    assert_eq!(decrypt_password(&block, &key).unwrap(), zeros);
}

#[test]
fn different_nonces_give_different_blobs() {
    let key = [7u8; KEY_LEN];
    let first = encrypt_with_nonce("secret", &key, &[1u8; NONCE_LEN]).unwrap();
    let second = encrypt_with_nonce("secret", &key, &[2u8; NONCE_LEN]).unwrap();
    let again = encrypt_with_nonce("secret", &key, &[1u8; NONCE_LEN]).unwrap();
    assert_ne!(first, second);
    assert_eq!(first, again);
}

#[test]
fn assembled_blob_is_base64_of_nonce_and_sealed() {
    let nonce = [9u8; NONCE_LEN];
    let sealed = vec![1u8, 2, 3, 4, 5];
    let mut expected = nonce.to_vec();
    expected.extend(&sealed);
    assert_eq!(assemble_blob(&nonce, &sealed), b64(&expected));
}

#[test]
fn flipping_any_byte_of_the_blob_makes_decrypt_fail() {
    let key = generate_encryption_key();
    let blob = encrypt_password("secret", &key).unwrap();
    let bytes = blob.as_bytes();
    for i in 0..bytes.len() {
        for replacement in [b'A', b'B', b'z', b'0', b'+', b'/', b'=', b'!'] {
            if bytes[i] == replacement {
                continue;
            }
            let mut altered = bytes.to_vec();
            altered[i] = replacement;
            let altered = String::from_utf8(altered).unwrap();
            assert!(
                decrypt_password(&altered, &key).is_err(),
                "position {} replaced by {}",
                i,
                replacement as char
            );
        }
    }
    let data = unb64(&blob);
    for i in 0..data.len() {
        let mut altered = data.clone();
        altered[i] ^= 0x01;
        let result = decrypt_password(&b64(&altered), &key);
        assert!(matches!(
            result,
            Err(KayaError::Crypto(CryptoFailure::AuthenticationFailed))
        ));
    }
}

#[test]
fn decrypt_says_why_it_fails() {
    let key = generate_encryption_key();
    let other = generate_encryption_key();
    let blob = encrypt_password("secret", &key).unwrap();
    assert!(matches!(
        decrypt_password("not base64!", &key),
        Err(KayaError::Decode(DecodeFailure::Base64))
    ));
    assert!(matches!(
        decrypt_password("", &key),
        Err(KayaError::Crypto(CryptoFailure::InvalidCiphertext))
    ));
    assert!(matches!(
        decrypt_password(&b64(&[0u8; 27]), &key),
        Err(KayaError::Crypto(CryptoFailure::InvalidCiphertext))
    ));
    assert!(matches!(
        decrypt_password(&b64(&[0u8; 28]), &key),
        Err(KayaError::Crypto(CryptoFailure::AuthenticationFailed))
    ));
    assert!(matches!(
        decrypt_password(&blob, &other),
        Err(KayaError::Crypto(CryptoFailure::AuthenticationFailed))
    ));
}

#[test]
fn decrypt_refuses_bytes_that_are_no_text() {
    let key_bytes = [3u8; KEY_LEN];
    let nonce = [5u8; NONCE_LEN];
    let unbound = ring::aead::UnboundKey::new(&ring::aead::AES_256_GCM, &key_bytes).unwrap();
    let key = ring::aead::LessSafeKey::new(unbound);
    let mut in_out = vec![0xffu8, 0xfe, 0x80];
    key.seal_in_place_append_tag(
        ring::aead::Nonce::assume_unique_for_key(nonce),
        ring::aead::Aad::empty(),
        &mut in_out,
    )
    .unwrap();
    let mut data = nonce.to_vec();
    data.extend(in_out);
    assert!(matches!(
        decrypt_password(&b64(&data), &key_bytes),
        Err(KayaError::Crypto(CryptoFailure::InvalidEncoding))
    ));
}

#[test]
fn blobs_of_other_implementations_open() {
    let key_bytes = [3u8; KEY_LEN];
    let nonce = [5u8; NONCE_LEN];
    let unbound = ring::aead::UnboundKey::new(&ring::aead::AES_256_GCM, &key_bytes).unwrap();
    let key = ring::aead::LessSafeKey::new(unbound);
    let mut in_out = "hunter2".as_bytes().to_vec();
    key.seal_in_place_append_tag(
        ring::aead::Nonce::assume_unique_for_key(nonce),
        ring::aead::Aad::empty(),
        &mut in_out,
    )
    .unwrap();
    let mut data = nonce.to_vec();
    data.extend(in_out);
    assert_eq!(decrypt_password(&b64(&data), &key_bytes).unwrap(), "hunter2");
    assert_eq!(
        encrypt_with_nonce("hunter2", &key_bytes, &nonce).unwrap(),
        b64(&data)
    );
}

#[test]
fn keys_are_stored_as_base64() {
    let key = [0xabu8; KEY_LEN];
    let text = encode_key(&key);
    assert_eq!(text, b64(&key));
    assert_eq!(decode_key(&text).unwrap(), key);
    assert!(matches!(
        decode_key("@@@"),
        Err(KayaError::Decode(DecodeFailure::Base64))
    ));
    assert!(matches!(
        decode_key(&b64(&[1u8; 31])),
        Err(KayaError::Crypto(CryptoFailure::InvalidKeyLength))
    ));
    assert!(matches!(
        decode_key(&b64(&[1u8; 33])),
        Err(KayaError::Crypto(CryptoFailure::InvalidKeyLength))
    ));
    assert!(matches!(
        decode_key(""),
        Err(KayaError::Crypto(CryptoFailure::InvalidKeyLength))
    ));
}
