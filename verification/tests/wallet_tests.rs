use amadeus_wallet::error::WalletError;
use amadeus_wallet::keys::{
    decode_private_key_base58, generate_private_key_base58, parse_private_key_base58,
    public_key_bytes_from_private_base58, public_key_from_private_base58,
    validate_public_key_base58,
};
use amadeus_wallet::service::{
    change_password, create_wallet, import_wallet, sign_transaction, unlock_wallet,
};
use amadeus_wallet::storage::{encrypt_and_store, load_and_decrypt};
use base64::Engine;
use aes_gcm::aead::Aead;
use aes_gcm::KeyInit;

#[test]
fn generated_key_decodes_to_64_bytes() {
    let key = generate_private_key_base58().unwrap();
    let bytes = decode_private_key_base58(&key).unwrap();
    assert_eq!(bytes.len(), 64);
}

#[test]
fn two_generated_keys_differ() {
    let a = generate_private_key_base58().unwrap();
    let b = generate_private_key_base58().unwrap();
    assert_ne!(a, b);
}

#[test]
fn public_key_derivation_is_deterministic() {
    let key = generate_private_key_base58().unwrap();
    let pk1 = public_key_from_private_base58(&key).unwrap();
    let pk2 = public_key_from_private_base58(&key).unwrap();
    assert_eq!(pk1, pk2);
    let raw1 = public_key_bytes_from_private_base58(&key).unwrap();
    let raw2 = public_key_bytes_from_private_base58(&key).unwrap();
    assert_eq!(raw1, raw2);
    assert_eq!(raw1.len(), 48);
    assert_eq!(bs58::encode(&raw1).into_string(), pk1);
}

#[test]
fn parse_private_key_canonicalizes_whitespace() {
    let key = generate_private_key_base58().unwrap();
    let padded = format!("  {}\n", key);
    assert_eq!(parse_private_key_base58(&padded).unwrap(), key);
}

#[test]
fn parse_private_key_is_idempotent() {
    let key = generate_private_key_base58().unwrap();
    let once = parse_private_key_base58(&format!(" {}", key)).unwrap();
    let twice = parse_private_key_base58(&once).unwrap();
    assert_eq!(once, twice);
    assert_eq!(
        bs58::decode(&once).into_vec().unwrap(),
        decode_private_key_base58(&key).unwrap()
    );
}

#[test]
fn decode_rejects_wrong_length_and_bad_characters() {
    let short = bs58::encode([1u8; 63]).into_string();
    match decode_private_key_base58(&short) {
        Err(WalletError::InvalidPrivateKey(m)) => {
            assert_eq!(m, "Private key must be 64 bytes (Base58 decoded), got 63");
        }
        other => panic!("unexpected: {:?}", other.map(|_| ())),
    }
    assert!(matches!(
        decode_private_key_base58("not!!base58"),
        Err(WalletError::InvalidPrivateKey(_))
    ));
}

#[test]
fn validate_address_checks_length_only() {
    let good = bs58::encode([7u8; 48]).into_string();
    assert_eq!(validate_public_key_base58(&good).unwrap(), true);
    let short = bs58::encode([7u8; 47]).into_string();
    assert_eq!(validate_public_key_base58(&short).unwrap(), false);
    let long = bs58::encode([7u8; 49]).into_string();
    assert_eq!(validate_public_key_base58(&long).unwrap(), false);
    assert!(matches!(
        validate_public_key_base58("0OIl"),
        Err(WalletError::InvalidPrivateKey(_))
    ));
}

#[test]
fn storage_round_trip_and_wrong_password() {
    let secret = "the quick brown secret";
    let record = encrypt_and_store(secret, "hunter2").unwrap();
    assert_eq!(load_and_decrypt("hunter2", &record).unwrap(), secret);
    assert!(matches!(
        load_and_decrypt("wrong password", &record),
        Err(WalletError::DecryptionFailed)
    ));
    assert!(matches!(
        load_and_decrypt("hunter2", "not base64 at all!!!"),
        Err(WalletError::DecryptionFailed)
    ));
    let short = base64::engine::general_purpose::STANDARD.encode([0u8; 43]);
    assert!(matches!(
        load_and_decrypt("hunter2", &short),
        Err(WalletError::DecryptionFailed)
    ));
}

#[test]
fn stored_record_matches_documented_file_format() {
    let secret = "wallet secret text";
    let record = encrypt_and_store(secret, "pw").unwrap();
    let raw = base64::engine::general_purpose::STANDARD
        .decode(&record)
        .unwrap();
    assert!(raw.len() >= 44);
    let (salt, rest) = raw.split_at(16);
    let (nonce, ct) = rest.split_at(12);
    let mut key = [0u8; 32];
    argon2::Argon2::default()
        .hash_password_into(b"pw", salt, &mut key)
        .unwrap();
    let cipher = aes_gcm::Aes256Gcm::new_from_slice(&key).unwrap();
    let plain = cipher
        .decrypt(aes_gcm::Nonce::from_slice(nonce), ct)
        .unwrap();
    assert_eq!(plain, secret.as_bytes());
}

#[test]
fn fresh_salt_and_nonce_on_every_encryption() {
    let a = encrypt_and_store("same secret", "pw").unwrap();
    let b = encrypt_and_store("same secret", "pw").unwrap();
    assert_ne!(a, b);
}

#[test]
fn create_and_unlock_wallet() {
    let (key, record) = create_wallet("pass").unwrap();
    let address = unlock_wallet("pass", Some(&record)).unwrap();
    assert_eq!(address, public_key_from_private_base58(&key).unwrap());
    match unlock_wallet("pass", None) {
        Err(WalletError::Storage(m)) => {
            assert_eq!(m, "No wallet found. Create or import one first.")
        }
        _ => panic!("expected a storage error"),
    }
    assert!(matches!(
        unlock_wallet("other", Some(&record)),
        Err(WalletError::DecryptionFailed)
    ));
}

#[test]
fn import_normalizes_and_round_trips() {
    let key = generate_private_key_base58().unwrap();
    let record = import_wallet(&format!(" {} ", key), "pw").unwrap();
    assert_eq!(load_and_decrypt("pw", &record).unwrap(), key);
}

#[test]
fn change_password_re_encrypts_same_secret() {
    let (key, record) = create_wallet("old").unwrap();
    let record2 = change_password("old", "new", Some(&record)).unwrap();
    assert_eq!(load_and_decrypt("new", &record2).unwrap(), key);
    assert!(matches!(
        load_and_decrypt("old", &record2),
        Err(WalletError::DecryptionFailed)
    ));
    match change_password("old", "new", None) {
        Err(WalletError::Storage(m)) => assert_eq!(m, "No wallet found."),
        _ => panic!("expected a storage error"),
    }
}

#[test]
fn sign_transaction_produces_base58_envelope() {
    let (_key, record) = create_wallet("pw").unwrap();
    let recipient = bs58::encode([3u8; 48]).into_string();
    let txt = sign_transaction("pw", &recipient, "1.5", "", Some(&record)).unwrap();
    let bytes = bs58::decode(&txt).into_vec().unwrap();
    assert_eq!(bytes[0], 7);
    match sign_transaction("pw", &recipient, "1.5", "", None) {
        Err(WalletError::Storage(m)) => assert_eq!(m, "No wallet found."),
        _ => panic!("expected a storage error"),
    }
}

#[test]
fn error_messages_render_as_documented() {
    assert_eq!(
        WalletError::Crypto("boom".to_string()).message(),
        "Crypto error: boom"
    );
    assert_eq!(
        WalletError::Storage("gone".to_string()).message(),
        "Storage error: gone"
    );
    assert_eq!(
        WalletError::InvalidPrivateKey("bad".to_string()).message(),
        "Invalid private key: bad"
    );
    assert_eq!(
        WalletError::DecryptionFailed.message(),
        "Decryption failed (wrong password?)"
    );
    assert_eq!(WalletError::Io("nope".to_string()).message(), "IO error: nope");
}
