use crate::error::WalletError;
use crate::keys::random_bytes;
use crate::text::{bytes_to_str, str_to_bytes, utf8_bytes_of, utf8_of};
use aes_gcm::aead::Aead;
use aes_gcm::KeyInit;
use base64::Engine;
use vstd::prelude::*;
use vstd::string::*;

verus! {

/// The 32-byte key the password hash derives from a password and a salt.
pub uninterp spec fn kdf_of(password: Seq<char>, salt: Seq<u8>) -> Seq<u8>;

/// The AES-256-GCM sealing of a plaintext under key and nonce: ciphertext
/// with the 16-byte tag appended.
pub uninterp spec fn gcm_seal(key: Seq<u8>, nonce: Seq<u8>, plaintext: Seq<u8>) -> Seq<u8>;

/// What AES-256-GCM opening yields: the plaintext, or nothing where the tag
/// does not authenticate.
pub uninterp spec fn gcm_open(key: Seq<u8>, nonce: Seq<u8>, ciphertext: Seq<u8>) -> Option<
    Seq<u8>,
>;

/// The standard Base64 text of a byte string.
pub uninterp spec fn b64_of(data: Seq<u8>) -> Seq<char>;

/// What standard Base64 decoding yields for a text, or nothing where the
/// text is not valid Base64.
pub uninterp spec fn b64_decode_of(s: Seq<char>) -> Option<Seq<u8>>;

/// Relies on `Argon2::default().hash_password_into`: derives 32 bytes from
/// password and salt; with a 16-byte salt it fails only on a password over
/// the algorithm's four-gigabyte cap.
#[verifier::external_body]
fn kdf_derive(password: &str, salt: &[u8]) -> (r: Result<Vec<u8>, String>)
    ensures
        r matches Ok(k) ==> k@ == kdf_of(password@, salt@) && k@.len() == 32,
        salt@.len() == 16 && password@.len() <= 0x3fffffff ==> r is Ok,
{
    let mut out = [0u8; 32];
    argon2::Argon2::default()
        .hash_password_into(password.as_bytes(), salt, &mut out)
        .map_err(|e| e.to_string())?;
    Ok(out.to_vec())
}

/// Relies on `Aes256Gcm::encrypt`: seals the plaintext under key and nonce,
/// appending the 16-byte tag; opening the result under the same key and
/// nonce returns the plaintext. Fails only on a plaintext over the mode's
/// size cap.
#[verifier::external_body]
fn gcm_encrypt(key: &[u8], nonce: &[u8], plaintext: &[u8]) -> (r: Result<Vec<u8>, ()>)
    requires
        key@.len() == 32,
        nonce@.len() == 12,
    ensures
        r matches Ok(c) ==> c@ == gcm_seal(key@, nonce@, plaintext@) && c@.len() == plaintext@.len()
            + 16 && gcm_open(key@, nonce@, c@) == Some(plaintext@),
        plaintext@.len() < 0x1000000000 ==> r is Ok,
{
    let cipher = aes_gcm::Aes256Gcm::new_from_slice(key).map_err(|_| ())?;
    cipher.encrypt(aes_gcm::Nonce::from_slice(nonce), plaintext).map_err(|_| ())
}

/// Relies on `Aes256Gcm::decrypt`: opens a sealed buffer, failing exactly
/// when the tag does not authenticate under this key and nonce.
#[verifier::external_body]
fn gcm_decrypt(key: &[u8], nonce: &[u8], ciphertext: &[u8]) -> (r: Result<Vec<u8>, ()>)
    requires
        key@.len() == 32,
        nonce@.len() == 12,
    ensures
        r is Ok <==> gcm_open(key@, nonce@, ciphertext@) is Some,
        r matches Ok(p) ==> gcm_open(key@, nonce@, ciphertext@) == Some(p@),
{
    let cipher = aes_gcm::Aes256Gcm::new_from_slice(key).map_err(|_| ())?;
    cipher.decrypt(aes_gcm::Nonce::from_slice(nonce), ciphertext).map_err(|_| ())
}

/// Relies on `base64`'s standard engine `encode`: the result is the Base64
/// text of the input and decodes back to it.
#[verifier::external_body]
fn b64_encode(data: &[u8]) -> (r: String)
    ensures
        r@ == b64_of(data@),
        b64_decode_of(r@) == Some(data@),
{
    base64::engine::general_purpose::STANDARD.encode(data)
}

/// Relies on `base64`'s standard engine `decode`: decodes Base64 text,
/// failing exactly on malformed input.
#[verifier::external_body]
fn b64_decode(s: &str) -> (r: Result<Vec<u8>, ()>)
    ensures
        r is Ok <==> b64_decode_of(s@) is Some,
        r matches Ok(v) ==> b64_decode_of(s@) == Some(v@),
{
    base64::engine::general_purpose::STANDARD.decode(s).map_err(|_| ())
}

/// The full record text a wallet file holds for a secret sealed under the
/// given password, salt and nonce.
pub open spec fn record_of(
    secret: Seq<char>,
    password: Seq<char>,
    salt: Seq<u8>,
    nonce: Seq<u8>,
) -> Seq<char> {
    b64_of(salt + nonce + gcm_seal(kdf_of(password, salt), nonce, utf8_bytes_of(secret)))
}

/// What decrypting a record text under a password yields: Base64, the
/// salt(16)/nonce(12)/sealed split, key derivation, opening, and UTF-8
/// decoding — or nothing where any step fails.
pub open spec fn open_record(password: Seq<char>, content: Seq<char>) -> Option<Seq<char>> {
    match b64_decode_of(content) {
        None => None,
        Some(data) => if data.len() < 44 {
            None
        } else {
            let salt = data.subrange(0, 16);
            let nonce = data.subrange(16, 28);
            let sealed = data.subrange(28, data.len() as int);
            match gcm_open(kdf_of(password, salt), nonce, sealed) {
                None => None,
                Some(plain) => utf8_of(plain),
            }
        },
    }
}

/// Seals a secret under a password with the given fresh salt and nonce and
/// returns the record text; decrypting that text under the same password
/// returns the secret.
pub fn encrypt_record_with(secret: &str, password: &str, salt: &[u8], nonce: &[u8]) -> (r: Result<
    String,
    WalletError,
>)
    requires
        salt@.len() == 16,
        nonce@.len() == 12,
    ensures
        r matches Ok(c) ==> c@ == record_of(secret@, password@, salt@, nonce@) && open_record(
            password@,
            c@,
        ) == Some(secret@),
        password@.len() <= 0x3fffffff && secret@.len() <= 0x3fffffff ==> r is Ok,
        r matches Err(e) ==> e is Crypto,
{
    let key = match kdf_derive(password, salt) {
        Ok(k) => k,
        Err(e) => {
            return Err(WalletError::Crypto(e));
        },
    };
    let plain = str_to_bytes(secret);
    let sealed = match gcm_encrypt(key.as_slice(), nonce, plain.as_slice()) {
        Ok(c) => c,
        Err(_) => {
            return Err(WalletError::Crypto(String::from_str("Encryption failed")));
        },
    };
    let mut out: Vec<u8> = Vec::new();
    out.extend_from_slice(salt);
    out.extend_from_slice(nonce);
    out.extend_from_slice(sealed.as_slice());
    proof {
        assert(out@ =~= salt@ + nonce@ + sealed@);
    }
    let content = b64_encode(out.as_slice());
    proof {
        let data = salt@ + nonce@ + sealed@;
        assert(data.subrange(0, 16) =~= salt@);
        assert(data.subrange(16, 28) =~= nonce@);
        assert(data.subrange(28, data.len() as int) =~= sealed@);
        assert(open_record(password@, content@) == Some(secret@));
    }
    Ok(content)
}

/// Seals a secret under a password with a fresh random 16-byte salt and
/// 12-byte nonce, returning the record text for the wallet file: decrypting
/// it under the same password returns exactly the secret.
pub fn encrypt_and_store(secret: &str, password: &str) -> (r: Result<String, WalletError>)
    ensures
        r matches Ok(c) ==> open_record(password@, c@) == Some(secret@),
        password@.len() <= 0x3fffffff && secret@.len() <= 0x3fffffff ==> r is Ok,
        r matches Err(e) ==> e is Crypto,
{
    let salt = random_bytes(16);
    let nonce = random_bytes(12);
    encrypt_record_with(secret, password, salt.as_slice(), nonce.as_slice())
}

/// Decrypts a wallet record text under a password. Every malformed-input or
/// authentication failure collapses to the one opaque `DecryptionFailed`
/// outcome, by design.
pub fn load_and_decrypt(password: &str, content: &str) -> (r: Result<String, WalletError>)
    ensures
        r matches Ok(s) ==> open_record(password@, content@) == Some(s@),
        password@.len() <= 0x3fffffff ==> (r is Ok <==> open_record(password@, content@) is Some),
        (password@.len() <= 0x3fffffff && open_record(password@, content@) is None) ==> (
        r matches Err(e) && e is DecryptionFailed),
        r matches Err(e) ==> e is DecryptionFailed || e is Crypto,
{
    let data = match b64_decode(content) {
        Ok(d) => d,
        Err(_) => {
            return Err(WalletError::DecryptionFailed);
        },
    };
    if data.len() < 44 {
        return Err(WalletError::DecryptionFailed);
    }
    let ghost dv = data@;
    let mut rest = data;
    let salt: Vec<u8> = {
        let mut s: Vec<u8> = Vec::new();
        let mut i: usize = 0;
        while i < 16
            invariant
                i <= 16,
                rest@ == dv,
                dv.len() >= 44,
                s@ =~= dv.subrange(0, i as int),
            decreases 16 - i,
        {
            s.push(rest[i]);
            i = i + 1;
            proof {
                assert(s@ =~= dv.subrange(0, i as int));
            }
        }
        s
    };
    let nonce: Vec<u8> = {
        let mut s: Vec<u8> = Vec::new();
        let mut i: usize = 16;
        while i < 28
            invariant
                16 <= i <= 28,
                rest@ == dv,
                dv.len() >= 44,
                s@ =~= dv.subrange(16, i as int),
            decreases 28 - i,
        {
            s.push(rest[i]);
            i = i + 1;
            proof {
                assert(s@ =~= dv.subrange(16, i as int));
            }
        }
        s
    };
    let sealed: Vec<u8> = {
        let mut s: Vec<u8> = Vec::new();
        let mut i: usize = 28;
        while i < rest.len()
            invariant
                28 <= i <= dv.len(),
                rest@ == dv,
                dv.len() >= 44,
                s@ =~= dv.subrange(28, i as int),
            decreases dv.len() - i,
        {
            s.push(rest[i]);
            i = i + 1;
            proof {
                assert(s@ =~= dv.subrange(28, i as int));
            }
        }
        s
    };
    let key = match kdf_derive(password, salt.as_slice()) {
        Ok(k) => k,
        Err(e) => {
            return Err(WalletError::Crypto(e));
        },
    };
    let plain = match gcm_decrypt(key.as_slice(), nonce.as_slice(), sealed.as_slice()) {
        Ok(p) => p,
        Err(_) => {
            return Err(WalletError::DecryptionFailed);
        },
    };
    match bytes_to_str(plain) {
        Ok(s) => Ok(s),
        Err(_) => Err(WalletError::DecryptionFailed),
    }
}

} // verus!
