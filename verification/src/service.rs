use crate::error::WalletError;
use crate::keys::{
    b58_decode_of, b58_encode, b58_of, generate_private_key_base58, parse_private_key_base58,
    privkey_decoded, public_key_from_private_base58, pubkey_of,
};
use crate::storage::{encrypt_and_store, load_and_decrypt, open_record};
use crate::text::{trim_spec, trim_str};
use crate::tx::{build_coin_transfer, coin_transfer_bytes, transfer_inputs_ok};
use crate::amount::flat_units_of;
use crate::text::dec_digits;
use vstd::prelude::*;
use vstd::string::*;

verus! {

/// Creates a wallet: draws a fresh key, seals it under the password, and
/// returns the key's Base58 text together with the record text to persist;
/// unlocking the record under the same password returns that key text.
pub fn create_wallet(password: &str) -> (r: Result<(String, String), WalletError>)
    ensures
        r matches Ok(p) ==> privkey_decoded(p.0@) is Some && open_record(password@, p.1@) == Some(
            p.0@,
        ),
        r matches Err(e) ==> e is Crypto,
{
    let key = generate_private_key_base58()?;
    match encrypt_and_store(key.as_str(), password) {
        Ok(record) => Ok((key, record)),
        Err(e) => Err(e),
    }
}

/// Imports a private key: canonicalizes its Base58 text and seals it under
/// the password, returning the record text to persist.
pub fn import_wallet(private_key_base58: &str, password: &str) -> (r: Result<String, WalletError>)
    ensures
        r matches Ok(c) ==> privkey_decoded(private_key_base58@) is Some && open_record(
            password@,
            c@,
        ) == Some(b58_of(privkey_decoded(private_key_base58@)->0)),
        privkey_decoded(private_key_base58@) is None ==> (r matches Err(e)
            && e is InvalidPrivateKey),
        (privkey_decoded(private_key_base58@) is Some && password@.len() <= 0x3fffffff && b58_of(
            privkey_decoded(private_key_base58@)->0,
        ).len() <= 0x3fffffff) ==> r is Ok,
        r matches Err(e) ==> (e is InvalidPrivateKey || e is Crypto),
{
    let normalized = parse_private_key_base58(private_key_base58)?;
    encrypt_and_store(normalized.as_str(), password)
}

/// Unlocks the wallet: decrypts the record (when one exists) and returns the
/// derived public key's Base58 text, never the private key.
pub fn unlock_wallet(password: &str, record: Option<&str>) -> (r: Result<String, WalletError>)
    ensures
        record is None ==> (r matches Err(e) && e matches WalletError::Storage(m) && m@
            == "No wallet found. Create or import one first."@),
        r matches Ok(pk) ==> (record matches Some(c) && open_record(password@, c@) matches Some(sk)
            && privkey_decoded(sk) is Some && pk@ == b58_of(pubkey_of(privkey_decoded(sk)->0))),
        record matches Some(c) ==> (password@.len() <= 0x3fffffff ==> (r is Ok <==> (open_record(
            password@,
            c@,
        ) matches Some(sk) && privkey_decoded(sk) is Some))),
        record matches Some(c) ==> ((password@.len() <= 0x3fffffff && open_record(password@, c@)
            is None) ==> (r matches Err(e) && e is DecryptionFailed)),
{
    let content = match record {
        None => {
            return Err(
                WalletError::Storage(
                    String::from_str("No wallet found. Create or import one first."),
                ),
            );
        },
        Some(c) => c,
    };
    let secret = load_and_decrypt(password, content)?;
    public_key_from_private_base58(secret.as_str())
}

/// Re-encrypts the stored secret under a new password: decrypts the record
/// under the current one and seals the same secret afresh, returning the new
/// record text.
pub fn change_password(current_password: &str, new_password: &str, record: Option<&str>) -> (r:
    Result<String, WalletError>)
    ensures
        record is None ==> (r matches Err(e) && e matches WalletError::Storage(m) && m@
            == "No wallet found."@),
        r matches Ok(c2) ==> (record matches Some(c) && open_record(current_password@, c@) matches
            Some(sk) && open_record(new_password@, c2@) == Some(sk)),
        record matches Some(c) ==> (open_record(current_password@, c@) matches Some(sk) ==> ((
        current_password@.len() <= 0x3fffffff && new_password@.len() <= 0x3fffffff && sk.len()
            <= 0x3fffffff) ==> r is Ok)),
        record matches Some(c) ==> ((current_password@.len() <= 0x3fffffff && open_record(
            current_password@,
            c@,
        ) is None) ==> (r matches Err(e) && e is DecryptionFailed)),
{
    let content = match record {
        None => {
            return Err(WalletError::Storage(String::from_str("No wallet found.")));
        },
        Some(c) => c,
    };
    let secret = load_and_decrypt(current_password, content)?;
    encrypt_and_store(secret.as_str(), new_password)
}

/// The symbol text handed to the transfer builder for a memo: the memo
/// trimmed, or empty (for the builder's default) when the memo is empty.
pub open spec fn memo_symbol(memo: Seq<char>) -> Seq<char> {
    if memo.len() == 0 {
        Seq::<char>::empty()
    } else {
        trim_spec(memo)
    }
}

/// Signs a coin transfer from the stored wallet: decrypts the key, uses the
/// trimmed memo as the token symbol ("AMA" when empty), builds and signs the
/// transfer, and returns the envelope's Base58 text.
pub fn sign_transaction(
    password: &str,
    recipient_base58: &str,
    amount: &str,
    memo: &str,
    record: Option<&str>,
) -> (r: Result<String, WalletError>)
    ensures
        record is None ==> (r matches Err(e) && e matches WalletError::Storage(m) && m@
            == "No wallet found."@),
        record matches Some(c) ==> (open_record(password@, c@) matches Some(sk) ==> ((
        password@.len() <= 0x3fffffff && transfer_inputs_ok(
            sk,
            trim_spec(recipient_base58@),
            trim_spec(amount@),
        )) ==> r is Ok)),
        r matches Ok(txt) ==> (record matches Some(c) && open_record(password@, c@) matches Some(
            sk,
        ) && transfer_inputs_ok(sk, trim_spec(recipient_base58@), trim_spec(amount@)) && (
        exists|n: int|
            n >= 0 && txt@ == b58_of(
                #[trigger] coin_transfer_bytes(
                    privkey_decoded(sk)->0,
                    b58_decode_of(trim_spec(recipient_base58@))->0,
                    dec_digits(flat_units_of(trim_spec(amount@))->0),
                    memo_symbol(memo@),
                    n,
                ),
            ))),
{
    let content = match record {
        None => {
            return Err(WalletError::Storage(String::from_str("No wallet found.")));
        },
        Some(c) => c,
    };
    let secret = load_and_decrypt(password, content)?;
    let symbol = if memo.is_empty() {
        String::new()
    } else {
        trim_str(memo)
    };
    let trimmed_rec = trim_str(recipient_base58);
    let trimmed_amount = trim_str(amount);
    let packed = build_coin_transfer(
        secret.as_str(),
        trimmed_rec.as_str(),
        trimmed_amount.as_str(),
        symbol.as_str(),
    )?;
    let out = b58_encode(packed.as_slice());
    proof {
        crate::text::lemma_trim_idempotent(recipient_base58@);
        let n = choose|n: int|
            n >= 0 && packed@ == #[trigger] coin_transfer_bytes(
                privkey_decoded(secret@)->0,
                b58_decode_of(trim_spec(trimmed_rec@))->0,
                dec_digits(flat_units_of(trimmed_amount@)->0),
                symbol@,
                n,
            );
        assert(out@ == b58_of(
            coin_transfer_bytes(
                privkey_decoded(secret@)->0,
                b58_decode_of(trim_spec(recipient_base58@))->0,
                dec_digits(flat_units_of(trim_spec(amount@))->0),
                memo_symbol(memo@),
                n,
            ),
        ));
    }
    Ok(out)
}

} // verus!
