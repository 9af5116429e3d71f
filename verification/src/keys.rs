use crate::error::WalletError;
use crate::text::{dec_digits, trim_spec, trim_str, u64_to_string};
use group::Curve;
use rand::RngCore;
use vstd::prelude::*;
use vstd::string::*;

verus! {

/// The Base58 text of a byte string, by the shared Bitcoin alphabet.
pub uninterp spec fn b58_of(data: Seq<u8>) -> Seq<char>;

/// What Base58 decoding yields for a text: the decoded bytes, or nothing
/// where the text holds a character outside the alphabet.
pub uninterp spec fn b58_decode_of(s: Seq<char>) -> Option<Seq<u8>>;

/// Whether 64 raw bytes reduce (wide reduction modulo the BLS12-381 scalar
/// field) to a scalar the signing-key constructor accepts.
pub uninterp spec fn sk_ok(bytes: Seq<u8>) -> bool;

/// The compressed 48-byte G1 public key derived from 64 raw private bytes.
pub uninterp spec fn pubkey_of(bytes: Seq<u8>) -> Seq<u8>;

/// The BLS signature over a digest under a domain-separation tag.
pub uninterp spec fn sig_of(sk: Seq<u8>, digest: Seq<u8>, dst: Seq<u8>) -> Seq<u8>;

/// Relies on `bs58::encode(..).into_string()`: the result is the Base58 text
/// of the input, it decodes back to the input, and the alphabet is
/// alphanumeric, so the text carries no surrounding whitespace.
#[verifier::external_body]
pub(crate) fn b58_encode(data: &[u8]) -> (r: String)
    ensures
        r@ == b58_of(data@),
        b58_decode_of(r@) == Some(data@),
        trim_spec(r@) == r@,
{
    bs58::encode(data).into_string()
}

/// Relies on `bs58::decode(..).into_vec()`: decodes Base58 text, failing
/// exactly on text outside the alphabet.
#[verifier::external_body]
pub(crate) fn b58_decode(s: &str) -> (r: Result<Vec<u8>, String>)
    ensures
        r is Ok <==> b58_decode_of(s@) is Some,
        r matches Ok(v) ==> b58_decode_of(s@) == Some(v@),
{
    bs58::decode(s).into_vec().map_err(|e| e.to_string())
}

/// Relies on `bls12_381::Scalar::from_bytes_wide` and
/// `blst::min_pk::SecretKey::from_bytes`: reduces the 64 bytes to a scalar
/// (big-endian for blst) and reports whether blst accepts it as a secret key.
#[verifier::external_body]
pub(crate) fn sk_check(bytes: &[u8]) -> (r: bool)
    requires
        bytes@.len() == 64,
    ensures
        r == sk_ok(bytes@),
{
    let mut arr = [0u8; 64];
    arr.copy_from_slice(bytes);
    let scalar = bls12_381::Scalar::from_bytes_wide(&arr);
    let mut sk_be = scalar.to_bytes();
    sk_be.reverse();
    blst::min_pk::SecretKey::from_bytes(&sk_be).is_ok()
}

/// Relies on `bls12_381::G1Projective`: multiplies the G1 generator by the
/// scalar the 64 bytes reduce to and compresses the point to 48 bytes.
#[verifier::external_body]
pub(crate) fn derive_pubkey(bytes: &[u8]) -> (r: Vec<u8>)
    requires
        bytes@.len() == 64,
    ensures
        r@ == pubkey_of(bytes@),
        r@.len() == 48,
{
    let mut arr = [0u8; 64];
    arr.copy_from_slice(bytes);
    let scalar = bls12_381::Scalar::from_bytes_wide(&arr);
    let pk = bls12_381::G1Projective::generator() * scalar;
    pk.to_affine().to_compressed().to_vec()
}

/// Relies on `blst::min_pk::SecretKey::sign`: a deterministic 96-byte BLS
/// signature over the message under the given domain tag; key construction
/// fails exactly when the reduced scalar is rejected.
#[verifier::external_body]
pub(crate) fn bls_sign_raw(sk_bytes: &[u8], digest: &[u8], dst: &[u8]) -> (r: Result<
    Vec<u8>,
    String,
>)
    requires
        sk_bytes@.len() == 64,
    ensures
        r is Ok <==> sk_ok(sk_bytes@),
        r matches Ok(s) ==> s@ == sig_of(sk_bytes@, digest@, dst@) && s@.len() == 96,
{
    let mut arr = [0u8; 64];
    arr.copy_from_slice(sk_bytes);
    let scalar = bls12_381::Scalar::from_bytes_wide(&arr);
    let mut sk_be = scalar.to_bytes();
    sk_be.reverse();
    let sk = blst::min_pk::SecretKey::from_bytes(&sk_be).map_err(|e| format!("{:?}", e))?;
    Ok(sk.sign(digest, dst, &[]).to_bytes().to_vec())
}

/// Relies on `rand::rng().fill_bytes`: fills a buffer of the asked length
/// from the cryptographically secure generator.
#[verifier::external_body]
pub(crate) fn random_bytes(n: usize) -> (r: Vec<u8>)
    ensures
        r@.len() == n,
{
    let mut v = vec![0u8; n];
    rand::rng().fill_bytes(&mut v);
    v
}

/// The private key a text decodes to: Base58 of the trimmed text, 64 bytes,
/// accepted as a secret key — or nothing.
pub open spec fn privkey_decoded(s: Seq<char>) -> Option<Seq<u8>> {
    match b58_decode_of(trim_spec(s)) {
        Some(d) => if d.len() == 64 && sk_ok(d) {
            Some(d)
        } else {
            None
        },
        None => None,
    }
}

/// Decodes a Base58 private key: the trimmed text must decode to exactly 64
/// bytes that the curve library accepts as a secret key.
pub fn decode_private_key_base58(s: &str) -> (r: Result<Vec<u8>, WalletError>)
    ensures
        r is Ok <==> privkey_decoded(s@) is Some,
        r matches Ok(v) ==> privkey_decoded(s@) == Some(v@),
        r matches Err(e) ==> e is InvalidPrivateKey,
        b58_decode_of(trim_spec(s@)) matches Some(d) ==> (d.len() != 64 ==> (r matches Err(e)
            && e matches WalletError::InvalidPrivateKey(m) && m@
            == "Private key must be 64 bytes (Base58 decoded), got "@ + dec_digits(d.len()))),
{
    let trimmed = trim_str(s);
    match b58_decode(trimmed.as_str()) {
        Err(e) => Err(WalletError::InvalidPrivateKey(e)),
        Ok(decoded) => {
            if decoded.len() != 64 {
                let mut m = String::from_str("Private key must be 64 bytes (Base58 decoded), got ");
                let digits = u64_to_string(decoded.len() as u64);
                m.append(digits.as_str());
                Err(WalletError::InvalidPrivateKey(m))
            } else if !sk_check(decoded.as_slice()) {
                Err(WalletError::InvalidPrivateKey(String::from_str("Invalid secret key")))
            } else {
                Ok(decoded)
            }
        },
    }
}

/// Draws random 64-byte keys until one reduces to an accepted scalar and
/// returns the raw bytes Base58-encoded. Rejection is astronomically rare,
/// so the retry bound is a defensive cap, not a hot loop.
pub fn generate_private_key_base58() -> (r: Result<String, WalletError>)
    ensures
        r matches Ok(s) ==> privkey_decoded(s@) is Some && (exists|b: Seq<u8>|
            b.len() == 64 && #[trigger] sk_ok(b) && s@ == b58_of(b)),
        r matches Err(e) ==> e is Crypto,
{
    let mut attempts: usize = 0;
    while attempts < 64
        invariant
            attempts <= 64,
        decreases 64 - attempts,
    {
        let v = random_bytes(64);
        if sk_check(v.as_slice()) {
            let s = b58_encode(v.as_slice());
            proof {
                assert(v@.len() == 64 && sk_ok(v@) && s@ == b58_of(v@));
                assert(privkey_decoded(s@) == Some(v@));
            }
            return Ok(s);
        }
        attempts = attempts + 1;
    }
    Err(WalletError::Crypto(String::from_str("Random key generation failed")))
}

/// Derives the Base58 public key (the account address) from a Base58 private
/// key: deterministic, so equal inputs give byte-identical output.
pub fn public_key_from_private_base58(private_key_base58: &str) -> (r: Result<
    String,
    WalletError,
>)
    ensures
        r is Ok <==> privkey_decoded(private_key_base58@) is Some,
        r matches Ok(pk) ==> pk@ == b58_of(pubkey_of(privkey_decoded(private_key_base58@)->0)),
        r matches Err(e) ==> e is InvalidPrivateKey,
{
    let sk = decode_private_key_base58(private_key_base58)?;
    let pk = derive_pubkey(sk.as_slice());
    Ok(b58_encode(pk.as_slice()))
}

/// Derives the raw 48-byte compressed public key from a Base58 private key.
pub fn public_key_bytes_from_private_base58(private_key_base58: &str) -> (r: Result<
    Vec<u8>,
    WalletError,
>)
    ensures
        r is Ok <==> privkey_decoded(private_key_base58@) is Some,
        r matches Ok(pk) ==> pk@ == pubkey_of(privkey_decoded(private_key_base58@)->0)
            && pk@.len() == 48,
        r matches Err(e) ==> e is InvalidPrivateKey,
{
    let sk = decode_private_key_base58(private_key_base58)?;
    let pk = derive_pubkey(sk.as_slice());
    Ok(pk)
}

/// Decodes a private key and re-encodes it, canonicalizing its Base58 text:
/// the result decodes back to the same 64 bytes, carries no surrounding
/// whitespace, and so parses again to itself.
pub fn parse_private_key_base58(base58_str: &str) -> (r: Result<String, WalletError>)
    ensures
        r is Ok <==> privkey_decoded(base58_str@) is Some,
        r matches Ok(s) ==> s@ == b58_of(privkey_decoded(base58_str@)->0),
        r matches Ok(s) ==> b58_decode_of(s@) == Some(privkey_decoded(base58_str@)->0)
            && trim_spec(s@) == s@,
        r matches Err(e) ==> e is InvalidPrivateKey,
{
    let decoded = decode_private_key_base58(base58_str)?;
    Ok(b58_encode(decoded.as_slice()))
}

/// Validates an address: true exactly when the trimmed text Base58-decodes
/// to 48 bytes; text outside the alphabet is a hard decode error.
pub fn validate_public_key_base58(s: &str) -> (r: Result<bool, WalletError>)
    ensures
        b58_decode_of(trim_spec(s@)) matches Some(d) ==> r == Ok::<bool, WalletError>(
            d.len() == 48,
        ),
        b58_decode_of(trim_spec(s@)) is None ==> (r matches Err(e) && e is InvalidPrivateKey),
{
    let trimmed = trim_str(s);
    match b58_decode(trimmed.as_str()) {
        Err(e) => Err(WalletError::InvalidPrivateKey(e)),
        Ok(decoded) => Ok(decoded.len() == 48),
    }
}

/// Signs a 32-byte digest with the supplied domain-separation tag, returning
/// the 96-byte BLS signature.
pub fn sign_hash_with_dst(sk_bytes: &[u8], hash: &[u8], dst: &[u8]) -> (r: Result<
    Vec<u8>,
    WalletError,
>)
    requires
        sk_bytes@.len() == 64,
        hash@.len() == 32,
    ensures
        r is Ok <==> sk_ok(sk_bytes@),
        r matches Ok(s) ==> s@ == sig_of(sk_bytes@, hash@, dst@) && s@.len() == 96,
        r matches Err(e) ==> e is Crypto,
{
    match bls_sign_raw(sk_bytes, hash, dst) {
        Ok(s) => Ok(s),
        Err(e) => Err(WalletError::Crypto(e)),
    }
}

} // verus!
