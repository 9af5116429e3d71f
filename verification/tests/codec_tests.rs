use amadeus_wallet::amount::amount_to_flat_units;
use amadeus_wallet::error::WalletError;
use amadeus_wallet::keys::{decode_private_key_base58, generate_private_key_base58,
    public_key_bytes_from_private_base58, sign_hash_with_dst};
use amadeus_wallet::tx::{build_coin_transfer, build_coin_transfer_with_nonce, encode_tx_action};
use amadeus_wallet::vecpak::{encode_binary, vecpak_binary, vecpak_int, vecpak_list,
    vecpak_proplist, vecpak_varint};
use sha2::Digest;

const DST: &[u8] = b"AMADEUS_SIG_BLS12381G2_XMD:SHA-256_SSWU_RO_TX_";

fn crypto_msg(r: Result<String, WalletError>) -> String {
    match r {
        Err(WalletError::Crypto(m)) => m,
        other => panic!("expected a crypto error, got {:?}", other.map(|_| ())),
    }
}

#[test]
fn amount_conversions_match_documented_values() {
    assert_eq!(amount_to_flat_units("1.5").unwrap(), "1500000000");
    assert_eq!(amount_to_flat_units("0").unwrap(), "0");
    assert_eq!(amount_to_flat_units(" 2 ").unwrap(), "2000000000");
    assert_eq!(amount_to_flat_units("0.000000001").unwrap(), "1");
    assert_eq!(amount_to_flat_units(".5").unwrap(), "500000000");
    assert_eq!(amount_to_flat_units("3.").unwrap(), "3000000000");
    assert_eq!(amount_to_flat_units("+1").unwrap(), "1000000000");
    assert_eq!(amount_to_flat_units("-0").unwrap(), "0");
    // rounding half away from zero at the ninth decimal place
    assert_eq!(amount_to_flat_units("0.0000000005").unwrap(), "1");
    assert_eq!(amount_to_flat_units("0.0000000004").unwrap(), "0");
    assert_eq!(amount_to_flat_units("0.9999999995").unwrap(), "1000000000");
    // the largest representable amount, and one step beyond
    assert_eq!(
        amount_to_flat_units("18446744073.709551615").unwrap(),
        "18446744073709551615"
    );
    assert_eq!(crypto_msg(amount_to_flat_units("18446744073.709551616")), "Amount too large");
    assert_eq!(crypto_msg(amount_to_flat_units("99999999999999")), "Amount too large");
}

#[test]
fn amount_exponent_notation() {
    assert_eq!(amount_to_flat_units("1e3").unwrap(), "1000000000000");
    assert_eq!(amount_to_flat_units("1E3").unwrap(), "1000000000000");
    assert_eq!(amount_to_flat_units("2.5e-1").unwrap(), "250000000");
    assert_eq!(amount_to_flat_units("1e-9").unwrap(), "1");
    assert_eq!(amount_to_flat_units("5e-10").unwrap(), "1");
    assert_eq!(amount_to_flat_units("4e-10").unwrap(), "0");
    assert_eq!(amount_to_flat_units("1e+2").unwrap(), "100000000000");
    assert_eq!(amount_to_flat_units("0.0001e4").unwrap(), "1000000000");
    assert_eq!(amount_to_flat_units(".5e1").unwrap(), "5000000000");
    assert_eq!(amount_to_flat_units("1e-999").unwrap(), "0");
    assert_eq!(amount_to_flat_units("0e999999999999999999999999").unwrap(), "0");
    assert_eq!(crypto_msg(amount_to_flat_units("1e999")), "Amount too large");
    assert_eq!(
        crypto_msg(amount_to_flat_units("1e999999999999999999999999999999999999999999")),
        "Amount too large"
    );
    assert_eq!(crypto_msg(amount_to_flat_units("1e")), "Invalid amount: 1e");
    assert_eq!(crypto_msg(amount_to_flat_units("e3")), "Invalid amount: e3");
    assert_eq!(crypto_msg(amount_to_flat_units("1e2e3")), "Invalid amount: 1e2e3");
    assert_eq!(crypto_msg(amount_to_flat_units("1e2.5")), "Invalid amount: 1e2.5");
    assert_eq!(
        crypto_msg(amount_to_flat_units("-1e3")),
        "Amount must be a non-negative number"
    );
    assert_eq!(amount_to_flat_units("-0e3").unwrap(), "0");
}

#[test]
fn amount_conversion_rejections() {
    assert_eq!(crypto_msg(amount_to_flat_units("")), "Amount cannot be empty");
    assert_eq!(crypto_msg(amount_to_flat_units("   ")), "Amount cannot be empty");
    assert_eq!(crypto_msg(amount_to_flat_units("abc")), "Invalid amount: abc");
    assert_eq!(crypto_msg(amount_to_flat_units("1.2.3")), "Invalid amount: 1.2.3");
    assert_eq!(crypto_msg(amount_to_flat_units(".")), "Invalid amount: .");
    assert_eq!(
        crypto_msg(amount_to_flat_units("-1")),
        "Amount must be a non-negative number"
    );
    assert_eq!(
        crypto_msg(amount_to_flat_units("-0.5")),
        "Amount must be a non-negative number"
    );
}

#[test]
fn varint_encodings_are_exact() {
    let mut b = Vec::new();
    vecpak_varint(&mut b, 0);
    assert_eq!(b, vec![0]);
    let mut b = Vec::new();
    vecpak_varint(&mut b, 1);
    assert_eq!(b, vec![1, 1]);
    let mut b = Vec::new();
    vecpak_varint(&mut b, -1);
    assert_eq!(b, vec![129, 1]);
    let mut b = Vec::new();
    vecpak_varint(&mut b, 256);
    assert_eq!(b, vec![2, 1, 0]);
    let mut b = Vec::new();
    vecpak_varint(&mut b, -65536);
    assert_eq!(b, vec![131, 1, 0, 0]);
}

#[test]
fn tagged_encodings_are_exact() {
    let mut b = Vec::new();
    vecpak_binary(&mut b, b"hi");
    assert_eq!(b, vec![5, 1, 2, b'h', b'i']);
    let mut b = Vec::new();
    vecpak_int(&mut b, 7);
    assert_eq!(b, vec![3, 1, 7]);
    let items = vec![encode_binary(b"a"), encode_binary(b"b")];
    let mut b = Vec::new();
    vecpak_list(&mut b, &items);
    assert_eq!(b, vec![6, 1, 2, 5, 1, 1, b'a', 5, 1, 1, b'b']);
}

#[test]
fn proplist_encoding_is_order_independent() {
    let int1 = {
        let mut v = Vec::new();
        vecpak_int(&mut v, 1);
        v
    };
    let int2 = {
        let mut v = Vec::new();
        vecpak_int(&mut v, 2);
        v
    };
    let pairs_ba = vec![
        (encode_binary(b"b"), int1.clone()),
        (encode_binary(b"a"), int2.clone()),
    ];
    let pairs_ab = vec![
        (encode_binary(b"a"), int2),
        (encode_binary(b"b"), int1),
    ];
    let mut out1 = Vec::new();
    vecpak_proplist(&mut out1, pairs_ba);
    let mut out2 = Vec::new();
    vecpak_proplist(&mut out2, pairs_ab);
    assert_eq!(out1, out2);
    // sorted ascending by encoded key: "a" then "b"
    assert_eq!(
        out1,
        vec![7, 1, 2, 5, 1, 1, b'a', 3, 1, 2, 5, 1, 1, b'b', 3, 1, 1]
    );
}

#[test]
fn coin_transfer_envelope_matches_manual_assembly() {
    let sk_text = generate_private_key_base58().unwrap();
    let sk = decode_private_key_base58(&sk_text).unwrap();
    let recipient_bytes = [9u8; 48];
    let recipient = bs58::encode(recipient_bytes).into_string();
    let nonce: i128 = 1717171717000000000;

    let env1 = build_coin_transfer_with_nonce(&sk_text, &recipient, "1.5", "AMA", nonce).unwrap();
    let env2 = build_coin_transfer_with_nonce(&sk_text, &recipient, "1.5", "AMA", nonce).unwrap();
    assert_eq!(env1, env2);
    let env3 =
        build_coin_transfer_with_nonce(&sk_text, &recipient, "1.5", "AMA", nonce + 1).unwrap();
    assert_ne!(env1, env3);

    // rebuild the same envelope from the documented pieces
    let pk = public_key_bytes_from_private_base58(&sk_text).unwrap();
    let args = vec![
        recipient_bytes.to_vec(),
        b"1500000000".to_vec(),
        b"AMA".to_vec(),
    ];
    let action = encode_tx_action(b"Coin", b"transfer", &args, None, None);
    let mut nonce_buf = Vec::new();
    vecpak_int(&mut nonce_buf, nonce);
    let tx_pairs = vec![
        (encode_binary(b"action"), action),
        (encode_binary(b"nonce"), nonce_buf),
        (encode_binary(b"signer"), encode_binary(&pk)),
    ];
    let mut tx_ser = Vec::new();
    vecpak_proplist(&mut tx_ser, tx_pairs);
    let hash: [u8; 32] = sha2::Sha256::digest(&tx_ser).into();
    let sig = sign_hash_with_dst(&sk, &hash, DST).unwrap();
    assert_eq!(sig.len(), 96);
    let env_pairs = vec![
        (encode_binary(b"hash"), encode_binary(&hash)),
        (encode_binary(b"signature"), encode_binary(&sig)),
        (encode_binary(b"tx"), tx_ser),
    ];
    let mut expected = Vec::new();
    vecpak_proplist(&mut expected, env_pairs);
    assert_eq!(env1, expected);

    // both signatures verify against the same derived public key
    let pk_point = blst::min_pk::PublicKey::from_bytes(&pk).unwrap();
    let sig_point = blst::min_pk::Signature::from_bytes(&sig).unwrap();
    assert_eq!(
        sig_point.verify(true, &hash, DST, &[], &pk_point, true),
        blst::BLST_ERROR::BLST_SUCCESS
    );
    let sig2 = sign_hash_with_dst(&sk, &[1u8; 32], DST).unwrap();
    let sig2_point = blst::min_pk::Signature::from_bytes(&sig2).unwrap();
    assert_eq!(
        sig2_point.verify(true, &[1u8; 32], DST, &[], &pk_point, true),
        blst::BLST_ERROR::BLST_SUCCESS
    );
}

#[test]
fn transfer_rejects_bad_recipient_before_signing() {
    let sk_text = generate_private_key_base58().unwrap();
    let short = bs58::encode([1u8; 47]).into_string();
    match build_coin_transfer_with_nonce(&sk_text, &short, "1", "AMA", 5) {
        Err(WalletError::InvalidPrivateKey(m)) => {
            assert_eq!(m, "Recipient must be 48 bytes (Base58), got 47")
        }
        _ => panic!("expected a recipient rejection"),
    }
    let long = bs58::encode([1u8; 49]).into_string();
    assert!(matches!(
        build_coin_transfer_with_nonce(&sk_text, &long, "1", "AMA", 5),
        Err(WalletError::InvalidPrivateKey(_))
    ));
}

#[test]
fn transfer_defaults_symbol_and_takes_clock_nonce() {
    let sk_text = generate_private_key_base58().unwrap();
    let recipient = bs58::encode([2u8; 48]).into_string();
    let with_default = build_coin_transfer_with_nonce(&sk_text, &recipient, "1", "", 5).unwrap();
    let with_ama = build_coin_transfer_with_nonce(&sk_text, &recipient, "1", "AMA", 5).unwrap();
    assert_eq!(with_default, with_ama);
    let a = build_coin_transfer(&sk_text, &recipient, "1", "AMA").unwrap();
    let mut b = build_coin_transfer(&sk_text, &recipient, "1", "AMA").unwrap();
    let mut tries = 0;
    while b == a && tries < 1000 {
        b = build_coin_transfer(&sk_text, &recipient, "1", "AMA").unwrap();
        tries += 1;
    }
    assert_ne!(a, b);
}
