use crate::amount::{amount_to_flat_units, flat_units_of};
use crate::error::WalletError;
use crate::keys::{
    b58_decode, b58_decode_of, decode_private_key_base58, derive_pubkey, privkey_decoded,
    pubkey_of, sig_of, sign_hash_with_dst,
};
use crate::text::{dec_digits, str_to_bytes, trim_spec, trim_str, u64_to_string, utf8_bytes_of};
use crate::vecpak::{
    be_bytes, blob_bytes, bytes_le, encode_binary, int_bytes, lemma_int_bytes_injective,
    lemma_pair_ord_total, list_bytes, pair_le, pair_ord, pair_views, proplist_bytes, varint_bytes,
    vecpak_int, vecpak_list, vecpak_proplist, views_of,
};
use sha2::Digest;
use vstd::prelude::*;
use vstd::string::*;

verus! {

/// The SHA-256 digest of a byte string.
pub uninterp spec fn sha256_of(data: Seq<u8>) -> Seq<u8>;

/// Relies on `sha2::Sha256::digest`: the 32-byte SHA-256 digest, a function
/// of the input alone.
#[verifier::external_body]
fn sha256(data: &[u8]) -> (r: Vec<u8>)
    ensures
        r@ == sha256_of(data@),
        r@.len() == 32,
{
    let digest: [u8; 32] = sha2::Sha256::digest(data).into();
    digest.to_vec()
}

/// Relies on `SystemTime::now`: the wall clock as nanoseconds since the
/// epoch, falling back to zero when the clock cannot be read; never
/// negative, and nothing more can be promised of a clock.
#[verifier::external_body]
fn now_nanos() -> (r: i128)
    ensures
        r >= 0,
{
    std::time::SystemTime::now()
        .duration_since(std::time::UNIX_EPOCH)
        .ok()
        .and_then(|d| i128::try_from(d.as_nanos()).ok())
        .unwrap_or(0)
}

/// The domain-separation tag mixed into every transaction signature.
pub open spec fn dst_tx_bytes() -> Seq<u8> {
    "AMADEUS_SIG_BLS12381G2_XMD:SHA-256_SSWU_RO_TX_".spec_bytes()
}

pub open spec fn opt_bytes(o: Option<&[u8]>) -> Option<Seq<u8>> {
    match o {
        Some(b) => Some(b@),
        None => None,
    }
}

/// The entries of a transaction action: `args` as an encoded list, the
/// contract and function names, the constant operation, and the attached
/// pair only when both halves are supplied.
pub open spec fn action_pairs(
    contract: Seq<u8>,
    function: Seq<u8>,
    args: Seq<Seq<u8>>,
    attached_symbol: Option<Seq<u8>>,
    attached_amount: Option<Seq<u8>>,
) -> Seq<(Seq<u8>, Seq<u8>)> {
    let base = seq![
        (blob_bytes("args".spec_bytes()), list_bytes(args.map_values(|a: Seq<u8>| blob_bytes(a)))),
        (blob_bytes("contract".spec_bytes()), blob_bytes(contract)),
        (blob_bytes("function".spec_bytes()), blob_bytes(function)),
        (blob_bytes("op".spec_bytes()), blob_bytes("call".spec_bytes())),
    ];
    if attached_symbol is Some && attached_amount is Some {
        base.push((blob_bytes("attached_amount".spec_bytes()), blob_bytes(attached_amount->0)))
            .push((blob_bytes("attached_symbol".spec_bytes()), blob_bytes(attached_symbol->0)))
    } else {
        base
    }
}

/// The encoded action: its entries as a sorted property map.
pub open spec fn action_bytes(
    contract: Seq<u8>,
    function: Seq<u8>,
    args: Seq<Seq<u8>>,
    attached_symbol: Option<Seq<u8>>,
    attached_amount: Option<Seq<u8>>,
) -> Seq<u8> {
    proplist_bytes(action_pairs(contract, function, args, attached_symbol, attached_amount))
}

/// The serialized transaction document: action, nonce and signer as a
/// sorted property map.
pub open spec fn tx_doc_bytes(action: Seq<u8>, nonce: int, signer: Seq<u8>) -> Seq<u8> {
    proplist_bytes(
        seq![
            (blob_bytes("action".spec_bytes()), action),
            (blob_bytes("nonce".spec_bytes()), int_bytes(nonce)),
            (blob_bytes("signer".spec_bytes()), blob_bytes(signer)),
        ],
    )
}

proof fn lemma_doc_key_bytes()
    ensures
        "action".spec_bytes() =~= seq![97u8, 99u8, 116u8, 105u8, 111u8, 110u8],
        "nonce".spec_bytes() =~= seq![110u8, 111u8, 110u8, 99u8, 101u8],
        "signer".spec_bytes() =~= seq![115u8, 105u8, 103u8, 110u8, 101u8, 114u8],
{
    broadcast use vstd::string::group_string_axioms;

    reveal_strlit("action");
    reveal_strlit("nonce");
    reveal_strlit("signer");
    assert(vstd::utf8::is_ascii_chars("action"@));
    assert(vstd::utf8::is_ascii_chars("nonce"@));
    assert(vstd::utf8::is_ascii_chars("signer"@));
    vstd::utf8::is_ascii_chars_encode_utf8("action"@);
    vstd::utf8::is_ascii_chars_encode_utf8("nonce"@);
    vstd::utf8::is_ascii_chars_encode_utf8("signer"@);
}

/// The canonical serialized form of a transaction document: its three
/// entries in their sorted order, nonce first, then action, then signer.
proof fn lemma_doc_canonical(action: Seq<u8>, nonce: int, signer: Seq<u8>)
    ensures
        tx_doc_bytes(action, nonce, signer) == seq![7u8, 1u8, 3u8] + blob_bytes(
            "nonce".spec_bytes(),
        ) + int_bytes(nonce) + blob_bytes("action".spec_bytes()) + action + blob_bytes(
            "signer".spec_bytes(),
        ) + blob_bytes(signer),
{
    broadcast use {
        vstd::seq_lib::group_to_multiset_ensures,
        vstd::multiset::group_multiset_axioms,
    };

    lemma_doc_key_bytes();
    let ka = blob_bytes("action".spec_bytes());
    let kn = blob_bytes("nonce".spec_bytes());
    let ks = blob_bytes("signer".spec_bytes());
    reveal_with_fuel(be_bytes, 3);
    assert(ka =~= seq![5u8, 1u8, 6u8, 97u8, 99u8, 116u8, 105u8, 111u8, 110u8]);
    assert(kn =~= seq![5u8, 1u8, 5u8, 110u8, 111u8, 110u8, 99u8, 101u8]);
    assert(ks =~= seq![5u8, 1u8, 6u8, 115u8, 105u8, 103u8, 110u8, 101u8, 114u8]);
    reveal_with_fuel(crate::vecpak::bytes_le, 12);
    assert(bytes_le(kn, ka)) by {
        assert(kn.drop_first() =~= seq![1u8, 5u8, 110u8, 111u8, 110u8, 99u8, 101u8]);
        assert(ka.drop_first() =~= seq![1u8, 6u8, 97u8, 99u8, 116u8, 105u8, 111u8, 110u8]);
        assert(kn.drop_first().drop_first() =~= seq![5u8, 110u8, 111u8, 110u8, 99u8, 101u8]);
        assert(ka.drop_first().drop_first() =~= seq![6u8, 97u8, 99u8, 116u8, 105u8, 111u8, 110u8]);
    }
    assert(bytes_le(kn, ks)) by {
        assert(kn.drop_first() =~= seq![1u8, 5u8, 110u8, 111u8, 110u8, 99u8, 101u8]);
        assert(ks.drop_first() =~= seq![1u8, 6u8, 115u8, 105u8, 103u8, 110u8, 101u8, 114u8]);
        assert(kn.drop_first().drop_first() =~= seq![5u8, 110u8, 111u8, 110u8, 99u8, 101u8]);
        assert(ks.drop_first().drop_first() =~= seq![
            6u8,
            115u8,
            105u8,
            103u8,
            110u8,
            101u8,
            114u8,
        ]);
    }
    assert(bytes_le(ka, ks)) by {
        assert(ka.drop_first() =~= seq![1u8, 6u8, 97u8, 99u8, 116u8, 105u8, 111u8, 110u8]);
        assert(ks.drop_first() =~= seq![1u8, 6u8, 115u8, 105u8, 103u8, 110u8, 101u8, 114u8]);
        assert(ka.drop_first().drop_first() =~= seq![6u8, 97u8, 99u8, 116u8, 105u8, 111u8, 110u8]);
        assert(ks.drop_first().drop_first() =~= seq![
            6u8,
            115u8,
            105u8,
            103u8,
            110u8,
            101u8,
            114u8,
        ]);
        assert(ka.drop_first().drop_first().drop_first() =~= seq![
            97u8,
            99u8,
            116u8,
            105u8,
            111u8,
            110u8,
        ]);
        assert(ks.drop_first().drop_first().drop_first() =~= seq![
            115u8,
            105u8,
            103u8,
            110u8,
            101u8,
            114u8,
        ]);
    }
    let pa = (ka, action);
    let pn = (kn, int_bytes(nonce));
    let ps = (ks, blob_bytes(signer));
    let given = seq![pa, pn, ps];
    let sorted = seq![pn, pa, ps];
    assert(pair_le(pn, pa) && pair_le(pn, ps) && pair_le(pa, ps));
    assert(vstd::relations::sorted_by(sorted, pair_ord())) by {
        assert(pair_ord()(sorted[0], sorted[1]));
        assert(pair_ord()(sorted[0], sorted[2]));
        assert(pair_ord()(sorted[1], sorted[2]));
    }
    assert(given.to_multiset() =~= sorted.to_multiset()) by {
        assert(given =~= Seq::<(Seq<u8>, Seq<u8>)>::empty().push(pa).push(pn).push(ps));
        assert(sorted =~= Seq::<(Seq<u8>, Seq<u8>)>::empty().push(pn).push(pa).push(ps));
    }
    lemma_pair_ord_total();
    given.lemma_sort_by_ensures(pair_ord());
    vstd::seq_lib::lemma_sorted_unique(given.sort_by(pair_ord()), sorted, pair_ord());
    assert(given.sort_by(pair_ord()) == sorted);
    assert(crate::vecpak::cat_pairs(sorted) =~= kn + int_bytes(nonce) + ka + action + ks
        + blob_bytes(signer)) by {
        reveal_with_fuel(crate::vecpak::cat_pairs, 5);
        assert(sorted.drop_last() =~= seq![pn, pa]);
        assert(seq![pn, pa].drop_last() =~= seq![pn]);
        assert(seq![pn].drop_last() =~= Seq::<(Seq<u8>, Seq<u8>)>::empty());
    }
    assert(varint_bytes(3) =~= seq![1u8, 3u8]);
    assert(tx_doc_bytes(action, nonce, signer) =~= seq![7u8, 1u8, 3u8] + kn + int_bytes(nonce)
        + ka + action + ks + blob_bytes(signer));
}

/// Different nonces give different serialized transaction documents, and so
/// different digests to sign: the rest of the document being equal, the
/// nonce entry alone tells the two encodings apart.
pub proof fn lemma_nonce_distinguishes_documents(
    action: Seq<u8>,
    signer: Seq<u8>,
    n1: int,
    n2: int,
)
    requires
        -(0x80000000000000000000000000000000int) <= n1 <= 0x7fffffffffffffffffffffffffffffffint,
        -(0x80000000000000000000000000000000int) <= n2 <= 0x7fffffffffffffffffffffffffffffffint,
        n1 != n2,
    ensures
        tx_doc_bytes(action, n1, signer) != tx_doc_bytes(action, n2, signer),
{
    lemma_doc_canonical(action, n1, signer);
    lemma_doc_canonical(action, n2, signer);
    if tx_doc_bytes(action, n1, signer) == tx_doc_bytes(action, n2, signer) {
        let kn = blob_bytes("nonce".spec_bytes());
        let suffix = blob_bytes("action".spec_bytes()) + action + blob_bytes(
            "signer".spec_bytes(),
        ) + blob_bytes(signer);
        let d1 = tx_doc_bytes(action, n1, signer);
        let d2 = tx_doc_bytes(action, n2, signer);
        let p = 3 + kn.len() as int;
        let l1 = int_bytes(n1).len() as int;
        let l2 = int_bytes(n2).len() as int;
        assert(d1 =~= (seq![7u8, 1u8, 3u8] + kn + int_bytes(n1)) + suffix);
        assert(d2 =~= (seq![7u8, 1u8, 3u8] + kn + int_bytes(n2)) + suffix);
        assert(d1.len() == p + l1 + suffix.len());
        assert(d2.len() == p + l2 + suffix.len());
        assert(l1 == l2);
        assert(int_bytes(n1) =~= d1.subrange(p, p + l1)) by {
            assert(forall|i: int|
                0 <= i < l1 ==> d1[p + i] == #[trigger] int_bytes(n1)[i]);
        }
        assert(int_bytes(n2) =~= d2.subrange(p, p + l2)) by {
            assert(forall|i: int|
                0 <= i < l2 ==> d2[p + i] == #[trigger] int_bytes(n2)[i]);
        }
        lemma_int_bytes_injective(n1, n2);
    }
}

/// The signed envelope: digest, signature and raw document bytes as a
/// sorted property map.
pub open spec fn envelope_bytes(hash: Seq<u8>, signature: Seq<u8>, tx: Seq<u8>) -> Seq<u8> {
    proplist_bytes(
        seq![
            (blob_bytes("hash".spec_bytes()), blob_bytes(hash)),
            (blob_bytes("signature".spec_bytes()), blob_bytes(signature)),
            (blob_bytes("tx".spec_bytes()), tx),
        ],
    )
}

proof fn lemma_env_key_bytes()
    ensures
        "hash".spec_bytes() =~= seq![104u8, 97u8, 115u8, 104u8],
        "signature".spec_bytes() =~= seq![
            115u8,
            105u8,
            103u8,
            110u8,
            97u8,
            116u8,
            117u8,
            114u8,
            101u8,
        ],
        "tx".spec_bytes() =~= seq![116u8, 120u8],
{
    broadcast use vstd::string::group_string_axioms;

    reveal_strlit("hash");
    reveal_strlit("signature");
    reveal_strlit("tx");
    assert(vstd::utf8::is_ascii_chars("hash"@));
    assert(vstd::utf8::is_ascii_chars("signature"@));
    assert(vstd::utf8::is_ascii_chars("tx"@));
    vstd::utf8::is_ascii_chars_encode_utf8("hash"@);
    vstd::utf8::is_ascii_chars_encode_utf8("signature"@);
    vstd::utf8::is_ascii_chars_encode_utf8("tx"@);
}

/// The canonical serialized form of a signed envelope: its three entries in
/// their sorted order, the raw document first, then hash, then signature.
proof fn lemma_env_canonical(hash: Seq<u8>, signature: Seq<u8>, tx: Seq<u8>)
    ensures
        envelope_bytes(hash, signature, tx) == seq![7u8, 1u8, 3u8] + blob_bytes(
            "tx".spec_bytes(),
        ) + tx + blob_bytes("hash".spec_bytes()) + blob_bytes(hash) + blob_bytes(
            "signature".spec_bytes(),
        ) + blob_bytes(signature),
{
    broadcast use {
        vstd::seq_lib::group_to_multiset_ensures,
        vstd::multiset::group_multiset_axioms,
    };

    lemma_env_key_bytes();
    let kh = blob_bytes("hash".spec_bytes());
    let kg = blob_bytes("signature".spec_bytes());
    let kt = blob_bytes("tx".spec_bytes());
    reveal_with_fuel(be_bytes, 3);
    assert(kh =~= seq![5u8, 1u8, 4u8, 104u8, 97u8, 115u8, 104u8]);
    assert(kg =~= seq![
        5u8,
        1u8,
        9u8,
        115u8,
        105u8,
        103u8,
        110u8,
        97u8,
        116u8,
        117u8,
        114u8,
        101u8,
    ]);
    assert(kt =~= seq![5u8, 1u8, 2u8, 116u8, 120u8]);
    reveal_with_fuel(crate::vecpak::bytes_le, 6);
    assert(bytes_le(kt, kh)) by {
        assert(kt.drop_first() =~= seq![1u8, 2u8, 116u8, 120u8]);
        assert(kh.drop_first() =~= seq![1u8, 4u8, 104u8, 97u8, 115u8, 104u8]);
        assert(kt.drop_first().drop_first() =~= seq![2u8, 116u8, 120u8]);
        assert(kh.drop_first().drop_first() =~= seq![4u8, 104u8, 97u8, 115u8, 104u8]);
    }
    assert(bytes_le(kt, kg)) by {
        assert(kt.drop_first() =~= seq![1u8, 2u8, 116u8, 120u8]);
        assert(kg.drop_first() =~= seq![
            1u8,
            9u8,
            115u8,
            105u8,
            103u8,
            110u8,
            97u8,
            116u8,
            117u8,
            114u8,
            101u8,
        ]);
        assert(kt.drop_first().drop_first() =~= seq![2u8, 116u8, 120u8]);
        assert(kg.drop_first().drop_first() =~= seq![
            9u8,
            115u8,
            105u8,
            103u8,
            110u8,
            97u8,
            116u8,
            117u8,
            114u8,
            101u8,
        ]);
    }
    assert(bytes_le(kh, kg)) by {
        assert(kh.drop_first() =~= seq![1u8, 4u8, 104u8, 97u8, 115u8, 104u8]);
        assert(kg.drop_first() =~= seq![
            1u8,
            9u8,
            115u8,
            105u8,
            103u8,
            110u8,
            97u8,
            116u8,
            117u8,
            114u8,
            101u8,
        ]);
        assert(kh.drop_first().drop_first() =~= seq![4u8, 104u8, 97u8, 115u8, 104u8]);
        assert(kg.drop_first().drop_first() =~= seq![
            9u8,
            115u8,
            105u8,
            103u8,
            110u8,
            97u8,
            116u8,
            117u8,
            114u8,
            101u8,
        ]);
    }
    let ph = (kh, blob_bytes(hash));
    let pg = (kg, blob_bytes(signature));
    let pt = (kt, tx);
    let given = seq![ph, pg, pt];
    let sorted = seq![pt, ph, pg];
    assert(pair_le(pt, ph) && pair_le(pt, pg) && pair_le(ph, pg));
    assert(vstd::relations::sorted_by(sorted, pair_ord())) by {
        assert(pair_ord()(sorted[0], sorted[1]));
        assert(pair_ord()(sorted[0], sorted[2]));
        assert(pair_ord()(sorted[1], sorted[2]));
    }
    assert(given.to_multiset() =~= sorted.to_multiset()) by {
        assert(given =~= Seq::<(Seq<u8>, Seq<u8>)>::empty().push(ph).push(pg).push(pt));
        assert(sorted =~= Seq::<(Seq<u8>, Seq<u8>)>::empty().push(pt).push(ph).push(pg));
    }
    lemma_pair_ord_total();
    given.lemma_sort_by_ensures(pair_ord());
    vstd::seq_lib::lemma_sorted_unique(given.sort_by(pair_ord()), sorted, pair_ord());
    assert(given.sort_by(pair_ord()) == sorted);
    assert(crate::vecpak::cat_pairs(sorted) =~= kt + tx + kh + blob_bytes(hash) + kg
        + blob_bytes(signature)) by {
        reveal_with_fuel(crate::vecpak::cat_pairs, 5);
        assert(sorted.drop_last() =~= seq![pt, ph]);
        assert(seq![pt, ph].drop_last() =~= seq![pt]);
        assert(seq![pt].drop_last() =~= Seq::<(Seq<u8>, Seq<u8>)>::empty());
    }
    assert(varint_bytes(3) =~= seq![1u8, 3u8]);
    assert(envelope_bytes(hash, signature, tx) =~= seq![7u8, 1u8, 3u8] + kt + tx + kh
        + blob_bytes(hash) + kg + blob_bytes(signature));
}

/// Two documents with different nonces differ at a byte position inside
/// both: the nonce entry's varint header where the encodings have different
/// lengths, or a magnitude byte where they do not.
proof fn lemma_doc_nonce_index(action: Seq<u8>, signer: Seq<u8>, n1: int, n2: int)
    requires
        -(0x80000000000000000000000000000000int) <= n1 <= 0x7fffffffffffffffffffffffffffffffint,
        -(0x80000000000000000000000000000000int) <= n2 <= 0x7fffffffffffffffffffffffffffffffint,
        n1 != n2,
    ensures
        exists|i: int|
            0 <= i < tx_doc_bytes(action, n1, signer).len() && i < tx_doc_bytes(
                action,
                n2,
                signer,
            ).len() && #[trigger] tx_doc_bytes(action, n1, signer)[i] != tx_doc_bytes(
                action,
                n2,
                signer,
            )[i],
{
    lemma_doc_canonical(action, n1, signer);
    lemma_doc_canonical(action, n2, signer);
    let d1 = tx_doc_bytes(action, n1, signer);
    let d2 = tx_doc_bytes(action, n2, signer);
    let kn = blob_bytes("nonce".spec_bytes());
    let q0 = 3 + kn.len() as int;
    let b1 = int_bytes(n1);
    let b2 = int_bytes(n2);
    assert(forall|j: int| 0 <= j < b1.len() ==> d1[q0 + j] == #[trigger] b1[j]);
    assert(forall|j: int| 0 <= j < b2.len() ==> d2[q0 + j] == #[trigger] b2[j]);
    if b1.len() == b2.len() {
        assert(b1 != b2) by {
            if b1 == b2 {
                lemma_int_bytes_injective(n1, n2);
            }
        }
        assert(exists|j: int| 0 <= j < b1.len() && #[trigger] b1[j] != b2[j]) by {
            if forall|j: int| 0 <= j < b1.len() ==> #[trigger] b1[j] == b2[j] {
                assert(b1 =~= b2);
            }
        }
        let j = choose|j: int| 0 <= j < b1.len() && #[trigger] b1[j] != b2[j];
        assert(d1[q0 + j] != d2[q0 + j]);
    } else {
        // the varint header byte encodes the magnitude length, so it differs
        crate::vecpak::lemma_be_bytes_len_u128(crate::vecpak::abs_int(n1));
        crate::vecpak::lemma_be_bytes_len_u128(crate::vecpak::abs_int(n2));
        assert(b1[1] != b2[1]);
        assert(d1[q0 + 1] != d2[q0 + 1]);
    }
}

/// For any fixed key, recipient, amount and symbol, two transfers built at
/// different nonces serialize to different envelopes: the nonce alone tells
/// the two signed transactions apart.
pub proof fn lemma_nonce_distinguishes_transfers(
    sk: Seq<u8>,
    recipient: Seq<u8>,
    amount_text: Seq<char>,
    symbol: Seq<char>,
    n1: int,
    n2: int,
)
    requires
        -(0x80000000000000000000000000000000int) <= n1 <= 0x7fffffffffffffffffffffffffffffffint,
        -(0x80000000000000000000000000000000int) <= n2 <= 0x7fffffffffffffffffffffffffffffffint,
        n1 != n2,
    ensures
        coin_transfer_bytes(sk, recipient, amount_text, symbol, n1) != coin_transfer_bytes(
            sk,
            recipient,
            amount_text,
            symbol,
            n2,
        ),
{
    let args = seq![
        recipient,
        utf8_bytes_of(amount_text),
        utf8_bytes_of(symbol_or_default(symbol)),
    ];
    let action = action_bytes("Coin".spec_bytes(), "transfer".spec_bytes(), args, None, None);
    let t1 = tx_doc_bytes(action, n1, pubkey_of(sk));
    let t2 = tx_doc_bytes(action, n2, pubkey_of(sk));
    lemma_doc_nonce_index(action, pubkey_of(sk), n1, n2);
    let j = choose|j: int|
        0 <= j < t1.len() && j < t2.len() && #[trigger] t1[j] != t2[j];
    lemma_env_canonical(sha256_of(t1), sig_of(sk, sha256_of(t1), dst_tx_bytes()), t1);
    lemma_env_canonical(sha256_of(t2), sig_of(sk, sha256_of(t2), dst_tx_bytes()), t2);
    let kt = blob_bytes("tx".spec_bytes());
    let pos = 3 + kt.len() as int + j;
    let e1 = coin_transfer_bytes(sk, recipient, amount_text, symbol, n1);
    let e2 = coin_transfer_bytes(sk, recipient, amount_text, symbol, n2);
    assert(e1[pos] == t1[j]);
    assert(e2[pos] == t2[j]);
    assert(e1[pos] != e2[pos]);
}

/// The token symbol actually used: "AMA" stands in for an empty one.
pub open spec fn symbol_or_default(s: Seq<char>) -> Seq<char> {
    if s.len() == 0 {
        "AMA"@
    } else {
        s
    }
}

/// The complete signed coin-transfer envelope for a private key, recipient,
/// rendered flat-unit amount, symbol and nonce.
pub open spec fn coin_transfer_bytes(
    sk: Seq<u8>,
    recipient: Seq<u8>,
    amount_text: Seq<char>,
    symbol: Seq<char>,
    nonce: int,
) -> Seq<u8> {
    let args = seq![
        recipient,
        utf8_bytes_of(amount_text),
        utf8_bytes_of(symbol_or_default(symbol)),
    ];
    let action = action_bytes("Coin".spec_bytes(), "transfer".spec_bytes(), args, None, None);
    let tx = tx_doc_bytes(action, nonce, pubkey_of(sk));
    let hash = sha256_of(tx);
    envelope_bytes(hash, sig_of(sk, hash, dst_tx_bytes()), tx)
}

/// Whether the three user inputs of a coin transfer are all accepted.
pub open spec fn transfer_inputs_ok(
    private_key_base58: Seq<char>,
    recipient_base58: Seq<char>,
    amount: Seq<char>,
) -> bool {
    &&& privkey_decoded(private_key_base58) is Some
    &&& match b58_decode_of(trim_spec(recipient_base58)) {
        Some(d) => d.len() == 48,
        None => false,
    }
    &&& flat_units_of(amount) is Some
}

/// Encodes a transaction action into its canonical sorted-map bytes.
pub fn encode_tx_action(
    contract: &[u8],
    function: &[u8],
    args: &[Vec<u8>],
    attached_symbol: Option<&[u8]>,
    attached_amount: Option<&[u8]>,
) -> (r: Vec<u8>)
    ensures
        r@ == action_bytes(
            contract@,
            function@,
            views_of(args@),
            opt_bytes(attached_symbol),
            opt_bytes(attached_amount),
        ),
{
    let ghost goal = views_of(args@).map_values(|a: Seq<u8>| blob_bytes(a));
    let mut args_ser: Vec<Vec<u8>> = Vec::new();
    let mut i: usize = 0;
    while i < args.len()
        invariant
            i <= args@.len(),
            goal == views_of(args@).map_values(|a: Seq<u8>| blob_bytes(a)),
            views_of(args_ser@) =~= goal.take(i as int),
        decreases args@.len() - i,
    {
        let e = encode_binary(args[i].as_slice());
        let ghost old_ser = args_ser@;
        args_ser.push(e);
        i = i + 1;
        proof {
            assert(args_ser@ == old_ser.push(e));
            assert(views_of(old_ser).len() == old_ser.len());
            assert(old_ser.len() == i - 1);
            assert(args_ser@.len() == i);
            assert forall|k: int| 0 <= k < i implies #[trigger] views_of(args_ser@)[k] == goal[k]
            by {
                if k < i - 1 {
                    assert(args_ser@[k] == old_ser[k]);
                    assert(views_of(old_ser)[k] == goal.take(i as int - 1)[k]);
                } else {
                    assert(args_ser@[k] == e);
                    assert(goal[k] == blob_bytes(views_of(args@)[k]));
                }
            }
            assert(views_of(args_ser@) =~= goal.take(i as int));
        }
    }
    proof {
        assert(views_of(args_ser@) =~= goal);
    }
    let mut list_buf: Vec<u8> = Vec::new();
    vecpak_list(&mut list_buf, args_ser.as_slice());
    let mut pairs: Vec<(Vec<u8>, Vec<u8>)> = Vec::new();
    pairs.push((encode_binary(("args").as_bytes()), list_buf));
    pairs.push((encode_binary(("contract").as_bytes()), encode_binary(contract)));
    pairs.push((encode_binary(("function").as_bytes()), encode_binary(function)));
    pairs.push((encode_binary(("op").as_bytes()), encode_binary(("call").as_bytes())));
    if let (Some(s), Some(a)) = (attached_symbol, attached_amount) {
        pairs.push((encode_binary(("attached_amount").as_bytes()), encode_binary(a)));
        pairs.push((encode_binary(("attached_symbol").as_bytes()), encode_binary(s)));
    }
    proof {
        assert(pair_views(pairs@) =~= action_pairs(
            contract@,
            function@,
            views_of(args@),
            opt_bytes(attached_symbol),
            opt_bytes(attached_amount),
        ));
    }
    let mut out: Vec<u8> = Vec::new();
    vecpak_proplist(&mut out, pairs);
    proof {
        assert(out@ =~= action_bytes(
            contract@,
            function@,
            views_of(args@),
            opt_bytes(attached_symbol),
            opt_bytes(attached_amount),
        ));
    }
    out
}

/// Builds and signs a coin transfer with an explicit nonce: the envelope is
/// a function of the five inputs alone.
pub fn build_coin_transfer_with_nonce(
    private_key_base58: &str,
    recipient_base58: &str,
    amount: &str,
    symbol: &str,
    nonce: i128,
) -> (r: Result<Vec<u8>, WalletError>)
    ensures
        r is Ok <==> transfer_inputs_ok(private_key_base58@, recipient_base58@, amount@),
        r matches Ok(v) ==> v@ == coin_transfer_bytes(
            privkey_decoded(private_key_base58@)->0,
            b58_decode_of(trim_spec(recipient_base58@))->0,
            dec_digits(flat_units_of(amount@)->0),
            symbol@,
            nonce as int,
        ),
        r matches Err(e) ==> (e is InvalidPrivateKey || e is Crypto),
        ({
            privkey_decoded(private_key_base58@) is Some && (b58_decode_of(
                trim_spec(recipient_base58@),
            ) matches Some(d) && d.len() != 48)
        }) ==> (r matches Err(e) && e matches WalletError::InvalidPrivateKey(m) && m@
            == "Recipient must be 48 bytes (Base58), got "@ + dec_digits(
            b58_decode_of(trim_spec(recipient_base58@))->0.len(),
        )),
{
    let sk = decode_private_key_base58(private_key_base58)?;
    let sender_pk = derive_pubkey(sk.as_slice());
    let trimmed_rec = trim_str(recipient_base58);
    let recipient = match b58_decode(trimmed_rec.as_str()) {
        Ok(v) => v,
        Err(e) => {
            return Err(WalletError::InvalidPrivateKey(e));
        },
    };
    if recipient.len() != 48 {
        let mut m = String::from_str("Recipient must be 48 bytes (Base58), got ");
        let digits = u64_to_string(recipient.len() as u64);
        m.append(digits.as_str());
        return Err(WalletError::InvalidPrivateKey(m));
    }
    let amount_flat = amount_to_flat_units(amount)?;
    let symbol_eff: &str = if symbol.is_empty() {
        "AMA"
    } else {
        symbol
    };
    let ghost sk_seq = sk@;
    let mut args: Vec<Vec<u8>> = Vec::new();
    args.push(recipient);
    args.push(str_to_bytes(amount_flat.as_str()));
    args.push(str_to_bytes(symbol_eff));
    let action_ser = encode_tx_action(
        ("Coin").as_bytes(),
        ("transfer").as_bytes(),
        args.as_slice(),
        None,
        None,
    );
    proof {
        assert(views_of(args@) =~= seq![
            b58_decode_of(trim_spec(recipient_base58@))->0,
            utf8_bytes_of(dec_digits(flat_units_of(amount@)->0)),
            utf8_bytes_of(symbol_or_default(symbol@)),
        ]);
    }
    let signer_ser = encode_binary(sender_pk.as_slice());
    let mut nonce_buf: Vec<u8> = Vec::new();
    vecpak_int(&mut nonce_buf, nonce);
    let mut tx_pairs: Vec<(Vec<u8>, Vec<u8>)> = Vec::new();
    tx_pairs.push((encode_binary(("action").as_bytes()), action_ser));
    tx_pairs.push((encode_binary(("nonce").as_bytes()), nonce_buf));
    tx_pairs.push((encode_binary(("signer").as_bytes()), signer_ser));
    let ghost action_spec = action_bytes(
        "Coin".spec_bytes(),
        "transfer".spec_bytes(),
        views_of(args@),
        None,
        None,
    );
    proof {
        assert(pair_views(tx_pairs@) =~= seq![
            (blob_bytes("action".spec_bytes()), action_spec),
            (blob_bytes("nonce".spec_bytes()), int_bytes(nonce as int)),
            (blob_bytes("signer".spec_bytes()), blob_bytes(pubkey_of(sk_seq))),
        ]);
    }
    let mut tx_ser: Vec<u8> = Vec::new();
    vecpak_proplist(&mut tx_ser, tx_pairs);
    let hash = sha256(tx_ser.as_slice());
    let dst = ("AMADEUS_SIG_BLS12381G2_XMD:SHA-256_SSWU_RO_TX_").as_bytes();
    let signature = match sign_hash_with_dst(sk.as_slice(), hash.as_slice(), dst) {
        Ok(s) => s,
        Err(e) => {
            return Err(e);
        },
    };
    let mut env_pairs: Vec<(Vec<u8>, Vec<u8>)> = Vec::new();
    env_pairs.push((encode_binary(("hash").as_bytes()), encode_binary(hash.as_slice())));
    env_pairs.push((encode_binary(("signature").as_bytes()), encode_binary(signature.as_slice())));
    env_pairs.push((encode_binary(("tx").as_bytes()), tx_ser));
    proof {
        assert(pair_views(env_pairs@) =~= seq![
            (blob_bytes("hash".spec_bytes()), blob_bytes(sha256_of(tx_doc_bytes(
                action_spec,
                nonce as int,
                pubkey_of(sk_seq),
            )))),
            (blob_bytes("signature".spec_bytes()), blob_bytes(sig_of(
                sk_seq,
                sha256_of(tx_doc_bytes(action_spec, nonce as int, pubkey_of(sk_seq))),
                dst_tx_bytes(),
            ))),
            (blob_bytes("tx".spec_bytes()), tx_doc_bytes(
                action_spec,
                nonce as int,
                pubkey_of(sk_seq),
            )),
        ]);
    }
    let mut out: Vec<u8> = Vec::new();
    vecpak_proplist(&mut out, env_pairs);
    proof {
        assert(out@ =~= coin_transfer_bytes(
            privkey_decoded(private_key_base58@)->0,
            b58_decode_of(trim_spec(recipient_base58@))->0,
            dec_digits(flat_units_of(amount@)->0),
            symbol@,
            nonce as int,
        ));
    }
    Ok(out)
}

/// Builds and signs a coin transfer with the wall clock as nonce; two calls
/// at different instants carry different nonces and so different documents.
pub fn build_coin_transfer(
    private_key_base58: &str,
    recipient_base58: &str,
    amount: &str,
    symbol: &str,
) -> (r: Result<Vec<u8>, WalletError>)
    ensures
        r is Ok <==> transfer_inputs_ok(private_key_base58@, recipient_base58@, amount@),
        r matches Ok(v) ==> (exists|n: int|
            n >= 0 && v@ == #[trigger] coin_transfer_bytes(
                privkey_decoded(private_key_base58@)->0,
                b58_decode_of(trim_spec(recipient_base58@))->0,
                dec_digits(flat_units_of(amount@)->0),
                symbol@,
                n,
            )),
        r matches Err(e) ==> (e is InvalidPrivateKey || e is Crypto),
{
    let nonce = now_nanos();
    let r = build_coin_transfer_with_nonce(
        private_key_base58,
        recipient_base58,
        amount,
        symbol,
        nonce,
    );
    proof {
        if r is Ok {
            assert(r->Ok_0@ == coin_transfer_bytes(
                privkey_decoded(private_key_base58@)->0,
                b58_decode_of(trim_spec(recipient_base58@))->0,
                dec_digits(flat_units_of(amount@)->0),
                symbol@,
                nonce as int,
            ));
        }
    }
    r
}

} // verus!
