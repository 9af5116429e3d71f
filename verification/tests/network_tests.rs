use amadeus_wallet::json::{JsonNum, JsonValue};
use amadeus_wallet::netflow::{
    balance_outcome, balance_transport_failure, build_tx_filter_url, health_exhausted,
    health_response, health_transport_failure, health_urls, status_exhausted, status_request_plan,
    status_step, strip_trailing_slashes, submit_outcome, submit_transport_failure,
    transactions_sent_error, transactions_success, transactions_transport_failure, StatusStep,
};
use amadeus_wallet::netparse::{
    cursor_from_value, merge_transactions, nonce_to_timestamp_ms, parse_tx_list, TransactionItem,
};

fn s(x: &str) -> JsonValue {
    JsonValue::Str(x.to_string())
}

fn u(n: u64) -> JsonValue {
    JsonValue::Num(JsonNum::U(n))
}

fn obj(pairs: Vec<(&str, JsonValue)>) -> JsonValue {
    JsonValue::Obj(pairs.into_iter().map(|(k, v)| (k.to_string(), v)).collect())
}

fn item(
    hash: &str,
    kind: &str,
    from: &str,
    to: &str,
    height: u64,
) -> TransactionItem {
    TransactionItem {
        tx_hash: Some(hash.to_string()),
        kind: kind.to_string(),
        from_address: Some(from.to_string()),
        to_address: Some(to.to_string()),
        amount_flat: "1".to_string(),
        block_height: Some(height),
        status: None,
        memo: None,
        exec_used: None,
        timestamp_ms: None,
    }
}

#[test]
fn balance_is_found_in_documented_spots() {
    let v = obj(vec![("balance", obj(vec![("flat", s("123"))]))]);
    let r = balance_outcome(200, "", Some(&v));
    assert!(r.ok);
    assert_eq!(r.balance_flat.as_deref(), Some("123"));

    let v = obj(vec![("balance", u(77))]);
    assert_eq!(
        balance_outcome(200, "", Some(&v)).balance_flat.as_deref(),
        Some("77")
    );

    let v = obj(vec![(
        "balance",
        JsonValue::Num(JsonNum::F { trunc: 12, scaled9: 12500000000 }),
    )]);
    assert_eq!(
        balance_outcome(200, "", Some(&v)).balance_flat.as_deref(),
        Some("12")
    );

    let v = obj(vec![("data", obj(vec![("balance_flat", u(42))]))]);
    assert_eq!(
        balance_outcome(200, "", Some(&v)).balance_flat.as_deref(),
        Some("42")
    );

    let v = obj(vec![("result", obj(vec![("amount", s("9"))]))]);
    assert_eq!(
        balance_outcome(200, "", Some(&v)).balance_flat.as_deref(),
        Some("9")
    );

    let v = obj(vec![("unrelated", s("x"))]);
    let r = balance_outcome(200, "", Some(&v));
    assert!(!r.ok);
    assert_eq!(r.error.as_deref(), Some("Response has no balance field"));

    let r = balance_outcome(500, " oops ", None);
    assert!(!r.ok && !r.network_error);
    assert_eq!(r.error.as_deref(), Some("HTTP 500: oops"));
}

#[test]
fn transport_failures_are_classified_by_message_text() {
    let r = balance_transport_failure("connection refused".to_string());
    assert!(!r.ok && r.network_error);
    let r = balance_transport_failure("dns lookup failed".to_string());
    assert!(r.network_error);
    let r = balance_transport_failure("request timed out".to_string());
    assert!(r.network_error);
    let r = balance_transport_failure("mysterious problem".to_string());
    assert!(!r.network_error);
    let r = transactions_transport_failure("connection reset".to_string());
    assert!(r.network_error && r.transactions.is_empty());
    // a submit transport failure always counts as a network error
    let r = submit_transport_failure("mysterious problem".to_string());
    assert!(r.network_error);
}

#[test]
fn submit_outcome_extracts_hash_and_synthesizes_errors() {
    let v = obj(vec![("txHash", s("abc"))]);
    let r = submit_outcome(200, "", Some(&v));
    assert!(r.ok && r.error.is_none());
    assert_eq!(r.tx_hash.as_deref(), Some("abc"));

    let v = obj(vec![("id", s("xyz"))]);
    assert_eq!(submit_outcome(201, "", Some(&v)).tx_hash.as_deref(), Some("xyz"));

    let v = obj(vec![("error", s("rejected"))]);
    let r = submit_outcome(400, "ignored", Some(&v));
    assert!(!r.ok);
    assert_eq!(r.error.as_deref(), Some("rejected"));

    let r = submit_outcome(503, "", None);
    assert_eq!(
        r.error.as_deref(),
        Some("HTTP 503 (server temporarily unavailable — try again later)")
    );
    let r = submit_outcome(520, "bad gateway", None);
    assert_eq!(
        r.error.as_deref(),
        Some("HTTP 520: bad gateway (Cloudflare: origin server error — node may be down or overloaded)")
    );
    let r = submit_outcome(555, "", None);
    assert_eq!(r.error.as_deref(), Some("HTTP 555 (server error — try again later)"));
    let r = submit_outcome(418, "", None);
    assert_eq!(r.error.as_deref(), Some("HTTP 418"));
}

#[test]
fn status_probe_steps_through_candidates() {
    assert!(matches!(status_step(404, "whatever", None), StatusStep::TryNext));
    match status_step(500, "boom", None) {
        StatusStep::Done(f) => {
            assert!(!f.ok);
            assert_eq!(f.error.as_deref(), Some("HTTP 500: boom"));
        }
        _ => panic!("expected a terminal failure"),
    }
    assert!(matches!(status_step(200, "   ", None), StatusStep::TryNext));
    assert!(matches!(status_step(200, "not json", None), StatusStep::TryNext));
    let empty = obj(vec![]);
    assert!(matches!(status_step(200, "{}", Some(&empty)), StatusStep::TryNext));

    let v = obj(vec![("receipt", obj(vec![("success", JsonValue::Bool(true))]))]);
    match status_step(200, "body", Some(&v)) {
        StatusStep::Done(d) => {
            assert!(d.ok);
            assert_eq!(d.status.as_deref(), Some("ok"));
        }
        _ => panic!("expected a status"),
    }

    let v = obj(vec![(
        "txs",
        JsonValue::Arr(vec![obj(vec![(
            "receipt",
            obj(vec![("success", JsonValue::Bool(false)), ("result", s("insufficient funds"))]),
        )])]),
    )]);
    match status_step(200, "body", Some(&v)) {
        StatusStep::Done(d) => assert_eq!(d.status.as_deref(), Some("insufficient funds")),
        _ => panic!("expected a status"),
    }

    let v = obj(vec![("receipt", obj(vec![("result", s("OK"))]))]);
    match status_step(200, "body", Some(&v)) {
        StatusStep::Done(d) => assert_eq!(d.status.as_deref(), Some("ok")),
        _ => panic!("expected a status"),
    }

    let v = obj(vec![("metadata", obj(vec![("status", s("finalized"))]))]);
    match status_step(200, "body", Some(&v)) {
        StatusStep::Done(d) => assert_eq!(d.status.as_deref(), Some("finalized")),
        _ => panic!("expected a status"),
    }

    let done = status_exhausted();
    assert_eq!(
        done.error.as_deref(),
        Some("Transaction not found or status not available")
    );
}

#[test]
fn status_plan_builds_three_urls_or_rejects_blank_hash() {
    match status_request_plan("http://node/", "  ") {
        Err(f) => assert_eq!(f.error.as_deref(), Some("Empty transaction hash")),
        Ok(_) => panic!("expected a rejection"),
    }
    let urls = match status_request_plan("http://node/", " h1 ") {
        Ok(u) => u,
        Err(_) => panic!("expected a plan"),
    };
    assert_eq!(
        urls,
        vec![
            "http://node/api/chain/tx/h1".to_string(),
            "http://node/api/tx/h1".to_string(),
            "http://node/api/chain/tx?hash=h1".to_string(),
        ]
    );
}

#[test]
fn health_probe_follows_documented_sequence() {
    // 404, 404, 200 across the three candidates ends healthy
    assert!(health_response(0, 404).is_none());
    assert!(health_response(1, 404).is_none());
    let h = health_response(2, 200).unwrap();
    assert!(h.ok);
    assert_eq!(h.status_code, Some(200));
    assert_eq!(h.message, "OK (HTTP 200, base)");
    // 404, 404, connection refused ends with the connection error
    assert!(health_response(0, 404).is_none());
    assert!(health_response(1, 404).is_none());
    assert!(health_transport_failure(0, 2, "connection refused".to_string()).is_none());
    let h = health_transport_failure(2, 2, "connection refused".to_string()).unwrap();
    assert!(!h.ok);
    assert_eq!(h.status_code, None);
    assert_eq!(h.message, "connection refused");

    let h = health_response(0, 200).unwrap();
    assert_eq!(h.message, "OK (HTTP 200, chain/stats)");
    assert!(health_response(1, 405).is_none());
    let h = health_response(0, 500).unwrap();
    assert_eq!(h.message, "HTTP 500 — server error");
    let h = health_response(1, 520).unwrap();
    assert_eq!(h.message, "HTTP 520 — Cloudflare: origin server error (node may be down)");
    let h = health_response(2, 301).unwrap();
    assert_eq!(h.message, "HTTP 301 — unexpected response");
    assert_eq!(health_exhausted().message, "No successful response from node");

    assert_eq!(
        health_urls("http://node//"),
        vec![
            "http://node/api/chain/stats".to_string(),
            "http://node/api/".to_string(),
            "http://node".to_string(),
        ]
    );
}

#[test]
fn nonce_timestamps_follow_magnitude_and_window() {
    assert_eq!(
        nonce_to_timestamp_ms(&u(1717000000000000000)),
        Some(1717000000000)
    );
    assert_eq!(nonce_to_timestamp_ms(&u(960000000000000)), Some(960000000000));
    assert_eq!(nonce_to_timestamp_ms(&u(999999999999)), Some(999999999999));
    assert_eq!(nonce_to_timestamp_ms(&u(999999999)), None);
    assert_eq!(nonce_to_timestamp_ms(&u(5000000000)), None);
    assert_eq!(nonce_to_timestamp_ms(&u(5000000000000000000)), None);
    assert_eq!(nonce_to_timestamp_ms(&JsonValue::Num(JsonNum::I(-5))), None);
    assert_eq!(nonce_to_timestamp_ms(&s("1717000000000")), None);
}

#[test]
fn history_entries_parse_and_sort_by_height() {
    let entry = |height: u64, from: &str, to: &str| {
        obj(vec![
            ("hash", s(&format!("h{}", height))),
            (
                "tx",
                obj(vec![
                    ("signer", s(from)),
                    (
                        "action",
                        obj(vec![(
                            "args",
                            JsonValue::Arr(vec![s(to), s("5"), s("AMA")]),
                        )]),
                    ),
                    ("nonce", u(1717000000000000000)),
                ]),
            ),
            ("metadata", obj(vec![("entry_height", u(height))])),
            (
                "receipt",
                obj(vec![("success", JsonValue::Bool(true)), ("exec_used", u(3))]),
            ),
        ])
    };
    let body = obj(vec![(
        "txs",
        JsonValue::Arr(vec![entry(1, "me", "you"), entry(5, "you", "me"), entry(3, "me", "other")]),
    )]);
    let list = parse_tx_list(&body, "me");
    assert_eq!(list.len(), 3);
    assert_eq!(list[0].block_height, Some(5));
    assert_eq!(list[0].kind, "received");
    assert_eq!(list[0].from_address.as_deref(), Some("you"));
    assert_eq!(list[1].block_height, Some(3));
    assert_eq!(list[1].kind, "sent");
    assert_eq!(list[2].block_height, Some(1));
    assert_eq!(list[0].amount_flat, "5");
    assert_eq!(list[0].status.as_deref(), Some("ok"));
    assert_eq!(list[0].exec_used.as_deref(), Some("3"));
    assert_eq!(list[0].timestamp_ms, Some(1717000000000));
}

#[test]
fn history_entries_fall_back_to_flat_fields() {
    // no tx/action structure: hash, parties and amount come from the flat names
    let entry = obj(vec![
        ("tx_hash", s("deadbeef")),
        ("signer", s("someone")),
        ("to_address", s("me")),
        (
            "amount",
            JsonValue::Num(JsonNum::F { trunc: 1, scaled9: 1500000000 }),
        ),
        ("message", s("hello")),
    ]);
    let body = obj(vec![("transactions", JsonValue::Arr(vec![entry]))]);
    let list = parse_tx_list(&body, "me");
    assert_eq!(list.len(), 1);
    assert_eq!(list[0].tx_hash.as_deref(), Some("deadbeef"));
    assert_eq!(list[0].kind, "received");
    assert_eq!(list[0].from_address.as_deref(), Some("someone"));
    assert_eq!(list[0].amount_flat, "1500000000");
    assert_eq!(list[0].memo.as_deref(), Some("hello"));
    assert_eq!(list[0].block_height, None);
    assert_eq!(list[0].status, None);
    assert_eq!(list[0].timestamp_ms, None);
}

#[test]
fn missing_amount_defaults_to_zero_and_kind_to_unknown() {
    let entry = obj(vec![("hash", s("h"))]);
    let body = obj(vec![("txs", JsonValue::Arr(vec![entry]))]);
    let list = parse_tx_list(&body, "me");
    assert_eq!(list[0].amount_flat, "0");
    assert_eq!(list[0].kind, "unknown");
}

#[test]
fn self_transfers_gain_a_mirrored_received_copy() {
    let sent = vec![item("h1", "sent", "me", "me", 5)];
    let merged = merge_transactions(sent, Vec::new(), "me");
    assert_eq!(merged.len(), 2);
    assert_eq!(merged[0].kind, "received");
    assert_eq!(merged[0].tx_hash.as_deref(), Some("h1"));
    assert_eq!(merged[0].from_address.as_deref(), Some("me"));
    assert_eq!(merged[0].to_address.as_deref(), Some("me"));
    assert_eq!(merged[1].kind, "sent");

    // a hash already present among the received entries is not duplicated
    let sent = vec![item("h1", "sent", "me", "me", 5)];
    let received = vec![item("h1", "received", "me", "me", 5)];
    let merged = merge_transactions(sent, received, "me");
    assert_eq!(merged.len(), 2);

    // not a self-transfer: nothing is synthesized
    let sent = vec![item("h2", "sent", "me", "you", 5)];
    let merged = merge_transactions(sent, Vec::new(), "me");
    assert_eq!(merged.len(), 1);
}

#[test]
fn merged_history_orders_received_before_sent_at_equal_height() {
    let sent = vec![item("a", "sent", "me", "you", 7)];
    let received = vec![item("b", "received", "you", "me", 7), item("c", "received", "you", "me", 2)];
    let merged = merge_transactions(sent, received, "me");
    assert_eq!(merged.len(), 3);
    assert_eq!(merged[0].kind, "received");
    assert_eq!(merged[0].block_height, Some(7));
    assert_eq!(merged[1].kind, "sent");
    assert_eq!(merged[2].tx_hash.as_deref(), Some("c"));
}

#[test]
fn cursors_come_from_any_of_three_names_and_skip_empties() {
    assert_eq!(cursor_from_value(&obj(vec![("cursor", s(""))])), None);
    assert_eq!(
        cursor_from_value(&obj(vec![("cursor", s("c1"))])).as_deref(),
        Some("c1")
    );
    assert_eq!(
        cursor_from_value(&obj(vec![("next_cursor", s("c2"))])).as_deref(),
        Some("c2")
    );
    assert_eq!(
        cursor_from_value(&obj(vec![("nextCursor", s("c3"))])).as_deref(),
        Some("c3")
    );
    assert_eq!(cursor_from_value(&obj(vec![])), None);
}

#[test]
fn filter_urls_are_exact() {
    assert_eq!(
        build_tx_filter_url("http://n", true, "addr", None),
        "http://n/api/chain/tx_by_filter?signer=addr&limit=50&sort=desc"
    );
    assert_eq!(
        build_tx_filter_url("http://n", false, "addr", Some("c1")),
        "http://n/api/chain/tx_by_filter?arg0=addr&limit=50&sort=desc&cursor=c1"
    );
    assert_eq!(
        build_tx_filter_url("http://n", true, "addr", Some("")),
        "http://n/api/chain/tx_by_filter?signer=addr&limit=50&sort=desc"
    );
    assert_eq!(strip_trailing_slashes("http://n///"), "http://n");
    assert_eq!(strip_trailing_slashes("http://n"), "http://n");
}

#[test]
fn sent_side_errors_shape_the_history_outcome() {
    let r = transactions_sent_error(404, "");
    assert_eq!(
        r.error.as_deref(),
        Some("Transaction history not supported by this node")
    );
    let r = transactions_sent_error(500, "boom");
    assert_eq!(r.error.as_deref(), Some("HTTP 500: boom"));

    let body = obj(vec![
        ("txs", JsonValue::Arr(vec![])),
        ("cursor", s("next-page")),
    ]);
    let r = transactions_success(Some(&body), None, "me");
    assert!(r.ok);
    assert!(r.transactions.is_empty());
    assert_eq!(r.next_sent_cursor.as_deref(), Some("next-page"));
    assert_eq!(r.next_received_cursor, None);
}
