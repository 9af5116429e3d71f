use crate::json::{get_field, obj_get, spec_as_str, as_str_opt, JsonValue};
use crate::netparse::{
    cursor_from_value, field2, item_ord, item_views, merge_transactions, mirrors_of, opt_seq,
    parse_tx_list, spec_cursor, spec_status_from_tx, spec_tx_items, TransactionItem,
};
use crate::text::{
    chars_vec, contains_seq, dec_digits, str_contains, string_from_chars, trim_spec, trim_str,
    u64_to_string,
};
use vstd::prelude::*;
use vstd::string::*;

verus! {

/// Outcome of submitting a signed transaction.
pub struct SubmitResult {
    pub ok: bool,
    pub tx_hash: Option<String>,
    pub error: Option<String>,
    pub network_error: bool,
}

/// Outcome of a balance query.
pub struct BalanceResult {
    pub ok: bool,
    pub balance_flat: Option<String>,
    pub error: Option<String>,
    pub network_error: bool,
}

/// Outcome of a transaction-history query.
pub struct TransactionsResult {
    pub ok: bool,
    pub transactions: Vec<TransactionItem>,
    pub next_sent_cursor: Option<String>,
    pub next_received_cursor: Option<String>,
    pub error: Option<String>,
    pub network_error: bool,
}

/// Outcome of a transaction-status query.
pub struct TransactionStatusResult {
    pub ok: bool,
    pub status: Option<String>,
    pub error: Option<String>,
    pub network_error: bool,
}

/// Outcome of a node health probe.
pub struct HealthCheckResult {
    pub ok: bool,
    pub status_code: Option<u16>,
    pub message: String,
}

/// An HTTP status in the success range.
pub open spec fn is_success(code: u16) -> bool {
    200 <= code < 300
}

/// A base URL with its trailing slashes removed.
pub open spec fn strip_slashes(s: Seq<char>) -> Seq<char>
    decreases s.len(),
{
    if s.len() > 0 && s.last() == '/' {
        strip_slashes(s.drop_last())
    } else {
        s
    }
}

/// Removes trailing slashes from a base URL.
pub fn strip_trailing_slashes(s: &str) -> (r: String)
    ensures
        r@ == strip_slashes(s@),
{
    let v = chars_vec(s);
    let mut hi: usize = v.len();
    proof {
        assert(v@.subrange(0, v@.len() as int) =~= v@);
    }
    while hi > 0 && v[hi - 1] == '/'
        invariant
            hi <= v@.len(),
            strip_slashes(s@) == strip_slashes(v@.subrange(0, hi as int)),
            v@ == s@,
        decreases hi,
    {
        proof {
            assert(v@.subrange(0, hi as int).drop_last() =~= v@.subrange(0, hi as int - 1));
        }
        hi = hi - 1;
    }
    let mut out: Vec<char> = Vec::new();
    let mut i: usize = 0;
    while i < hi
        invariant
            i <= hi <= v@.len(),
            v@ == s@,
            out@ =~= v@.subrange(0, i as int),
        decreases hi - i,
    {
        out.push(v[i]);
        i = i + 1;
        proof {
            assert(out@ =~= v@.subrange(0, i as int));
        }
    }
    proof {
        assert(strip_slashes(v@.subrange(0, hi as int)) == v@.subrange(0, hi as int));
    }
    string_from_chars(&out)
}

/// The transaction-filter query URL: the filter parameter names the signer
/// ("sent") or the first action argument ("received"), with a cursor added
/// only when one is present and non-empty.
pub open spec fn tx_filter_url(
    base: Seq<char>,
    signer: bool,
    addr: Seq<char>,
    cursor: Option<Seq<char>>,
) -> Seq<char> {
    base + "/api/chain/tx_by_filter?"@ + (if signer {
        "signer"@
    } else {
        "arg0"@
    }) + "="@ + addr + "&limit=50&sort=desc"@ + (match cursor {
        Some(c) => if c.len() > 0 {
            "&cursor="@ + c
        } else {
            Seq::<char>::empty()
        },
        None => Seq::<char>::empty(),
    })
}

/// Builds the transaction-filter query URL.
pub fn build_tx_filter_url(base: &str, signer: bool, addr: &str, cursor: Option<&str>) -> (r:
    String)
    ensures
        r@ == tx_filter_url(base@, signer, addr@, match cursor {
            Some(c) => Some(c@),
            None => None,
        }),
{
    let mut url = String::from_str(base);
    url.append("/api/chain/tx_by_filter?");
    if signer {
        url.append("signer");
    } else {
        url.append("arg0");
    }
    url.append("=");
    url.append(addr);
    url.append("&limit=50&sort=desc");
    if let Some(c) = cursor {
        if !c.is_empty() {
            url.append("&cursor=");
            url.append(c);
        }
    }
    url
}

/// "HTTP {code}" with the trimmed body appended when it is not empty.
pub open spec fn http_error_msg(code: u16, body: Seq<char>) -> Seq<char> {
    if trim_spec(body).len() == 0 {
        "HTTP "@ + dec_digits(code as nat)
    } else {
        "HTTP "@ + dec_digits(code as nat) + ": "@ + trim_spec(body)
    }
}

fn build_http_error_msg(code: u16, body: &str) -> (r: String)
    ensures
        r@ == http_error_msg(code, body@),
{
    let mut m = String::from_str("HTTP ");
    let digits = u64_to_string(code as u64);
    m.append(digits.as_str());
    let trimmed = trim_str(body);
    if !trimmed.as_str().is_empty() {
        m.append(": ");
        m.append(trimmed.as_str());
    }
    m
}

/// The human hint added to a failed submission for edge and server codes.
pub open spec fn submit_hint(code: u16) -> Seq<char> {
    if code == 520 {
        " (Cloudflare: origin server error — node may be down or overloaded)"@
    } else if code == 521 {
        " (Cloudflare: origin server refused connection)"@
    } else if code == 522 {
        " (Cloudflare: connection timed out)"@
    } else if code == 523 {
        " (Cloudflare: origin unreachable)"@
    } else if code == 524 {
        " (Cloudflare: timeout)"@
    } else if code == 502 || code == 503 || code == 504 {
        " (server temporarily unavailable — try again later)"@
    } else if 500 <= code < 600 {
        " (server error — try again later)"@
    } else {
        ""@
    }
}

fn submit_hint_exec(code: u16) -> (r: &'static str)
    ensures
        r@ == submit_hint(code),
{
    if code == 520 {
        " (Cloudflare: origin server error — node may be down or overloaded)"
    } else if code == 521 {
        " (Cloudflare: origin server refused connection)"
    } else if code == 522 {
        " (Cloudflare: connection timed out)"
    } else if code == 523 {
        " (Cloudflare: origin unreachable)"
    } else if code == 524 {
        " (Cloudflare: timeout)"
    } else if code == 502 || code == 503 || code == 504 {
        " (server temporarily unavailable — try again later)"
    } else if 500 <= code && code < 600 {
        " (server error — try again later)"
    } else {
        ""
    }
}

/// The transaction hash a submission response carries, under any of its
/// four names.
pub open spec fn spec_submit_hash(j: Option<JsonValue>) -> Option<Seq<char>> {
    match j {
        Some(v) => {
            let picked = match field2(v, "txHash"@, "tx_hash"@) {
                Some(x) => Some(x),
                None => field2(v, "hash"@, "id"@),
            };
            match picked {
                Some(x) => spec_as_str(x),
                None => None,
            }
        },
        None => None,
    }
}

/// The error text a failed submission reports: the response's own error
/// field when one is present, else "HTTP {code}" with body and hint.
pub open spec fn spec_submit_error(code: u16, body: Seq<char>, j: Option<JsonValue>) -> Option<
    Seq<char>,
> {
    if is_success(code) {
        None
    } else {
        let from_json = match j {
            Some(v) => {
                let picked = match field2(v, "error"@, "message"@) {
                    Some(x) => Some(x),
                    None => get_field(v, "detail"@),
                };
                match picked {
                    Some(x) => spec_as_str(x),
                    None => None,
                }
            },
            None => None,
        };
        match from_json {
            Some(e) => Some(e),
            None => Some(http_error_msg(code, body) + submit_hint(code)),
        }
    }
}

/// Builds the submission outcome from a response's status code, body text
/// and parsed body (absent where the body was empty or not JSON).
pub fn submit_outcome(status_code: u16, body: &str, body_json: Option<&JsonValue>) -> (r:
    SubmitResult)
    ensures
        r.ok == is_success(status_code),
        opt_seq(r.tx_hash) == spec_submit_hash(match body_json {
            Some(v) => Some(*v),
            None => None,
        }),
        opt_seq(r.error) == spec_submit_error(status_code, body@, match body_json {
            Some(v) => Some(*v),
            None => None,
        }),
        r.network_error == false,
{
    let ok = 200 <= status_code && status_code < 300;
    let tx_hash = match body_json {
        Some(v) => {
            let picked = match obj_get(v, "txHash") {
                Some(x) => Some(x),
                None => match obj_get(v, "tx_hash") {
                    Some(x) => Some(x),
                    None => match obj_get(v, "hash") {
                        Some(x) => Some(x),
                        None => obj_get(v, "id"),
                    },
                },
            };
            match picked {
                Some(x) => as_str_opt(x),
                None => None,
            }
        },
        None => None,
    };
    let error: Option<String> = if ok {
        None
    } else {
        let from_json: Option<String> = match body_json {
            Some(v) => {
                let picked = match obj_get(v, "error") {
                    Some(x) => Some(x),
                    None => match obj_get(v, "message") {
                        Some(x) => Some(x),
                        None => obj_get(v, "detail"),
                    },
                };
                match picked {
                    Some(x) => as_str_opt(x),
                    None => None,
                }
            },
            None => None,
        };
        match from_json {
            Some(e) => Some(e),
            None => {
                let mut m = build_http_error_msg(status_code, body);
                m.append(submit_hint_exec(status_code));
                Some(m)
            },
        }
    };
    SubmitResult { ok, tx_hash, error, network_error: false }
}

/// The submission outcome for a transport failure: the raw error text, with
/// the network flag set.
pub fn submit_transport_failure(msg: String) -> (r: SubmitResult)
    ensures
        r.ok == false,
        r.tx_hash is None,
        opt_seq(r.error) == Some(msg@),
        r.network_error == true,
{
    SubmitResult { ok: false, tx_hash: None, error: Some(msg), network_error: true }
}

/// Whether an error text reads as a transport-level failure.
pub open spec fn looks_like_transport(msg: Seq<char>) -> bool {
    contains_seq(msg, "connection"@) || contains_seq(msg, "dns"@) || contains_seq(
        msg,
        "timed out"@,
    )
}

fn classify_transport(msg: &str) -> (r: bool)
    ensures
        r == looks_like_transport(msg@),
{
    str_contains(msg, "connection") || str_contains(msg, "dns") || str_contains(msg, "timed out")
}

/// The balance outcome for a transport failure.
pub fn balance_transport_failure(msg: String) -> (r: BalanceResult)
    ensures
        r.ok == false,
        r.balance_flat is None,
        opt_seq(r.error) == Some(msg@),
        r.network_error == looks_like_transport(msg@),
{
    let network_error = classify_transport(msg.as_str());
    BalanceResult { ok: false, balance_flat: None, error: Some(msg), network_error }
}

/// Builds the balance outcome from a response: a failing status reports the
/// HTTP error; a body without a recognizable balance reports the absence.
pub fn balance_outcome(status_code: u16, body: &str, body_json: Option<&JsonValue>) -> (r:
    BalanceResult)
    ensures
        r.network_error == false,
        !is_success(status_code) ==> !r.ok && r.balance_flat is None && opt_seq(r.error) == Some(
            http_error_msg(status_code, body@),
        ),
        is_success(status_code) ==> ({
            let parsed = match body_json {
                Some(v) => crate::netparse::spec_parse_balance(*v),
                None => None,
            };
            match parsed {
                Some(b) => r.ok && opt_seq(r.balance_flat) == Some(b) && r.error is None,
                None => !r.ok && r.balance_flat is None && opt_seq(r.error) == Some(
                    "Response has no balance field"@,
                ),
            }
        }),
{
    if !(200 <= status_code && status_code < 300) {
        let m = build_http_error_msg(status_code, body);
        return BalanceResult { ok: false, balance_flat: None, error: Some(m), network_error: false };
    }
    let parsed = match body_json {
        Some(v) => crate::netparse::parse_balance_from_json(v),
        None => None,
    };
    match parsed {
        Some(b) => BalanceResult { ok: true, balance_flat: Some(b), error: None, network_error: false },
        None => BalanceResult {
            ok: false,
            balance_flat: None,
            error: Some(String::from_str("Response has no balance field")),
            network_error: false,
        },
    }
}

/// The history outcome for a transport failure on the sent-side query.
pub fn transactions_transport_failure(msg: String) -> (r: TransactionsResult)
    ensures
        r.ok == false,
        r.transactions@.len() == 0,
        r.next_sent_cursor is None && r.next_received_cursor is None,
        opt_seq(r.error) == Some(msg@),
        r.network_error == looks_like_transport(msg@),
{
    let network_error = classify_transport(msg.as_str());
    TransactionsResult {
        ok: false,
        transactions: Vec::new(),
        next_sent_cursor: None,
        next_received_cursor: None,
        error: Some(msg),
        network_error,
    }
}

/// The history outcome for a failing sent-side response: a 404 reports that
/// the node lacks history support, any other code the HTTP error.
pub fn transactions_sent_error(status_code: u16, body: &str) -> (r: TransactionsResult)
    ensures
        r.ok == false,
        r.transactions@.len() == 0,
        r.next_sent_cursor is None && r.next_received_cursor is None,
        status_code == 404 ==> opt_seq(r.error) == Some(
            "Transaction history not supported by this node"@,
        ),
        status_code != 404 ==> opt_seq(r.error) == Some(http_error_msg(status_code, body@)),
        r.network_error == false,
{
    let m = if status_code == 404 {
        String::from_str("Transaction history not supported by this node")
    } else {
        build_http_error_msg(status_code, body)
    };
    TransactionsResult {
        ok: false,
        transactions: Vec::new(),
        next_sent_cursor: None,
        next_received_cursor: None,
        error: Some(m),
        network_error: false,
    }
}

/// Builds the successful history outcome: parses both lists (absent or
/// unreadable bodies count as empty), merges them with mirrored copies of
/// unmatched self-transfers, and carries each side's next cursor.
pub fn transactions_success(
    sent_json: Option<&JsonValue>,
    received_json: Option<&JsonValue>,
    address: &str,
) -> (r: TransactionsResult)
    ensures
        r.ok == true,
        r.network_error == false,
        r.error is None,
        ({
            let sent_items = match sent_json {
                Some(v) => spec_tx_items(*v, address@),
                None => Seq::<crate::netparse::TxItemView>::empty(),
            };
            let recv_items = match received_json {
                Some(v) => spec_tx_items(*v, address@),
                None => Seq::<crate::netparse::TxItemView>::empty(),
            };
            exists|all: Seq<crate::netparse::TxItemView>|
                #![auto]
                all.to_multiset() == sent_items.to_multiset().add(recv_items.to_multiset())
                    && item_views(r.transactions@).to_multiset() == (all + mirrors_of(
                    all,
                    address@,
                )).to_multiset()
        }),
        vstd::relations::sorted_by(item_views(r.transactions@), item_ord(true)),
        opt_seq(r.next_sent_cursor) == (match sent_json {
            Some(v) => spec_cursor(*v),
            None => None,
        }),
        opt_seq(r.next_received_cursor) == (match received_json {
            Some(v) => spec_cursor(*v),
            None => None,
        }),
{
    broadcast use vstd::seq_lib::group_to_multiset_ensures;

    let (sent_list, next_sent_cursor) = match sent_json {
        Some(v) => (parse_tx_list(v, address), cursor_from_value(v)),
        None => (Vec::new(), None),
    };
    let (received_list, next_received_cursor) = match received_json {
        Some(v) => (parse_tx_list(v, address), cursor_from_value(v)),
        None => (Vec::new(), None),
    };
    let ghost sv = item_views(sent_list@);
    let ghost rv = item_views(received_list@);
    let merged = merge_transactions(sent_list, received_list, address);
    proof {
        vstd::seq_lib::lemma_multiset_commutative(sv, rv);
        assert((sv + rv).to_multiset() == sv.to_multiset().add(rv.to_multiset()));
        if sent_json is None {
            assert(sv =~= Seq::<crate::netparse::TxItemView>::empty());
            assert(sv.to_multiset() =~= Seq::<crate::netparse::TxItemView>::empty().to_multiset());
        }
        if received_json is None {
            assert(rv =~= Seq::<crate::netparse::TxItemView>::empty());
            assert(rv.to_multiset() =~= Seq::<crate::netparse::TxItemView>::empty().to_multiset());
        }
    }
    TransactionsResult {
        ok: true,
        transactions: merged,
        next_sent_cursor,
        next_received_cursor,
        error: None,
        network_error: false,
    }
}

/// One step of a fallback-URL probe: go on to the next candidate, or stop
/// with this outcome.
pub enum StatusStep {
    TryNext,
    Done(TransactionStatusResult),
}

/// The three candidate status URLs for a transaction hash, probed in order.
pub open spec fn status_urls_spec(base: Seq<char>, hash: Seq<char>) -> Seq<Seq<char>> {
    seq![
        base + "/api/chain/tx/"@ + hash,
        base + "/api/tx/"@ + hash,
        base + "/api/chain/tx?hash="@ + hash,
    ]
}

/// Plans a status query: an empty (trimmed) hash fails at once, otherwise
/// the three candidate URLs are returned for probing in order.
pub fn status_request_plan(api_url: &str, tx_hash: &str) -> (r: Result<
    Vec<String>,
    TransactionStatusResult,
>)
    ensures
        trim_spec(tx_hash@).len() == 0 <==> r is Err,
        r matches Err(f) ==> !f.ok && f.status is None && opt_seq(f.error) == Some(
            "Empty transaction hash"@,
        ) && !f.network_error,
        r matches Ok(urls) ==> urls@.map_values(|u: String| u@) =~= status_urls_spec(
            strip_slashes(api_url@),
            trim_spec(tx_hash@),
        ),
{
    let base = strip_trailing_slashes(api_url);
    let hash = trim_str(tx_hash);
    if hash.as_str().is_empty() {
        return Err(
            TransactionStatusResult {
                ok: false,
                status: None,
                error: Some(String::from_str("Empty transaction hash")),
                network_error: false,
            },
        );
    }
    let mut urls: Vec<String> = Vec::new();
    let mut u1 = base.clone();
    u1.append("/api/chain/tx/");
    u1.append(hash.as_str());
    urls.push(u1);
    let mut u2 = base.clone();
    u2.append("/api/tx/");
    u2.append(hash.as_str());
    urls.push(u2);
    let mut u3 = base.clone();
    u3.append("/api/chain/tx?hash=");
    u3.append(hash.as_str());
    urls.push(u3);
    Ok(urls)
}

/// The first element of an array value, if there is one.
pub open spec fn first_elem(o: Option<JsonValue>) -> Option<JsonValue> {
    match o {
        Some(JsonValue::Arr(a)) => if a@.len() > 0 {
            Some(a@[0])
        } else {
            None
        },
        _ => None,
    }
}

/// The object a status response describes: the first element of its `txs`,
/// `data` or `transactions` array, else the body itself.
pub open spec fn spec_status_item(v: JsonValue) -> JsonValue {
    match first_elem(get_field(v, "txs"@)) {
        Some(x) => x,
        None => match first_elem(get_field(v, "data"@)) {
            Some(x) => x,
            None => match first_elem(get_field(v, "transactions"@)) {
                Some(x) => x,
                None => v,
            },
        },
    }
}

fn status_item<'a>(v: &'a JsonValue) -> (r: &'a JsonValue)
    ensures
        *r == spec_status_item(*v),
{
    if let Some(x) = obj_get(v, "txs") {
        if let JsonValue::Arr(a) = x {
            if a.len() > 0 {
                return &a[0];
            }
        }
    }
    if let Some(x) = obj_get(v, "data") {
        if let JsonValue::Arr(a) = x {
            if a.len() > 0 {
                return &a[0];
            }
        }
    }
    if let Some(x) = obj_get(v, "transactions") {
        if let JsonValue::Arr(a) = x {
            if a.len() > 0 {
                return &a[0];
            }
        }
    }
    v
}

/// What one status response decides: a 404, an empty or unreadable body, or
/// a body without a usable status move on to the next URL; any other
/// failing code stops with its HTTP error; a usable status stops with it.
pub fn status_step(code: u16, body: &str, body_json: Option<&JsonValue>) -> (r: StatusStep)
    ensures
        (!is_success(code) && code == 404) ==> r is TryNext,
        (!is_success(code) && code != 404) ==> (r matches StatusStep::Done(f) && !f.ok && f.status
            is None && opt_seq(f.error) == Some(http_error_msg(code, body@))
            && !f.network_error),
        (is_success(code) && trim_spec(body@).len() == 0) ==> r is TryNext,
        (is_success(code) && trim_spec(body@).len() > 0 && body_json is None) ==> r is TryNext,
        body_json matches Some(v) ==> ((is_success(code) && trim_spec(body@).len() > 0) ==> (
        match spec_status_from_tx(spec_status_item(*v)) {
            Some(st) => r matches StatusStep::Done(d) && d.ok && opt_seq(d.status) == Some(st)
                && d.error is None && !d.network_error,
            None => r is TryNext,
        })),
{
    if !(200 <= code && code < 300) {
        if code == 404 {
            return StatusStep::TryNext;
        }
        let m = build_http_error_msg(code, body);
        return StatusStep::Done(
            TransactionStatusResult { ok: false, status: None, error: Some(m), network_error: false },
        );
    }
    let trimmed = trim_str(body);
    if trimmed.as_str().is_empty() {
        return StatusStep::TryNext;
    }
    let v = match body_json {
        Some(v) => v,
        None => {
            return StatusStep::TryNext;
        },
    };
    let item = status_item(v);
    match crate::netparse::parse_status_from_tx_value(item) {
        Some(st) => StatusStep::Done(
            TransactionStatusResult { ok: true, status: Some(st), error: None, network_error: false },
        ),
        None => StatusStep::TryNext,
    }
}

/// The status outcome after all three URLs were probed without a usable
/// answer.
pub fn status_exhausted() -> (r: TransactionStatusResult)
    ensures
        !r.ok && r.status is None && opt_seq(r.error) == Some(
            "Transaction not found or status not available"@,
        ) && !r.network_error,
{
    TransactionStatusResult {
        ok: false,
        status: None,
        error: Some(String::from_str("Transaction not found or status not available")),
        network_error: false,
    }
}

/// The status outcome for a transport failure on any probe.
pub fn status_transport_failure(msg: String) -> (r: TransactionStatusResult)
    ensures
        !r.ok && r.status is None && opt_seq(r.error) == Some(msg@) && r.network_error
            == looks_like_transport(msg@),
{
    let network_error = classify_transport(msg.as_str());
    TransactionStatusResult { ok: false, status: None, error: Some(msg), network_error }
}

/// The three candidate health URLs, probed in order: the stats endpoint,
/// the API root, the bare base.
pub open spec fn health_urls_spec(base: Seq<char>) -> Seq<Seq<char>> {
    seq![base + "/api/chain/stats"@, base + "/api/"@, base]
}

/// Builds the three health-probe URLs.
pub fn health_urls(api_url: &str) -> (r: Vec<String>)
    ensures
        r@.map_values(|u: String| u@) =~= health_urls_spec(strip_slashes(api_url@)),
{
    let base = strip_trailing_slashes(api_url);
    let mut urls: Vec<String> = Vec::new();
    let mut u1 = base.clone();
    u1.append("/api/chain/stats");
    urls.push(u1);
    let mut u2 = base.clone();
    u2.append("/api/");
    urls.push(u2);
    urls.push(base);
    urls
}

/// How each health probe is named in the report.
pub open spec fn health_label(index: int) -> Seq<char> {
    if index == 0 {
        "chain/stats"@
    } else if index == 1 {
        "api/"@
    } else {
        "base"@
    }
}

/// The explanation attached to a failing health code.
pub open spec fn health_hint(code: u16) -> Seq<char> {
    if code == 520 {
        "Cloudflare: origin server error (node may be down)"@
    } else if 500 <= code < 600 {
        "server error"@
    } else {
        "unexpected response"@
    }
}

/// What one health response decides: success stops with a healthy report
/// naming the endpoint, a 404 or 405 moves to the next candidate, and any
/// other failure stops with the code and its explanation.
pub fn health_response(index: usize, code: u16) -> (r: Option<HealthCheckResult>)
    ensures
        is_success(code) ==> (r matches Some(h) && h.ok && h.status_code == Some(code)
            && h.message@ == "OK (HTTP "@ + dec_digits(code as nat) + ", "@ + health_label(
            index as int,
        ) + ")"@),
        (!is_success(code) && (code == 404 || code == 405)) ==> r is None,
        (!is_success(code) && code != 404 && code != 405) ==> (r matches Some(h) && !h.ok
            && h.status_code == Some(code) && h.message@ == "HTTP "@ + dec_digits(code as nat)
            + " — "@ + health_hint(code)),
{
    if 200 <= code && code < 300 {
        let mut m = String::from_str("OK (HTTP ");
        let digits = u64_to_string(code as u64);
        m.append(digits.as_str());
        m.append(", ");
        if index == 0 {
            m.append("chain/stats");
        } else if index == 1 {
            m.append("api/");
        } else {
            m.append("base");
        }
        m.append(")");
        Some(HealthCheckResult { ok: true, status_code: Some(code), message: m })
    } else if code == 404 || code == 405 {
        None
    } else {
        let mut m = String::from_str("HTTP ");
        let digits = u64_to_string(code as u64);
        m.append(digits.as_str());
        m.append(" — ");
        if code == 520 {
            m.append("Cloudflare: origin server error (node may be down)");
        } else if 500 <= code && code < 600 {
            m.append("server error");
        } else {
            m.append("unexpected response");
        }
        Some(HealthCheckResult { ok: false, status_code: Some(code), message: m })
    }
}

/// What a transport failure decides during a health probe: it stops the
/// whole check only on the last candidate, with the raw error text.
pub fn health_transport_failure(index: usize, last_index: usize, msg: String) -> (r: Option<
    HealthCheckResult,
>)
    ensures
        index < last_index ==> r is None,
        index >= last_index ==> (r matches Some(h) && !h.ok && h.status_code is None && h.message@
            == msg@),
{
    if index < last_index {
        None
    } else {
        Some(HealthCheckResult { ok: false, status_code: None, message: msg })
    }
}

/// The health outcome after every candidate failed softly.
pub fn health_exhausted() -> (r: HealthCheckResult)
    ensures
        !r.ok && r.status_code is None && r.message@ == "No successful response from node"@,
{
    HealthCheckResult {
        ok: false,
        status_code: None,
        message: String::from_str("No successful response from node"),
    }
}

} // verus!
