use crate::json::{
    as_bool_opt, as_str_opt, as_u64_lenient, amount_flat_from_value, balance_value_to_string,
    get_field, obj_get, spec_amount_flat_str, spec_as_bool, spec_as_str, spec_as_u64_lenient,
    spec_balance_value_str, JsonNum, JsonValue,
};
use crate::json::lemma_field_decreases;
use crate::text::{is_ok_ignore_case, str_eq, str_is_ok_ignore_case};
use vstd::multiset::Multiset;
use vstd::prelude::*;
use vstd::string::*;

verus! {

broadcast use {vstd::seq_lib::group_to_multiset_ensures, vstd::multiset::group_multiset_axioms};

/// The value under the first of two keys that is present.
pub open spec fn field2(v: JsonValue, k1: Seq<char>, k2: Seq<char>) -> Option<JsonValue> {
    match get_field(v, k1) {
        Some(x) => Some(x),
        None => get_field(v, k2),
    }
}

/// A field read as a non-empty string.
pub open spec fn nonempty_field_str(v: JsonValue, key: Seq<char>) -> Option<Seq<char>> {
    match get_field(v, key) {
        Some(x) => match spec_as_str(x) {
            Some(s) => if s.len() > 0 {
                Some(s)
            } else {
                None
            },
            None => None,
        },
        None => None,
    }
}

/// A field read as a boolean.
pub open spec fn field_bool(v: JsonValue, key: Seq<char>) -> Option<bool> {
    match get_field(v, key) {
        Some(x) => spec_as_bool(x),
        None => None,
    }
}

fn obj_get2<'a>(v: &'a JsonValue, k1: &str, k2: &str) -> (r: Option<&'a JsonValue>)
    ensures
        r matches Some(x) ==> field2(*v, k1@, k2@) == Some(*x),
        r is None <==> field2(*v, k1@, k2@) is None,
{
    match obj_get(v, k1) {
        Some(x) => Some(x),
        None => obj_get(v, k2),
    }
}

fn get_nonempty_str(v: &JsonValue, key: &str) -> (r: Option<String>)
    ensures
        r matches Some(s) ==> nonempty_field_str(*v, key@) == Some(s@),
        r is None <==> nonempty_field_str(*v, key@) is None,
{
    match obj_get(v, key) {
        Some(x) => match as_str_opt(x) {
            Some(s) => if s.as_str().is_empty() {
                None
            } else {
                Some(s)
            },
            None => None,
        },
        None => None,
    }
}

/// Where the node puts a balance: under `balance` (itself or its `flat` /
/// `balance_flat` entries), at one of four top-level names, or nested one
/// level under `data` or `result`, in that priority order.
pub open spec fn spec_parse_balance(v: JsonValue) -> Option<Seq<char>>
    decreases v,
    via check_parse_balance_decreases
{
    let s1 = match get_field(v, "balance"@) {
        Some(b) => {
            let direct = match field2(b, "flat"@, "balance_flat"@) {
                Some(f) => spec_balance_value_str(f),
                None => None,
            };
            match direct {
                Some(x) => Some(x),
                None => spec_balance_value_str(b),
            }
        },
        None => None,
    };
    match s1 {
        Some(x) => Some(x),
        None => {
            let picked = match field2(v, "balance_flat"@, "balance_ama"@) {
                Some(f) => Some(f),
                None => field2(v, "amount"@, "balance_flat_units"@),
            };
            let s2 = match picked {
                Some(f) => spec_balance_value_str(f),
                None => None,
            };
            match s2 {
                Some(x) => Some(x),
                None => {
                    let s3 = match get_field(v, "data"@) {
                        Some(d) => spec_parse_balance(d),
                        None => None,
                    };
                    match s3 {
                        Some(x) => Some(x),
                        None => match get_field(v, "result"@) {
                            Some(w) => spec_parse_balance(w),
                            None => None,
                        },
                    }
                },
            }
        },
    }
}

#[via_fn]
proof fn check_parse_balance_decreases(v: JsonValue) {
    if get_field(v, "data"@) is Some {
        lemma_field_decreases(v, "data"@);
    }
    if get_field(v, "result"@) is Some {
        lemma_field_decreases(v, "result"@);
    }
}

/// Extracts a balance from a response body, trying the documented spots in
/// priority order.
pub fn parse_balance_from_json(data: &JsonValue) -> (r: Option<String>)
    ensures
        r matches Some(s) ==> spec_parse_balance(*data) == Some(s@),
        r is None <==> spec_parse_balance(*data) is None,
    decreases *data,
{
    if let Some(b) = obj_get(data, "balance") {
        let direct = match obj_get2(b, "flat", "balance_flat") {
            Some(f) => balance_value_to_string(f),
            None => None,
        };
        let s1 = match direct {
            Some(x) => Some(x),
            None => balance_value_to_string(b),
        };
        if let Some(x) = s1 {
            return Some(x);
        }
    }
    let picked = match obj_get2(data, "balance_flat", "balance_ama") {
        Some(f) => Some(f),
        None => obj_get2(data, "amount", "balance_flat_units"),
    };
    let s2 = match picked {
        Some(f) => balance_value_to_string(f),
        None => None,
    };
    if let Some(x) = s2 {
        return Some(x);
    }
    if let Some(d) = obj_get(data, "data") {
        proof {
            lemma_field_decreases(*data, "data"@);
        }
        if let Some(x) = parse_balance_from_json(d) {
            return Some(x);
        }
    }
    if let Some(w) = obj_get(data, "result") {
        proof {
            lemma_field_decreases(*data, "result"@);
        }
        if let Some(x) = parse_balance_from_json(w) {
            return Some(x);
        }
    }
    None
}

/// The timestamp a nonce encodes, if any: nanoseconds, microseconds or
/// milliseconds by magnitude, kept only inside the years 2000 to 2100.
pub open spec fn spec_nonce_ms(v: JsonValue) -> Option<u64> {
    match spec_as_u64_lenient(v) {
        None => None,
        Some(n) => if n < 1000000000 {
            None
        } else {
            let ms: u64 = if n >= 1000000000000000 {
                n / 1000000
            } else if n >= 1000000000000 {
                n / 1000
            } else {
                n
            };
            if 946684800000 <= ms && ms <= 4102444800000 {
                Some(ms)
            } else {
                None
            }
        },
    }
}

/// Reads a nonce as an approximate millisecond timestamp.
pub fn nonce_to_timestamp_ms(value: &JsonValue) -> (r: Option<u64>)
    ensures
        r == spec_nonce_ms(*value),
{
    let n = match as_u64_lenient(value) {
        Some(n) => n,
        None => {
            return None;
        },
    };
    if n < 1000000000 {
        return None;
    }
    let ms: u64 = if n >= 1000000000000000 {
        n / 1000000
    } else if n >= 1000000000000 {
        n / 1000
    } else {
        n
    };
    if 946684800000 <= ms && ms <= 4102444800000 {
        Some(ms)
    } else {
        None
    }
}

/// The status a transaction object reports: the receipt's success flag and
/// result, then `result.error`, then `metadata.status`, normalizing any
/// casing of "ok".
pub open spec fn spec_status_from_tx(item: JsonValue) -> Option<Seq<char>> {
    let rcpt = get_field(item, "receipt"@);
    let s_succ: Option<Seq<char>> = match rcpt {
        Some(receipt) => match field_bool(receipt, "success"@) {
            Some(true) => Some("ok"@),
            Some(false) => match nonempty_field_str(receipt, "result"@) {
                Some(rs) => if !is_ok_ignore_case(rs) {
                    Some(rs)
                } else {
                    None
                },
                None => None,
            },
            None => None,
        },
        None => None,
    };
    match s_succ {
        Some(x) => Some(x),
        None => {
            let s_res: Option<Seq<char>> = match rcpt {
                Some(receipt) => match nonempty_field_str(receipt, "result"@) {
                    Some(rs) => Some(
                        if is_ok_ignore_case(rs) {
                            "ok"@
                        } else {
                            rs
                        },
                    ),
                    None => None,
                },
                None => None,
            };
            match s_res {
                Some(x) => Some(x),
                None => {
                    let s_err: Option<Seq<char>> = match get_field(item, "result"@) {
                        Some(rv) => match nonempty_field_str(rv, "error"@) {
                            Some(es) => Some(
                                if is_ok_ignore_case(es) {
                                    "ok"@
                                } else {
                                    es
                                },
                            ),
                            None => None,
                        },
                        None => None,
                    };
                    match s_err {
                        Some(x) => Some(x),
                        None => match get_field(item, "metadata"@) {
                            Some(md) => nonempty_field_str(md, "status"@),
                            None => None,
                        },
                    }
                },
            }
        },
    }
}

/// Derives a status text from a transaction object.
pub fn parse_status_from_tx_value(item: &JsonValue) -> (r: Option<String>)
    ensures
        r matches Some(s) ==> spec_status_from_tx(*item) == Some(s@),
        r is None <==> spec_status_from_tx(*item) is None,
{
    if let Some(receipt) = obj_get(item, "receipt") {
        let success = match obj_get(receipt, "success") {
            Some(x) => as_bool_opt(x),
            None => None,
        };
        if let Some(ok) = success {
            if ok {
                return Some(String::from_str("ok"));
            }
            if let Some(rs) = get_nonempty_str(receipt, "result") {
                if !str_is_ok_ignore_case(rs.as_str()) {
                    return Some(rs);
                }
            }
        }
        if let Some(rs) = get_nonempty_str(receipt, "result") {
            return Some(
                if str_is_ok_ignore_case(rs.as_str()) {
                    String::from_str("ok")
                } else {
                    rs
                },
            );
        }
    }
    if let Some(rv) = obj_get(item, "result") {
        if let Some(es) = get_nonempty_str(rv, "error") {
            return Some(
                if str_is_ok_ignore_case(es.as_str()) {
                    String::from_str("ok")
                } else {
                    es
                },
            );
        }
    }
    match obj_get(item, "metadata") {
        Some(md) => get_nonempty_str(md, "status"),
        None => None,
    }
}

/// The pagination cursor a response carries, under any of its three names,
/// an empty string counting as absent.
pub open spec fn spec_cursor(data: JsonValue) -> Option<Seq<char>> {
    let picked = match field2(data, "cursor"@, "next_cursor"@) {
        Some(x) => Some(x),
        None => get_field(data, "nextCursor"@),
    };
    match picked {
        Some(x) => match spec_as_str(x) {
            Some(s) => if s.len() > 0 {
                Some(s)
            } else {
                None
            },
            None => None,
        },
        None => None,
    }
}

/// Extracts the next-page cursor from a response body.
pub fn cursor_from_value(data: &JsonValue) -> (r: Option<String>)
    ensures
        r matches Some(s) ==> spec_cursor(*data) == Some(s@),
        r is None <==> spec_cursor(*data) is None,
{
    let picked = match obj_get2(data, "cursor", "next_cursor") {
        Some(x) => Some(x),
        None => obj_get(data, "nextCursor"),
    };
    match picked {
        Some(x) => match as_str_opt(x) {
            Some(s) => if s.as_str().is_empty() {
                None
            } else {
                Some(s)
            },
            None => None,
        },
        None => None,
    }
}

/// The action argument at an index: `tx.action.args[idx]`.
pub open spec fn spec_action_arg(item: JsonValue, idx: int) -> Option<JsonValue> {
    match get_field(item, "tx"@) {
        Some(t) => match get_field(t, "action"@) {
            Some(a) => match get_field(a, "args"@) {
                Some(JsonValue::Arr(arr)) => if 0 <= idx < arr@.len() {
                    Some(arr@[idx])
                } else {
                    None
                },
                _ => None,
            },
            None => None,
        },
        None => None,
    }
}

fn action_args_get<'a>(item: &'a JsonValue, idx: usize) -> (r: Option<&'a JsonValue>)
    ensures
        r matches Some(x) ==> spec_action_arg(*item, idx as int) == Some(*x),
        r is None <==> spec_action_arg(*item, idx as int) is None,
{
    let t = match obj_get(item, "tx") {
        Some(t) => t,
        None => {
            return None;
        },
    };
    let a = match obj_get(t, "action") {
        Some(a) => a,
        None => {
            return None;
        },
    };
    let args = match obj_get(a, "args") {
        Some(x) => x,
        None => {
            return None;
        },
    };
    match args {
        JsonValue::Arr(arr) => {
            if idx < arr.len() {
                Some(&arr[idx])
            } else {
                None
            }
        },
        _ => None,
    }
}

/// One entry of a wallet's transaction history.
#[derive(Debug, Clone)]
pub struct TransactionItem {
    pub tx_hash: Option<String>,
    pub kind: String,
    pub from_address: Option<String>,
    pub to_address: Option<String>,
    pub amount_flat: String,
    pub block_height: Option<u64>,
    pub status: Option<String>,
    pub memo: Option<String>,
    pub exec_used: Option<String>,
    pub timestamp_ms: Option<u64>,
}

/// The mathematical shadow of a `TransactionItem`.
pub struct TxItemView {
    pub tx_hash: Option<Seq<char>>,
    pub kind: Seq<char>,
    pub from_address: Option<Seq<char>>,
    pub to_address: Option<Seq<char>>,
    pub amount_flat: Seq<char>,
    pub block_height: Option<u64>,
    pub status: Option<Seq<char>>,
    pub memo: Option<Seq<char>>,
    pub exec_used: Option<Seq<char>>,
    pub timestamp_ms: Option<u64>,
}

pub open spec fn opt_seq(o: Option<String>) -> Option<Seq<char>> {
    match o {
        Some(s) => Some(s@),
        None => None,
    }
}

impl View for TransactionItem {
    type V = TxItemView;

    open spec fn view(&self) -> TxItemView {
        TxItemView {
            tx_hash: opt_seq(self.tx_hash),
            kind: self.kind@,
            from_address: opt_seq(self.from_address),
            to_address: opt_seq(self.to_address),
            amount_flat: self.amount_flat@,
            block_height: self.block_height,
            status: opt_seq(self.status),
            memo: opt_seq(self.memo),
            exec_used: opt_seq(self.exec_used),
            timestamp_ms: self.timestamp_ms,
        }
    }
}

pub open spec fn item_views(s: Seq<TransactionItem>) -> Seq<TxItemView> {
    s.map_values(|t: TransactionItem| t@)
}

/// What one response entry parses to: hashes, parties, amount, height,
/// status, memo, cost and timestamp under their documented fallbacks, and a
/// direction relative to the queried address.
pub open spec fn spec_parse_tx_item(item: JsonValue, my: Seq<char>) -> TxItemView {
    let tx_hash = match field2(item, "hash"@, "tx_hash"@) {
        Some(x) => spec_as_str(x),
        None => None,
    };
    let from_val = match get_field(item, "tx"@) {
        Some(t) => get_field(t, "signer"@),
        None => None,
    };
    let from = match (match from_val {
        Some(x) => Some(x),
        None => get_field(item, "signer"@),
    }) {
        Some(x) => spec_as_str(x),
        None => None,
    };
    let to = match (match spec_action_arg(item, 0) {
        Some(x) => spec_as_str(x),
        None => None,
    }) {
        Some(s) => Some(s),
        None => match get_field(item, "to_address"@) {
            Some(x) => spec_as_str(x),
            None => None,
        },
    };
    let amount_flat = match (match spec_action_arg(item, 1) {
        Some(x) => spec_amount_flat_str(x),
        None => None,
    }) {
        Some(s) => s,
        None => match (match get_field(item, "amount"@) {
            Some(x) => spec_amount_flat_str(x),
            None => None,
        }) {
            Some(s) => s,
            None => "0"@,
        },
    };
    let block_height = match get_field(item, "metadata"@) {
        Some(m) => match get_field(m, "entry_height"@) {
            Some(h) => spec_as_u64_lenient(h),
            None => None,
        },
        None => None,
    };
    let memo = match field2(item, "memo"@, "message"@) {
        Some(x) => spec_as_str(x),
        None => None,
    };
    let exec_used = match get_field(item, "receipt"@) {
        Some(rc) => match get_field(rc, "exec_used"@) {
            Some(x) => match spec_amount_flat_str(x) {
                Some(s) => if s.len() > 0 {
                    Some(s)
                } else {
                    None
                },
                None => None,
            },
            None => None,
        },
        None => None,
    };
    let timestamp_ms = match (match get_field(item, "tx"@) {
        Some(t) => match get_field(t, "nonce"@) {
            Some(nv) => spec_nonce_ms(nv),
            None => None,
        },
        None => None,
    }) {
        Some(ts) => Some(ts),
        None => match get_field(item, "nonce"@) {
            Some(nv) => spec_nonce_ms(nv),
            None => None,
        },
    };
    let kind = if from == Some(my) {
        "sent"@
    } else if to == Some(my) {
        "received"@
    } else {
        "unknown"@
    };
    TxItemView {
        tx_hash,
        kind,
        from_address: from,
        to_address: to,
        amount_flat,
        block_height,
        status: spec_status_from_tx(item),
        memo,
        exec_used,
        timestamp_ms,
    }
}

/// Parses one response entry; always yields an item.
pub fn parse_tx_item(item: &JsonValue, my_address: &str) -> (r: Option<TransactionItem>)
    ensures
        r matches Some(t) ==> t@ == spec_parse_tx_item(*item, my_address@),
        r is Some,
{
    let tx_hash = match obj_get2(item, "hash", "tx_hash") {
        Some(x) => as_str_opt(x),
        None => None,
    };
    let from_val = match obj_get(item, "tx") {
        Some(t) => obj_get(t, "signer"),
        None => None,
    };
    let from = match (match from_val {
        Some(x) => Some(x),
        None => obj_get(item, "signer"),
    }) {
        Some(x) => as_str_opt(x),
        None => None,
    };
    let to = match (match action_args_get(item, 0) {
        Some(x) => as_str_opt(x),
        None => None,
    }) {
        Some(s) => Some(s),
        None => match obj_get(item, "to_address") {
            Some(x) => as_str_opt(x),
            None => None,
        },
    };
    let amount_flat = match (match action_args_get(item, 1) {
        Some(x) => amount_flat_from_value(x),
        None => None,
    }) {
        Some(s) => s,
        None => match (match obj_get(item, "amount") {
            Some(x) => amount_flat_from_value(x),
            None => None,
        }) {
            Some(s) => s,
            None => String::from_str("0"),
        },
    };
    let block_height = match obj_get(item, "metadata") {
        Some(m) => match obj_get(m, "entry_height") {
            Some(h) => as_u64_lenient(h),
            None => None,
        },
        None => None,
    };
    let status = parse_status_from_tx_value(item);
    let memo = match obj_get2(item, "memo", "message") {
        Some(x) => as_str_opt(x),
        None => None,
    };
    let exec_used = match obj_get(item, "receipt") {
        Some(rc) => match obj_get(rc, "exec_used") {
            Some(x) => match amount_flat_from_value(x) {
                Some(s) => if s.as_str().is_empty() {
                    None
                } else {
                    Some(s)
                },
                None => None,
            },
            None => None,
        },
        None => None,
    };
    let timestamp_ms = match (match obj_get(item, "tx") {
        Some(t) => match obj_get(t, "nonce") {
            Some(nv) => nonce_to_timestamp_ms(nv),
            None => None,
        },
        None => None,
    }) {
        Some(ts) => Some(ts),
        None => match obj_get(item, "nonce") {
            Some(nv) => nonce_to_timestamp_ms(nv),
            None => None,
        },
    };
    let from_is_me = match &from {
        Some(s) => str_eq(s.as_str(), my_address),
        None => false,
    };
    let to_is_me = match &to {
        Some(s) => str_eq(s.as_str(), my_address),
        None => false,
    };
    let kind = if from_is_me {
        String::from_str("sent")
    } else if to_is_me {
        String::from_str("received")
    } else {
        String::from_str("unknown")
    };
    Some(
        TransactionItem {
            tx_hash,
            kind,
            from_address: from,
            to_address: to,
            amount_flat,
            block_height,
            status,
            memo,
            exec_used,
            timestamp_ms,
        },
    )
}

/// The block height a history entry sorts by; absent counts as zero.
pub open spec fn height_of(t: TxItemView) -> u64 {
    match t.block_height {
        Some(h) => h,
        None => 0u64,
    }
}

/// The tie-break rank at equal height: received entries first, sent last.
pub open spec fn kind_rank(t: TxItemView) -> int {
    if t.kind == "received"@ {
        0
    } else if t.kind == "sent"@ {
        2
    } else {
        1
    }
}

/// Descending height; with `tiebreak`, received before sent at equal height.
pub open spec fn item_le(tiebreak: bool, a: TxItemView, b: TxItemView) -> bool {
    height_of(a) > height_of(b) || (height_of(a) == height_of(b) && (!tiebreak || kind_rank(a)
        <= kind_rank(b)))
}

pub open spec fn item_ord(tiebreak: bool) -> spec_fn(TxItemView, TxItemView) -> bool {
    |a: TxItemView, b: TxItemView| item_le(tiebreak, a, b)
}

fn item_le_exec(tiebreak: bool, a: &TransactionItem, b: &TransactionItem) -> (r: bool)
    ensures
        r == item_le(tiebreak, a@, b@),
{
    let ha: u64 = match a.block_height {
        Some(h) => h,
        None => 0,
    };
    let hb: u64 = match b.block_height {
        Some(h) => h,
        None => 0,
    };
    if ha > hb {
        true
    } else if ha < hb {
        false
    } else if !tiebreak {
        true
    } else {
        let ra: u64 = if str_eq(a.kind.as_str(), "received") {
            0
        } else if str_eq(a.kind.as_str(), "sent") {
            2
        } else {
            1
        };
        let rb: u64 = if str_eq(b.kind.as_str(), "received") {
            0
        } else if str_eq(b.kind.as_str(), "sent") {
            2
        } else {
            1
        };
        ra <= rb
    }
}

proof fn lemma_item_sorted_insert(s: Seq<TxItemView>, i: int, x: TxItemView, tb: bool)
    requires
        vstd::relations::sorted_by(s, item_ord(tb)),
        0 <= i <= s.len(),
        forall|k: int| 0 <= k < i ==> #[trigger] item_ord(tb)(s[k], x),
        i < s.len() ==> item_ord(tb)(x, s[i]),
    ensures
        vstd::relations::sorted_by(s.insert(i, x), item_ord(tb)),
{
    let t = s.insert(i, x);
    assert forall|p: int, q: int| 0 <= p < q < t.len() implies item_ord(tb)(t[p], t[q]) by {
        if p < i && q < i {
            assert(item_ord(tb)(s[p], s[q]));
        } else if p < i && q == i {
        } else if p < i && q > i {
            assert(item_ord(tb)(s[p], s[q - 1]));
        } else if p == i && q > i {
            if q - 1 > i {
                assert(item_ord(tb)(s[i], s[q - 1]));
            }
            if i < s.len() {
                if q - 1 == i {
                    assert(item_ord(tb)(x, s[i]));
                } else {
                    assert(item_ord(tb)(x, s[i]) && item_ord(tb)(s[i], s[q - 1]));
                }
            }
        } else {
            assert(item_ord(tb)(s[p - 1], s[q - 1]));
        }
    }
}

/// Orders history entries by descending height; with `tiebreak`, received
/// entries come before sent ones at equal height. The result holds exactly
/// the given entries.
pub fn sort_items(items: Vec<TransactionItem>, tiebreak: bool) -> (r: Vec<TransactionItem>)
    ensures
        vstd::relations::sorted_by(item_views(r@), item_ord(tiebreak)),
        item_views(r@).to_multiset() == item_views(items@).to_multiset(),
{
    let ghost orig = item_views(items@);
    let mut rest = items;
    let mut sorted: Vec<TransactionItem> = Vec::new();
    proof {
        assert(item_views(sorted@).to_multiset().add(item_views(rest@).to_multiset())
            =~= orig.to_multiset()) by {
            assert(item_views(sorted@).to_multiset() =~= Multiset::<TxItemView>::empty());
        }
    }
    while rest.len() > 0
        invariant
            vstd::relations::sorted_by(item_views(sorted@), item_ord(tiebreak)),
            item_views(sorted@).to_multiset().add(item_views(rest@).to_multiset())
                == orig.to_multiset(),
        decreases rest@.len(),
    {
        let ghost pre = rest@;
        let p = rest.pop().unwrap();
        proof {
            assert(pre =~= rest@.push(p));
            assert(item_views(pre) =~= item_views(rest@).push(p@));
            assert(item_views(pre).to_multiset() =~= item_views(rest@).to_multiset().insert(p@));
        }
        let mut idx: usize = 0;
        while idx < sorted.len() && !item_le_exec(tiebreak, &p, &sorted[idx])
            invariant
                idx <= sorted@.len(),
                forall|k: int|
                    0 <= k < idx ==> #[trigger] item_ord(tiebreak)(item_views(sorted@)[k], p@),
            decreases sorted@.len() - idx,
        {
            proof {
                assert(item_le(tiebreak, item_views(sorted@)[idx as int], p@));
            }
            idx = idx + 1;
        }
        proof {
            let sv = item_views(sorted@);
            lemma_item_sorted_insert(sv, idx as int, p@, tiebreak);
            assert(sv.insert(idx as int, p@) =~= item_views(sorted@.insert(idx as int, p)));
            crate::vecpak::lemma_seq_insert_multiset(sv, idx as int, p@);
            assert(sv.to_multiset().insert(p@).add(item_views(rest@).to_multiset())
                =~= sv.to_multiset().add(item_views(rest@).to_multiset().insert(p@)));
        }
        sorted.insert(idx, p);
    }
    proof {
        assert(item_views(rest@).to_multiset() =~= Multiset::<TxItemView>::empty());
        assert(item_views(sorted@).to_multiset() =~= orig.to_multiset());
    }
    sorted
}

/// The entry array of a history response, under `txs` or `transactions`.
pub open spec fn spec_tx_array(data: JsonValue) -> Option<Seq<JsonValue>> {
    match get_field(data, "txs"@) {
        Some(JsonValue::Arr(a)) => Some(a@),
        _ => match get_field(data, "transactions"@) {
            Some(JsonValue::Arr(a)) => Some(a@),
            _ => None,
        },
    }
}

/// What one history response parses to, in response order.
pub open spec fn spec_tx_items(data: JsonValue, my: Seq<char>) -> Seq<TxItemView> {
    match spec_tx_array(data) {
        Some(a) => a.map_values(|x: JsonValue| spec_parse_tx_item(x, my)),
        None => Seq::<TxItemView>::empty(),
    }
}

/// Parses one history response into its entries, sorted by descending
/// height; a body without an entry array yields no entries.
pub fn parse_tx_list(data: &JsonValue, my_address: &str) -> (r: Vec<TransactionItem>)
    ensures
        item_views(r@).to_multiset() == spec_tx_items(*data, my_address@).to_multiset(),
        vstd::relations::sorted_by(item_views(r@), item_ord(false)),
{
    let arr: &Vec<JsonValue> = {
        let first = obj_get(data, "txs");
        let picked: Option<&JsonValue> = match first {
            Some(x) => match x {
                JsonValue::Arr(_) => Some(x),
                _ => obj_get(data, "transactions"),
            },
            None => obj_get(data, "transactions"),
        };
        match picked {
            Some(JsonValue::Arr(a)) => a,
            _ => {
                let out: Vec<TransactionItem> = Vec::new();
                proof {
                    assert(item_views(out@) =~= Seq::<TxItemView>::empty());
                    assert(spec_tx_items(*data, my_address@) =~= Seq::<TxItemView>::empty());
                    vstd::seq_lib::lemma_multiset_commutative(
                        Seq::<TxItemView>::empty(),
                        Seq::<TxItemView>::empty(),
                    );
                    assert(item_views(out@).to_multiset() =~= spec_tx_items(
                        *data,
                        my_address@,
                    ).to_multiset());
                }
                return out;
            },
        }
    };
    let ghost goal = arr@.map_values(|x: JsonValue| spec_parse_tx_item(x, my_address@));
    let mut out: Vec<TransactionItem> = Vec::new();
    let mut i: usize = 0;
    while i < arr.len()
        invariant
            i <= arr@.len(),
            goal == arr@.map_values(|x: JsonValue| spec_parse_tx_item(x, my_address@)),
            item_views(out@) =~= goal.take(i as int),
        decreases arr@.len() - i,
    {
        let t = parse_tx_item(&arr[i], my_address).unwrap();
        let ghost old_out = out@;
        out.push(t);
        i = i + 1;
        proof {
            assert(out@ == old_out.push(t));
            assert(item_views(old_out).len() == old_out.len());
            assert(old_out.len() == i - 1);
            assert(out@.len() == i);
            assert forall|k: int| 0 <= k < i implies #[trigger] item_views(out@)[k] == goal[k] by {
                if k < i - 1 {
                    assert(out@[k] == old_out[k]);
                    assert(item_views(old_out)[k] == goal.take(i as int - 1)[k]);
                } else {
                    assert(out@[k] == t);
                }
            }
            assert(item_views(out@) =~= goal.take(i as int));
        }
    }
    proof {
        assert(item_views(out@) =~= goal);
        assert(spec_tx_items(*data, my_address@) == goal);
    }
    sort_items(out, false)
}

/// The mirrored copy of a self-transfer: direction received, parties
/// swapped, everything else kept.
pub open spec fn mirror_of(t: TxItemView) -> TxItemView {
    TxItemView {
        tx_hash: t.tx_hash,
        kind: "received"@,
        from_address: t.to_address,
        to_address: t.from_address,
        amount_flat: t.amount_flat,
        block_height: t.block_height,
        status: t.status,
        memo: t.memo,
        exec_used: t.exec_used,
        timestamp_ms: t.timestamp_ms,
    }
}

/// Whether some received entry already carries this hash.
pub open spec fn in_received_hashes(all: Seq<TxItemView>, h: Seq<char>) -> bool {
    exists|i: int|
        0 <= i < all.len() && (#[trigger] all[i]).kind == "received"@ && all[i].tx_hash == Some(h)
}

/// A sent self-transfer whose hash no received entry carries: the ones a
/// mirrored copy is synthesized for.
pub open spec fn needs_mirror(all: Seq<TxItemView>, addr: Seq<char>, t: TxItemView) -> bool {
    t.kind == "sent"@ && t.to_address == Some(addr) && t.tx_hash is Some && !in_received_hashes(
        all,
        t.tx_hash->0,
    )
}

pub open spec fn mirror_pred(all: Seq<TxItemView>, addr: Seq<char>) -> spec_fn(TxItemView) -> bool {
    |t: TxItemView| needs_mirror(all, addr, t)
}

/// The synthesized mirrored entries for a combined history.
pub open spec fn mirrors_of(all: Seq<TxItemView>, addr: Seq<char>) -> Seq<TxItemView> {
    all.filter(mirror_pred(all, addr)).map_values(|t: TxItemView| mirror_of(t))
}

fn clone_opt_string(o: &Option<String>) -> (r: Option<String>)
    ensures
        r == *o,
{
    match o {
        Some(s) => Some(s.clone()),
        None => None,
    }
}

fn contains_hash(hashes: &Vec<String>, h: &String) -> (r: bool)
    ensures
        r == exists|k: int| 0 <= k < hashes@.len() && (#[trigger] hashes@[k])@ == h@,
{
    let mut i: usize = 0;
    while i < hashes.len()
        invariant
            i <= hashes@.len(),
            forall|k: int| 0 <= k < i ==> (#[trigger] hashes@[k])@ != h@,
        decreases hashes@.len() - i,
    {
        if str_eq(hashes[i].as_str(), h.as_str()) {
            return true;
        }
        i = i + 1;
    }
    false
}

/// Merges the sent and received histories: for every sent self-transfer
/// whose hash no received entry carries, a mirrored received copy joins the
/// list; the whole is ordered by descending height with received before
/// sent at equal height.
pub fn merge_transactions(
    sent: Vec<TransactionItem>,
    received: Vec<TransactionItem>,
    address: &str,
) -> (r: Vec<TransactionItem>)
    ensures
        ({
            let all = item_views(sent@) + item_views(received@);
            &&& vstd::relations::sorted_by(item_views(r@), item_ord(true))
            &&& item_views(r@).to_multiset() == (all + mirrors_of(all, address@)).to_multiset()
        }),
{
    broadcast use vstd::seq_lib::group_to_multiset_ensures;
    broadcast use vstd::multiset::group_multiset_axioms;

    let ghost sent_v = item_views(sent@);
    let ghost recv_v = item_views(received@);
    let mut all = sent;
    let mut rcv = received;
    all.append(&mut rcv);
    let ghost av = item_views(all@);
    proof {
        assert(av =~= sent_v + recv_v);
    }
    // the hashes the received entries already carry
    let mut hashes: Vec<String> = Vec::new();
    let mut i: usize = 0;
    while i < all.len()
        invariant
            i <= all@.len(),
            av == item_views(all@),
            forall|k: int|
                0 <= k < hashes@.len() ==> in_received_hashes(av, (#[trigger] hashes@[k])@),
            forall|j: int|
                0 <= j < i && (#[trigger] av[j]).kind == "received"@ && av[j].tx_hash is Some
                    ==> exists|k: int|
                    0 <= k < hashes@.len() && (#[trigger] hashes@[k])@ == av[j].tx_hash->0,
        decreases all@.len() - i,
    {
        let is_received = str_eq(all[i].kind.as_str(), "received");
        if is_received {
            match &all[i].tx_hash {
                Some(h) => {
                    let ghost old_hashes = hashes@;
                    let hc = h.clone();
                    hashes.push(hc);
                    proof {
                        assert(hashes@ == old_hashes.push(hc));
                        assert(in_received_hashes(av, h@)) by {
                            assert((av[i as int]).kind == "received"@ && av[i as int].tx_hash
                                == Some(h@));
                        }
                        assert forall|jj: int|
                            0 <= jj < i + 1 && (#[trigger] av[jj]).kind == "received"@
                                && av[jj].tx_hash is Some implies exists|k: int|
                            0 <= k < hashes@.len() && (#[trigger] hashes@[k])@ == av[jj].tx_hash->0
                        by {
                            if jj < i {
                                let k = choose|k: int|
                                    0 <= k < old_hashes.len() && (#[trigger] old_hashes[k])@
                                        == av[jj].tx_hash->0;
                                assert(hashes@[k] == old_hashes[k]);
                            } else {
                                assert(hashes@[hashes@.len() - 1]@ == av[i as int].tx_hash->0);
                            }
                        }
                    }
                },
                None => {},
            }
        }
        i = i + 1;
    }
    // mirrored copies of unmatched sent self-transfers
    let ghost pred = mirror_pred(av, address@);
    let mut extras: Vec<TransactionItem> = Vec::new();
    let mut j: usize = 0;
    proof {
        reveal(Seq::filter);
        assert(av.take(0).filter(pred) =~= Seq::<TxItemView>::empty());
        assert(item_views(extras@) =~= av.take(0).filter(pred).map_values(
            |t: TxItemView| mirror_of(t),
        ));
    }
    while j < all.len()
        invariant
            j <= all@.len(),
            av == item_views(all@),
            pred == mirror_pred(av, address@),
            forall|k: int|
                0 <= k < hashes@.len() ==> in_received_hashes(av, (#[trigger] hashes@[k])@),
            forall|jj: int|
                0 <= jj < av.len() && (#[trigger] av[jj]).kind == "received"@ && av[jj].tx_hash
                    is Some ==> exists|k: int|
                    0 <= k < hashes@.len() && (#[trigger] hashes@[k])@ == av[jj].tx_hash->0,
            item_views(extras@) =~= av.take(j as int).filter(pred).map_values(
                |t: TxItemView| mirror_of(t),
            ),
        decreases all@.len() - j,
    {
        proof {
            assert(av.take(j as int + 1).drop_last() =~= av.take(j as int));
            assert(av.take(j as int + 1).last() == av[j as int]);
            assert(av[j as int] == all@[j as int]@);
        }
        let ghost old_extras = extras@;
        let is_sent = str_eq(all[j].kind.as_str(), "sent");
        let is_self = match &all[j].to_address {
            Some(s) => str_eq(s.as_str(), address),
            None => false,
        };
        let mut took = false;
        if is_sent && is_self {
            match &all[j].tx_hash {
                Some(h) => {
                    if !contains_hash(&hashes, h) {
                        proof {
                            if in_received_hashes(av, h@) {
                                let jj = choose|jj: int|
                                    0 <= jj < av.len() && (#[trigger] av[jj]).kind == "received"@
                                        && av[jj].tx_hash == Some(h@);
                                assert(exists|k: int|
                                    0 <= k < hashes@.len() && (#[trigger] hashes@[k])@
                                        == av[jj].tx_hash->0);
                                let k = choose|k: int|
                                    0 <= k < hashes@.len() && (#[trigger] hashes@[k])@
                                        == av[jj].tx_hash->0;
                                assert((hashes@[k])@ == h@);
                                assert(false);
                            }
                            assert(!in_received_hashes(av, h@));
                            assert(pred(av[j as int]));
                        }
                        let m = TransactionItem {
                            tx_hash: clone_opt_string(&all[j].tx_hash),
                            kind: String::from_str("received"),
                            from_address: clone_opt_string(&all[j].to_address),
                            to_address: clone_opt_string(&all[j].from_address),
                            amount_flat: all[j].amount_flat.clone(),
                            block_height: all[j].block_height,
                            status: clone_opt_string(&all[j].status),
                            memo: clone_opt_string(&all[j].memo),
                            exec_used: clone_opt_string(&all[j].exec_used),
                            timestamp_ms: all[j].timestamp_ms,
                        };
                        proof {
                            assert(m@ == mirror_of(av[j as int]));
                        }
                        extras.push(m);
                        took = true;
                        proof {
                            reveal(Seq::filter);
                            assert(av.take(j as int + 1).filter(pred) =~= av.take(
                                j as int,
                            ).filter(pred).push(av[j as int]));
                            assert(item_views(extras@) =~= item_views(old_extras).push(
                                mirror_of(av[j as int]),
                            ));
                            assert(item_views(extras@) =~= av.take(j as int + 1).filter(
                                pred,
                            ).map_values(|t: TxItemView| mirror_of(t)));
                        }
                    } else {
                        proof {
                            let k = choose|k: int|
                                0 <= k < hashes@.len() && (#[trigger] hashes@[k])@ == h@;
                            assert(in_received_hashes(av, (hashes@[k])@));
                            assert(!pred(av[j as int]));
                        }
                    }
                },
                None => {
                    proof {
                        assert(!pred(av[j as int]));
                    }
                },
            }
        } else {
            proof {
                assert(!pred(av[j as int]));
            }
        }
        if !took {
            proof {
                reveal(Seq::filter);
                assert(!pred(av[j as int]));
                assert(av.take(j as int + 1).filter(pred) =~= av.take(j as int).filter(pred));
            }
        }
        j = j + 1;
    }
    proof {
        assert(av.take(av.len() as int) =~= av);
        assert(item_views(extras@) =~= mirrors_of(av, address@));
    }
    let ghost before_append = item_views(all@);
    let mut ex = extras;
    all.append(&mut ex);
    proof {
        assert(item_views(all@) =~= av + mirrors_of(av, address@));
    }
    sort_items(all, true)
}

} // verus!
