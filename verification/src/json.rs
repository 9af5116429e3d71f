use crate::text::{dec_digits, dec_int, i64_to_string, str_eq, u64_to_string};
use vstd::prelude::*;
use vstd::string::*;

verus! {

/// A JSON number as the client reads it. A non-integral number carries the
/// two integer projections the parsing rules use: its truncation toward
/// zero (saturated into the unsigned range) and its value scaled by a
/// billion and rounded (saturated into the signed range); the caller that
/// builds a `JsonValue` from a parsed document computes both.
pub enum JsonNum {
    U(u64),
    I(i64),
    F { trunc: u64, scaled9: i64 },
}

/// A parsed JSON document, as plain values.
pub enum JsonValue {
    Null,
    Bool(bool),
    Num(JsonNum),
    Str(String),
    Arr(Vec<JsonValue>),
    Obj(Vec<(String, JsonValue)>),
}

/// The first value under a key in an object's entry list.
pub open spec fn pairs_get(ps: Seq<(String, JsonValue)>, key: Seq<char>) -> Option<JsonValue>
    decreases ps.len(),
{
    if ps.len() == 0 {
        None
    } else if ps[0].0@ == key {
        Some(ps[0].1)
    } else {
        pairs_get(ps.drop_first(), key)
    }
}

/// Field lookup: the value under a key, on objects alone.
pub open spec fn get_field(v: JsonValue, key: Seq<char>) -> Option<JsonValue> {
    match v {
        JsonValue::Obj(ps) => pairs_get(ps@, key),
        _ => None,
    }
}

pub proof fn lemma_pairs_get_element(ps: Seq<(String, JsonValue)>, key: Seq<char>)
    requires
        pairs_get(ps, key) is Some,
    ensures
        exists|i: int| 0 <= i < ps.len() && #[trigger] ps[i].1 == pairs_get(ps, key)->0,
    decreases ps.len(),
{
    if ps.len() > 0 {
        if ps[0].0@ == key {
            assert(ps[0].1 == pairs_get(ps, key)->0);
        } else {
            lemma_pairs_get_element(ps.drop_first(), key);
            let i = choose|i: int|
                0 <= i < ps.drop_first().len() && #[trigger] ps.drop_first()[i].1 == pairs_get(
                    ps.drop_first(),
                    key,
                )->0;
            assert(ps[i + 1].1 == pairs_get(ps, key)->0);
        }
    }
}

/// A field's value sits below its object in the termination order.
pub proof fn lemma_field_decreases(v: JsonValue, key: Seq<char>)
    requires
        get_field(v, key) is Some,
    ensures
        decreases_to!(v => get_field(v, key)->0),
{
    let ps = v->Obj_0;
    lemma_pairs_get_element(ps@, key);
    let i = choose|i: int|
        0 <= i < ps@.len() && #[trigger] ps@[i].1 == pairs_get(ps@, key)->0;
    assert(decreases_to!(v => ps));
    assert(decreases_to!(ps => ps@));
    assert(decreases_to!(ps@ => ps@[i]));
    assert(decreases_to!(ps@[i] => ps@[i].1));
}

/// Field lookup on a borrowed object.
#[verifier::loop_isolation(false)]
pub fn obj_get<'a>(v: &'a JsonValue, key: &str) -> (r: Option<&'a JsonValue>)
    ensures
        r matches Some(x) ==> get_field(*v, key@) == Some(*x),
        r is None <==> get_field(*v, key@) is None,
{
    match v {
        JsonValue::Obj(ps) => {
            let mut i: usize = 0;
            proof {
                assert(ps@.skip(0) =~= ps@);
            }
            while i < ps.len()
                invariant
                    i <= ps@.len(),
                    pairs_get(ps@, key@) == pairs_get(
                        ps@.skip(i as int),
                        key@,
                    ),
                decreases ps@.len() - i,
            {
                if str_eq(ps[i].0.as_str(), key) {
                    proof {
                        assert(ps@.skip(i as int)[0] == ps@[i as int]);
                    }
                    return Some(&ps[i].1);
                }
                proof {
                    assert(ps@.skip(i as int)[0] == ps@[i as int]);
                    assert(ps@.skip(i as int).drop_first() =~= ps@.skip(i as int + 1));
                }
                i = i + 1;
            }
            proof {
                assert(ps@.skip(i as int).len() == 0);
            }
            None
        },
        _ => None,
    }
}

/// The string a value holds, on strings alone.
pub open spec fn spec_as_str(v: JsonValue) -> Option<Seq<char>> {
    match v {
        JsonValue::Str(s) => Some(s@),
        _ => None,
    }
}

/// String extraction, cloning the text.
pub fn as_str_opt(v: &JsonValue) -> (r: Option<String>)
    ensures
        r matches Some(s) ==> spec_as_str(*v) == Some(s@),
        r is None <==> spec_as_str(*v) is None,
{
    match v {
        JsonValue::Str(s) => Some(s.clone()),
        _ => None,
    }
}

/// The boolean a value holds, on booleans alone.
pub open spec fn spec_as_bool(v: JsonValue) -> Option<bool> {
    match v {
        JsonValue::Bool(b) => Some(b),
        _ => None,
    }
}

pub fn as_bool_opt(v: &JsonValue) -> (r: Option<bool>)
    ensures
        r == spec_as_bool(*v),
{
    match v {
        JsonValue::Bool(b) => Some(*b),
        _ => None,
    }
}

/// A number read as unsigned, then as signed cast to unsigned: how heights
/// and nonces are read. Non-integral numbers yield nothing.
pub open spec fn spec_as_u64_lenient(v: JsonValue) -> Option<u64> {
    match v {
        JsonValue::Num(JsonNum::U(n)) => Some(n),
        JsonValue::Num(JsonNum::I(n)) => Some(n as u64),
        _ => None,
    }
}

pub fn as_u64_lenient(v: &JsonValue) -> (r: Option<u64>)
    ensures
        r == spec_as_u64_lenient(*v),
{
    match v {
        JsonValue::Num(JsonNum::U(n)) => Some(*n),
        JsonValue::Num(JsonNum::I(n)) => Some(*n as u64),
        _ => None,
    }
}

/// A balance value as text: a string as it stands, integers in decimal, a
/// non-integral number truncated toward zero.
pub open spec fn spec_balance_value_str(v: JsonValue) -> Option<Seq<char>> {
    match v {
        JsonValue::Str(s) => Some(s@),
        JsonValue::Num(JsonNum::U(n)) => Some(dec_digits(n as nat)),
        JsonValue::Num(JsonNum::I(n)) => Some(dec_int(n as int)),
        JsonValue::Num(JsonNum::F { trunc, scaled9 }) => Some(dec_digits(trunc as nat)),
        _ => None,
    }
}

pub fn balance_value_to_string(v: &JsonValue) -> (r: Option<String>)
    ensures
        r matches Some(s) ==> spec_balance_value_str(*v) == Some(s@),
        r is None <==> spec_balance_value_str(*v) is None,
{
    match v {
        JsonValue::Str(s) => Some(s.clone()),
        JsonValue::Num(JsonNum::U(n)) => Some(u64_to_string(*n)),
        JsonValue::Num(JsonNum::I(n)) => Some(i64_to_string(*n)),
        JsonValue::Num(JsonNum::F { trunc, scaled9 }) => Some(u64_to_string(*trunc)),
        _ => None,
    }
}

/// An amount value as text: as the balance reading, except that a
/// non-integral number is scaled by a billion and rounded.
pub open spec fn spec_amount_flat_str(v: JsonValue) -> Option<Seq<char>> {
    match v {
        JsonValue::Str(s) => Some(s@),
        JsonValue::Num(JsonNum::U(n)) => Some(dec_digits(n as nat)),
        JsonValue::Num(JsonNum::I(n)) => Some(dec_int(n as int)),
        JsonValue::Num(JsonNum::F { trunc, scaled9 }) => Some(dec_int(scaled9 as int)),
        _ => None,
    }
}

pub fn amount_flat_from_value(v: &JsonValue) -> (r: Option<String>)
    ensures
        r matches Some(s) ==> spec_amount_flat_str(*v) == Some(s@),
        r is None <==> spec_amount_flat_str(*v) is None,
{
    match v {
        JsonValue::Str(s) => Some(s.clone()),
        JsonValue::Num(JsonNum::U(n)) => Some(u64_to_string(*n)),
        JsonValue::Num(JsonNum::I(n)) => Some(i64_to_string(*n)),
        JsonValue::Num(JsonNum::F { trunc, scaled9 }) => Some(i64_to_string(*scaled9)),
        _ => None,
    }
}

} // verus!
