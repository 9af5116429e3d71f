use crate::error::WalletError;
use crate::text::{chars_vec, dec_digits, trim_chars, trim_spec, string_from_chars, u64_to_string};
use vstd::prelude::*;
use vstd::string::*;

verus! {

pub open spec fn is_dec_digit(c: char) -> bool {
    '0' <= c && c <= '9'
}

pub open spec fn digit_val(c: char) -> nat {
    ((c as u32) - 48) as nat
}

pub open spec fn all_digits(s: Seq<char>) -> bool {
    forall|i: int| 0 <= i < s.len() ==> is_dec_digit(#[trigger] s[i])
}

/// The value of a run of decimal digits, leading zeroes allowed.
pub open spec fn digits_val(s: Seq<char>) -> nat
    decreases s.len(),
{
    if s.len() == 0 {
        0
    } else {
        digits_val(s.drop_last()) * 10 + digit_val(s.last())
    }
}

pub open spec fn pow10(k: nat) -> nat
    decreases k,
{
    if k == 0 {
        1
    } else {
        10 * pow10((k - 1) as nat)
    }
}

/// Splits an unsigned decimal body into integer and fractional digit runs,
/// or nothing if it is not digits with at most one point between them.
pub open spec fn split_int_frac(b: Seq<char>) -> Option<(Seq<char>, Seq<char>)>
    decreases b.len(),
{
    if b.len() == 0 {
        Some((Seq::empty(), Seq::empty()))
    } else if b[0] == '.' {
        if all_digits(b.drop_first()) {
            Some((Seq::empty(), b.drop_first()))
        } else {
            None
        }
    } else if is_dec_digit(b[0]) {
        match split_int_frac(b.drop_first()) {
            Some(p) => Some((seq![b[0]] + p.0, p.1)),
            None => None,
        }
    } else {
        None
    }
}

/// An exponent marker.
pub open spec fn is_exp_char(c: char) -> bool {
    c == 'e' || c == 'E'
}

/// The first exponent marker in a text, if any.
pub open spec fn find_exp(s: Seq<char>) -> Option<int>
    decreases s.len(),
{
    if s.len() == 0 {
        None
    } else if is_exp_char(s[0]) {
        Some(0)
    } else {
        match find_exp(s.drop_first()) {
            Some(j) => Some(j + 1),
            None => None,
        }
    }
}

/// The signed value of an exponent part: an optional sign, then at least
/// one digit.
pub open spec fn exp_val(rest: Seq<char>) -> Option<int> {
    let eneg = rest.len() > 0 && rest[0] == '-';
    let ed = if rest.len() > 0 && (rest[0] == '-' || rest[0] == '+') {
        rest.drop_first()
    } else {
        rest
    };
    if ed.len() >= 1 && all_digits(ed) {
        Some(
            if eneg {
                -(digits_val(ed) as int)
            } else {
                digits_val(ed) as int
            },
        )
    } else {
        None
    }
}

/// A trimmed amount text as sign, integer digits, fraction digits and
/// exponent; nothing if the text is not a decimal number with at least one
/// mantissa digit and, where a marker appears, a well-formed exponent.
pub open spec fn amount_parts(t: Seq<char>) -> Option<(bool, Seq<char>, Seq<char>, int)> {
    let mant = match find_exp(t) {
        Some(i) => t.take(i),
        None => t,
    };
    let e = match find_exp(t) {
        Some(i) => exp_val(t.skip(i + 1)),
        None => Some(0int),
    };
    match e {
        None => None,
        Some(ev) => {
            let neg = mant.len() > 0 && mant[0] == '-';
            let body = if mant.len() > 0 && (mant[0] == '-' || mant[0] == '+') {
                mant.drop_first()
            } else {
                mant
            };
            match split_int_frac(body) {
                Some(p) => if p.0.len() + p.1.len() >= 1 {
                    Some((neg, p.0, p.1, ev))
                } else {
                    None
                },
                None => None,
            }
        },
    }
}

/// A run of zero digits.
pub open spec fn zero_digits(n: nat) -> Seq<char> {
    Seq::new(n, |i: int| '0')
}

/// The digit runs with the decimal point moved `e` places to the right
/// (left for a negative `e`), padded with zeroes where it runs off an end.
pub open spec fn shift_point(ip: Seq<char>, fp: Seq<char>, e: int) -> (Seq<char>, Seq<char>) {
    if e >= 0 {
        if e <= fp.len() {
            (ip + fp.take(e), fp.skip(e))
        } else {
            (ip + fp + zero_digits((e - fp.len()) as nat), Seq::<char>::empty())
        }
    } else {
        if -e <= ip.len() {
            (ip.take(ip.len() + e), ip.skip(ip.len() + e) + fp)
        } else {
            (Seq::<char>::empty(), zero_digits((-e - ip.len()) as nat) + ip + fp)
        }
    }
}

/// The amount in flat units for digit runs and an exponent: the decimal
/// point shifted exactly, then nine-place scaling with rounding.
pub open spec fn flat_units_shifted(ip: Seq<char>, fp: Seq<char>, e: int) -> nat {
    flat_units(shift_point(ip, fp, e).0, shift_point(ip, fp, e).1)
}

/// The fraction scaled to nine decimal places, rounding half away from zero
/// at the ninth place.
pub open spec fn frac_scaled(fp: Seq<char>) -> nat {
    if fp.len() <= 9 {
        digits_val(fp) * pow10((9 - fp.len()) as nat)
    } else {
        digits_val(fp.take(9)) + (if digit_val(fp[9]) >= 5 {
            1nat
        } else {
            0nat
        })
    }
}

/// The amount in flat units: the integer part scaled by a billion plus the
/// rounded fraction.
pub open spec fn flat_units(ip: Seq<char>, fp: Seq<char>) -> nat {
    digits_val(ip) * 1000000000 + frac_scaled(fp)
}

/// The flat-unit count an amount text converts to, or nothing where the
/// text is rejected: malformed, negative, or out of 64-bit range.
pub open spec fn flat_units_of(amount: Seq<char>) -> Option<nat> {
    match amount_parts(trim_spec(amount)) {
        None => None,
        Some(p) => if p.0 && (digits_val(p.1) > 0 || digits_val(p.2) > 0) {
            None
        } else if flat_units_shifted(p.1, p.2, p.3) > u64::MAX {
            None
        } else {
            Some(flat_units_shifted(p.1, p.2, p.3))
        },
    }
}

proof fn lemma_split_all_digits(b: Seq<char>)
    requires
        all_digits(b),
    ensures
        split_int_frac(b) == Some((b, Seq::<char>::empty())),
    decreases b.len(),
{
    if b.len() > 0 {
        assert(is_dec_digit(b[0]));
        assert(all_digits(b.drop_first()));
        lemma_split_all_digits(b.drop_first());
        assert(seq![b[0]] + b.drop_first() =~= b);
    }
}

proof fn lemma_split_with_dot(b: Seq<char>, i: int)
    requires
        0 <= i < b.len(),
        b[i] == '.',
        all_digits(b.take(i)),
        all_digits(b.skip(i + 1)),
    ensures
        split_int_frac(b) == Some((b.take(i), b.skip(i + 1))),
    decreases b.len(),
{
    if i == 0 {
        assert(b.drop_first() =~= b.skip(1));
        assert(b.take(0) =~= Seq::<char>::empty());
    } else {
        assert(is_dec_digit(b[0])) by {
            assert(b.take(i)[0] == b[0]);
        }
        let d = b.drop_first();
        assert(d[i - 1] == '.');
        assert(all_digits(d.take(i - 1))) by {
            assert forall|k: int| 0 <= k < i - 1 implies is_dec_digit(#[trigger] d.take(i - 1)[k])
            by {
                assert(d.take(i - 1)[k] == b.take(i)[k + 1]);
            }
        }
        assert(d.skip(i) =~= b.skip(i + 1));
        lemma_split_with_dot(d, i - 1);
        assert(seq![b[0]] + d.take(i - 1) =~= b.take(i));
    }
}

proof fn lemma_split_bad_char(b: Seq<char>, k: int)
    requires
        0 <= k < b.len(),
        !is_dec_digit(b[k]),
        b[k] != '.',
    ensures
        split_int_frac(b) is None,
    decreases b.len(),
{
    if b.len() > 0 {
        if b[0] == '.' {
            assert(k >= 1);
            assert(!is_dec_digit(b.drop_first()[k - 1]));
        } else if is_dec_digit(b[0]) {
            assert(k >= 1);
            lemma_split_bad_char(b.drop_first(), k - 1);
        }
    }
}

proof fn lemma_split_two_dots(b: Seq<char>, i: int, j: int)
    requires
        0 <= i < j < b.len(),
        b[i] == '.',
        b[j] == '.',
    ensures
        split_int_frac(b) is None,
    decreases b.len(),
{
    if b[0] == '.' {
        assert(i == 0 || !is_dec_digit(b[i]));
        if i == 0 {
            assert(b.drop_first()[j - 1] == '.');
            assert(!is_dec_digit('.'));
            assert(!all_digits(b.drop_first()));
        } else {
            assert(!all_digits(b.drop_first())) by {
                assert(b.drop_first()[i - 1] == '.');
            }
        }
    } else if is_dec_digit(b[0]) {
        lemma_split_two_dots(b.drop_first(), i - 1, j - 1);
    }
}

/// Leading zeroes do not change a digit run's value.
proof fn lemma_digits_val_leading_zeros(s: Seq<char>, k: int)
    requires
        0 <= k <= s.len(),
        forall|i: int| 0 <= i < k ==> s[i] == '0',
    ensures
        digits_val(s) == digits_val(s.skip(k)),
    decreases s.len(),
{
    if k > 0 && s.len() > 0 {
        if k == s.len() {
            assert(s.last() == '0');
            lemma_digits_val_leading_zeros(s.drop_last(), k - 1);
            assert(s.drop_last().skip(k - 1) =~= s.skip(k - 1).drop_last());
            assert(s.skip(k) =~= Seq::<char>::empty());
            assert(digit_val('0') == 0);
            assert(digits_val(s.skip(k - 1)) == digits_val(s.skip(k - 1).drop_last()) * 10
                + digit_val(s.skip(k - 1).last()));
            assert(s.skip(k - 1).last() == '0');
        } else {
            lemma_digits_val_leading_zeros(s.drop_last(), k);
            assert(s.drop_last().skip(k) =~= s.skip(k).drop_last());
            assert(s.skip(k).last() == s.last());
        }
    } else {
        assert(s.skip(0) =~= s);
    }
}

/// A digit run's value is below ten to its length.
proof fn lemma_digits_val_upper(s: Seq<char>)
    requires
        all_digits(s),
    ensures
        digits_val(s) < pow10(s.len() as nat),
    decreases s.len(),
{
    if s.len() > 0 {
        assert(all_digits(s.drop_last()));
        lemma_digits_val_upper(s.drop_last());
        assert(digit_val(s.last()) <= 9);
    }
}

/// A digit run starting with a nonzero digit is at least ten to one less
/// than its length.
proof fn lemma_digits_val_lower(s: Seq<char>)
    requires
        all_digits(s),
        s.len() >= 1,
        s[0] != '0',
    ensures
        digits_val(s) >= pow10((s.len() - 1) as nat),
    decreases s.len(),
{
    if s.len() == 1 {
        assert(digit_val(s[0]) >= 1);
    } else {
        assert(all_digits(s.drop_last()));
        lemma_digits_val_lower(s.drop_last());
        assert(digits_val(s) >= digits_val(s.drop_last()) * 10);
    }
}

proof fn lemma_pow10_mono(a: nat, b: nat)
    requires
        a <= b,
    ensures
        pow10(a) <= pow10(b),
        pow10(a) >= 1,
    decreases b,
{
    if b > 0 {
        if a == b {
            lemma_pow10_mono((a - 1) as nat, (b - 1) as nat);
        } else {
            lemma_pow10_mono(a, (b - 1) as nat);
        }
    }
}

fn pow10_u64(k: usize) -> (r: u64)
    requires
        k <= 9,
    ensures
        r == pow10(k as nat),
{
    proof {
        reveal_with_fuel(pow10, 11);
    }
    if k == 0 {
        1
    } else if k == 1 {
        10
    } else if k == 2 {
        100
    } else if k == 3 {
        1000
    } else if k == 4 {
        10000
    } else if k == 5 {
        100000
    } else if k == 6 {
        1000000
    } else if k == 7 {
        10000000
    } else if k == 8 {
        100000000
    } else {
        1000000000
    }
}

fn is_digit_exec(c: char) -> (r: bool)
    ensures
        r == is_dec_digit(c),
{
    '0' <= c && c <= '9'
}

fn digit_val_exec(c: char) -> (r: u64)
    requires
        is_dec_digit(c),
    ensures
        r == digit_val(c),
        r <= 9,
{
    (c as u32 - 48) as u64
}

/// The value of the digit run `v[from..to]`, at most nineteen digits.
fn digits_value_exec(v: &Vec<char>, from: usize, to: usize) -> (r: u64)
    requires
        from <= to <= v@.len(),
        to - from <= 19,
        all_digits(v@.subrange(from as int, to as int)),
    ensures
        r == digits_val(v@.subrange(from as int, to as int)),
{
    proof {
        reveal_with_fuel(pow10, 20);
    }
    let mut acc: u64 = 0;
    let mut i: usize = from;
    while i < to
        invariant
            from <= i <= to <= v@.len(),
            to - from <= 19,
            all_digits(v@.subrange(from as int, to as int)),
            acc == digits_val(v@.subrange(from as int, i as int)),
            acc < pow10((i - from) as nat),
            pow10(19) == 10000000000000000000,
        decreases to - i,
    {
        let c = v[i];
        proof {
            assert(v@.subrange(from as int, to as int)[i - from] == v@[i as int]);
            assert(is_dec_digit(c));
            lemma_pow10_mono((i - from + 1) as nat, 19);
            reveal_with_fuel(pow10, 20);
        }
        let d = digit_val_exec(c);
        acc = acc * 10 + d;
        i = i + 1;
        proof {
            let sub = v@.subrange(from as int, i as int);
            assert(sub.drop_last() =~= v@.subrange(from as int, i as int - 1));
            assert(sub.last() == c);
        }
    }
    proof {
        assert(v@.subrange(from as int, i as int) =~= v@.subrange(from as int, to as int));
    }
    acc
}

fn is_exp_exec(c: char) -> (b: bool)
    ensures
        b == is_exp_char(c),
{
    c == 'e' || c == 'E'
}

/// Shifted digit runs are still digit runs.
proof fn lemma_shift_digits(ip: Seq<char>, fp: Seq<char>, e: int)
    requires
        all_digits(ip),
        all_digits(fp),
    ensures
        all_digits(shift_point(ip, fp, e).0),
        all_digits(shift_point(ip, fp, e).1),
{
    let s0 = shift_point(ip, fp, e).0;
    let s1 = shift_point(ip, fp, e).1;
    assert(is_dec_digit('0'));
    assert forall|k: int| 0 <= k < s0.len() implies is_dec_digit(#[trigger] s0[k]) by {
        if e >= 0 {
            if e <= fp.len() {
                if k >= ip.len() {
                    assert(s0[k] == fp.take(e)[k - ip.len()]);
                }
            } else {
                if ip.len() <= k < ip.len() + fp.len() {
                    assert(s0[k] == fp[k - ip.len()]);
                } else if k >= ip.len() + fp.len() {
                    assert(s0[k] == zero_digits((e - fp.len()) as nat)[k - ip.len() - fp.len()]);
                }
            }
        } else {
            if -e <= ip.len() {
                assert(s0[k] == ip.take(ip.len() + e)[k]);
            }
        }
    }
    assert forall|k: int| 0 <= k < s1.len() implies is_dec_digit(#[trigger] s1[k]) by {
        if e >= 0 {
            if e <= fp.len() {
                assert(s1[k] == fp.skip(e)[k]);
            }
        } else {
            if -e <= ip.len() {
                if k < ip.len() - (ip.len() + e) {
                    assert(s1[k] == ip.skip(ip.len() + e)[k]);
                } else {
                    assert(s1[k] == fp[k - (ip.len() - (ip.len() + e))]);
                }
            } else {
                let pad = (-e - ip.len()) as nat;
                if k < pad {
                    assert(s1[k] == zero_digits(pad)[k]);
                } else if k < pad + ip.len() {
                    assert(s1[k] == ip[k - pad]);
                } else {
                    assert(s1[k] == fp[k - pad - ip.len()]);
                }
            }
        }
    }
}

/// Reads the exponent part after a marker: a sign, then digits. Reports the
/// sign, whether the magnitude exceeds the thirty-eight-digit range, and
/// the exact magnitude when it does not.
#[verifier::loop_isolation(false)]
#[verifier::rlimit(60)]
fn parse_exponent(t: &Vec<char>, exp_idx: usize) -> (r: Result<(bool, bool, u128), ()>)
    requires
        exp_idx < t@.len(),
    ensures
        r is Ok <==> exp_val(t@.skip(exp_idx as int + 1)) is Some,
        r matches Ok(p) ==> ({
            let ev = exp_val(t@.skip(exp_idx as int + 1))->0;
            &&& p.0 ==> ev <= 0
            &&& !p.0 ==> ev >= 0
            &&& !p.1 ==> ev == (if p.0 {
                -(p.2 as int)
            } else {
                p.2 as int
            })
            &&& p.1 ==> (if p.0 {
                ev <= -pow10(38)
            } else {
                ev >= pow10(38)
            })
        }),
{
    let ghost er = t@.skip(exp_idx as int + 1);
    let tl = t.len();
    let mut e_neg = false;
    let mut ed_from: usize = exp_idx + 1;
    if ed_from < tl && (t[ed_from] == '-' || t[ed_from] == '+') {
        e_neg = t[ed_from] == '-';
        ed_from = ed_from + 1;
    }
    let ghost ed = t@.subrange(ed_from as int, t@.len() as int);
    proof {
        if er.len() > 0 && (er[0] == '-' || er[0] == '+') {
            assert(er.drop_first() =~= ed);
        } else {
            assert(er =~= ed);
        }
    }
    if ed_from == tl {
        return Err(());
    }
    let mut y: usize = ed_from;
    while y < tl
        invariant
            ed_from <= y <= t@.len(),
            forall|k: int| ed_from <= k < y ==> is_dec_digit(#[trigger] t@[k]),
        decreases t@.len() - y,
    {
        if !is_digit_exec(t[y]) {
            proof {
                assert(ed[y - ed_from] == t@[y as int]);
                assert(!all_digits(ed));
            }
            return Err(());
        }
        y = y + 1;
    }
    proof {
        assert forall|k: int| 0 <= k < ed.len() implies is_dec_digit(#[trigger] ed[k]) by {
            assert(ed[k] == t@[ed_from + k]);
        }
        assert(all_digits(ed));
    }
    // strip leading zeroes off the exponent digits
    let mut es: usize = ed_from;
    while es < tl && t[es] == '0'
        invariant
            ed_from <= es <= t@.len(),
            forall|k: int| ed_from <= k < es ==> t@[k] == '0',
        decreases t@.len() - es,
    {
        es = es + 1;
    }
    proof {
        assert forall|k: int| 0 <= k < es - ed_from implies #[trigger] ed[k] == '0' by {
            assert(ed[k] == t@[ed_from + k]);
        }
        assert(ed.skip(es - ed_from) =~= t@.subrange(es as int, t@.len() as int));
        lemma_digits_val_leading_zeros(ed, es - ed_from);
    }
    let sig_len = tl - es;
    if sig_len > 38 {
        proof {
            let sig = t@.subrange(es as int, t@.len() as int);
            assert(all_digits(sig)) by {
                assert(forall|k: int| 0 <= k < sig.len() ==> sig[k] == #[trigger] ed[k + es
                    - ed_from]);
            }
            assert(sig[0] != '0');
            lemma_digits_val_lower(sig);
            lemma_pow10_mono(38, (sig.len() - 1) as nat);
            assert(digits_val(ed) >= pow10(38));
        }
        Ok((e_neg, true, 0))
    } else {
        proof {
            let sig = t@.subrange(es as int, t@.len() as int);
            assert(all_digits(sig)) by {
                assert(forall|k: int| 0 <= k < sig.len() ==> sig[k] == #[trigger] ed[k + es
                    - ed_from]);
            }
        }
        let m = digits_value_u128(t, es, tl);
        Ok((e_neg, false, m))
    }
}

/// Applies an exponent to validated digit runs with a nonzero value: shifts
/// the point exactly and yields the flat-unit count, or nothing over the
/// 64-bit cap.
#[verifier::loop_isolation(false)]
#[verifier::rlimit(100)]
#[verifier::spinoff_prover]
fn apply_exponent(
    t: &Vec<char>,
    ip_from: usize,
    ip_to: usize,
    fp_from: usize,
    fp_to: usize,
    e_neg: bool,
    e_huge: bool,
    e_mag: u128,
    ev: Ghost<int>,
) -> (r: Option<u64>)
    requires
        ip_from <= ip_to <= fp_from <= fp_to <= t@.len(),
        all_digits(t@.subrange(ip_from as int, ip_to as int)),
        all_digits(t@.subrange(fp_from as int, fp_to as int)),
        digits_val(t@.subrange(ip_from as int, ip_to as int)) > 0 || digits_val(
            t@.subrange(fp_from as int, fp_to as int),
        ) > 0,
        !e_huge ==> ev@ == (if e_neg {
            -(e_mag as int)
        } else {
            e_mag as int
        }),
        e_huge ==> (if e_neg {
            ev@ <= -pow10(38)
        } else {
            ev@ >= pow10(38)
        }),
    ensures
        ({
            let flat = flat_units_shifted(
                t@.subrange(ip_from as int, ip_to as int),
                t@.subrange(fp_from as int, fp_to as int),
                ev@,
            );
            &&& r matches Some(v) ==> flat <= u64::MAX && v == flat
            &&& r is None ==> flat > u64::MAX
        }),
{
    let ghost ip = t@.subrange(ip_from as int, ip_to as int);
    let ghost fp = t@.subrange(fp_from as int, fp_to as int);
    let ip_len = ip_to - ip_from;
    let f_len = fp_to - fp_from;
    proof {
        // a nonzero value means some digit is nonzero
        if digits_val(ip) > 0 {
            if forall|k: int| 0 <= k < ip.len() ==> #[trigger] ip[k] == '0' {
                lemma_digits_all_zero(ip);
            }
        } else {
            if forall|k: int| 0 <= k < fp.len() ==> #[trigger] fp[k] == '0' {
                lemma_digits_all_zero(fp);
            }
        }
        assert(exists|k: int|
            0 <= k < (ip + fp).len() && #[trigger] (ip + fp)[k] != '0') by {
            if digits_val(ip) > 0 {
                let k = choose|k: int| 0 <= k < ip.len() && #[trigger] ip[k] != '0';
                assert((ip + fp)[k] != '0');
            } else {
                let k = choose|k: int| 0 <= k < fp.len() && #[trigger] fp[k] != '0';
                assert((ip + fp)[ip.len() + k] != '0');
            }
        }
        assert(all_digits(ip + fp)) by {
            assert(forall|k: int|
                0 <= k < ip.len() ==> #[trigger] (ip + fp)[k] == ip[k]);
            assert(forall|k: int|
                ip.len() <= k < (ip + fp).len() ==> #[trigger] (ip + fp)[k] == fp[k - ip.len()]);
        }
        reveal_with_fuel(pow10, 39);
    }
    if !e_neg {
        let too_big = e_huge || e_mag > (f_len as u128) + 20;
        if too_big {
            proof {
                assert(ev@ > f_len + 20);
                let pad = (ev@ - f_len) as nat;
                assert(pad >= 21);
                assert(shift_point(ip, fp, ev@).0 =~= (ip + fp) + zero_digits(pad));
                assert(shift_point(ip, fp, ev@).1 =~= Seq::<char>::empty());
                let k = choose|k: int|
                    0 <= k < (ip + fp).len() && #[trigger] (ip + fp)[k] != '0';
                lemma_flat_big(ip + fp, pad, k);
            }
            return None;
        }
        let mut tt: Vec<char> = Vec::new();
        let new_ip_len: usize;
        if e_mag <= f_len as u128 {
            let e_us = e_mag as usize;
            proof {
                assert(e_us as int == ev@);
            }
            copy_range(t, ip_from, ip_to, &mut tt);
            copy_range(t, fp_from, fp_from + e_us, &mut tt);
            new_ip_len = tt.len();
            copy_range(t, fp_from + e_us, fp_to, &mut tt);
            proof {
                assert(t@.subrange(fp_from as int, fp_from as int + e_us) =~= fp.take(e_us as int));
                assert(t@.subrange(fp_from as int + e_us, fp_to as int) =~= fp.skip(e_us as int));
                assert(tt@.subrange(0, new_ip_len as int) =~= ip + fp.take(e_us as int));
                assert(tt@.subrange(new_ip_len as int, tt@.len() as int) =~= fp.skip(e_us as int));
                assert(tt@.subrange(0, new_ip_len as int) == shift_point(ip, fp, ev@).0);
                assert(tt@.subrange(new_ip_len as int, tt@.len() as int) == shift_point(
                    ip,
                    fp,
                    ev@,
                ).1);
            }
        } else {
            let pad = (e_mag - f_len as u128) as usize;
            proof {
                assert(pad as int == ev@ - fp.len());
            }
            copy_range(t, ip_from, ip_to, &mut tt);
            copy_range(t, fp_from, fp_to, &mut tt);
            push_zeros(&mut tt, pad);
            new_ip_len = tt.len();
            proof {
                assert(tt@.subrange(0, new_ip_len as int) =~= ip + fp + zero_digits(
                    (ev@ - fp.len()) as nat,
                ));
                assert(tt@.subrange(new_ip_len as int, tt@.len() as int) =~= Seq::<char>::empty());
                assert(tt@.subrange(0, new_ip_len as int) == shift_point(ip, fp, ev@).0);
                assert(tt@.subrange(new_ip_len as int, tt@.len() as int) == shift_point(
                    ip,
                    fp,
                    ev@,
                ).1);
            }
        }
        proof {
            lemma_shift_digits(ip, fp, ev@);
        }
        flat_value(&tt, 0, new_ip_len, new_ip_len)
    } else {
        let too_deep = e_huge || e_mag > (ip_len as u128) + 10;
        if too_deep {
            proof {
                assert(-ev@ > ip_len + 10);
                let pad = (-ev@ - ip.len()) as nat;
                assert(pad >= 10);
                assert(shift_point(ip, fp, ev@).0 =~= Seq::<char>::empty());
                assert(shift_point(ip, fp, ev@).1 =~= zero_digits(pad) + (ip + fp));
                lemma_flat_deep_neg(pad, ip + fp);
                assert(flat_units_shifted(ip, fp, ev@) == 0);
            }
            return Some(0);
        }
        let mut tt: Vec<char> = Vec::new();
        let new_ip_len: usize;
        if e_mag <= ip_len as u128 {
            let j = e_mag as usize;
            proof {
                assert(j as int == -ev@);
            }
            copy_range(t, ip_from, ip_to - j, &mut tt);
            new_ip_len = tt.len();
            copy_range(t, ip_to - j, ip_to, &mut tt);
            copy_range(t, fp_from, fp_to, &mut tt);
            proof {
                assert(t@.subrange(ip_from as int, ip_to as int - j) =~= ip.take(
                    ip.len() + ev@,
                ));
                assert(t@.subrange(ip_to as int - j, ip_to as int) =~= ip.skip(ip.len() + ev@));
                assert(tt@.subrange(0, new_ip_len as int) =~= ip.take(ip.len() + ev@));
                assert(tt@.subrange(new_ip_len as int, tt@.len() as int) =~= ip.skip(
                    ip.len() + ev@,
                ) + fp);
                assert(tt@.subrange(0, new_ip_len as int) == shift_point(ip, fp, ev@).0);
                assert(tt@.subrange(new_ip_len as int, tt@.len() as int) == shift_point(
                    ip,
                    fp,
                    ev@,
                ).1);
            }
        } else {
            let pad = (e_mag - ip_len as u128) as usize;
            proof {
                assert(pad as int == -ev@ - ip.len());
            }
            new_ip_len = 0;
            push_zeros(&mut tt, pad);
            copy_range(t, ip_from, ip_to, &mut tt);
            copy_range(t, fp_from, fp_to, &mut tt);
            proof {
                assert(tt@.subrange(0, 0) =~= Seq::<char>::empty());
                assert(tt@.subrange(0, tt@.len() as int) =~= zero_digits((-ev@ - ip.len()) as nat)
                    + ip + fp);
                assert(tt@.subrange(0, new_ip_len as int) == shift_point(ip, fp, ev@).0);
                assert(tt@.subrange(new_ip_len as int, tt@.len() as int) == shift_point(
                    ip,
                    fp,
                    ev@,
                ).1);
            }
        }
        proof {
            lemma_shift_digits(ip, fp, ev@);
        }
        flat_value(&tt, 0, new_ip_len, new_ip_len)
    }
}

/// Scans the mantissa region `t[start..mant_end]`: digits with at most one
/// point between them, at least one digit. Yields the point split and
/// whether the digits carry a nonzero value.
#[verifier::loop_isolation(false)]
#[verifier::rlimit(100)]
#[verifier::spinoff_prover]
fn scan_mantissa(t: &Vec<char>, start: usize, mant_end: usize) -> (r: Result<
    (usize, usize, bool),
    (),
>)
    requires
        start <= mant_end <= t@.len(),
    ensures
        ({
            let body = t@.subrange(start as int, mant_end as int);
            &&& r is Err ==> (match split_int_frac(body) {
                Some(p) => p.0.len() + p.1.len() == 0,
                None => true,
            })
            &&& r matches Ok(q) ==> ({
                let ip = t@.subrange(start as int, q.0 as int);
                let fp = t@.subrange(q.1 as int, mant_end as int);
                &&& start <= q.0 <= q.1 <= mant_end
                &&& split_int_frac(body) == Some((ip, fp))
                &&& ip.len() + fp.len() >= 1
                &&& all_digits(ip) && all_digits(fp)
                &&& (q.2 <==> (digits_val(ip) > 0 || digits_val(fp) > 0))
                &&& !q.2 ==> ((forall|k: int| 0 <= k < ip.len() ==> #[trigger] ip[k] == '0')
                    && (forall|k: int| 0 <= k < fp.len() ==> #[trigger] fp[k] == '0'))
            })
        }),
{
    let ghost body = t@.subrange(start as int, mant_end as int);
    let mut dot: Option<usize> = None;
    let mut digit_count: usize = 0;
    let mut nonzero = false;
    let mut i: usize = start;
    while i < mant_end
        invariant
            start <= i <= mant_end,
            dot matches Some(d) ==> start <= d < i && t@[d as int] == '.',
            forall|k: int|
                start <= k < i && (dot matches Some(d) ==> k != d) ==> is_dec_digit(
                    #[trigger] t@[k],
                ),
            dot is None ==> forall|k: int| start <= k < i ==> is_dec_digit(#[trigger] t@[k]),
            digit_count <= i,
            nonzero <==> (exists|k: int|
                start <= k < i && is_dec_digit(#[trigger] t@[k]) && t@[k] != '0'),
            digit_count == 0 <==> (forall|k: int|
                start <= k < i ==> !is_dec_digit(#[trigger] t@[k])),
        decreases mant_end - i,
    {
        let c = t[i];
        if c == '.' {
            if dot.is_some() {
                proof {
                    let d0 = dot->0;
                    lemma_split_two_dots(body, d0 - start, i - start);
                }
                return Err(());
            }
            dot = Some(i);
        } else if is_digit_exec(c) {
            digit_count = digit_count + 1;
            if c != '0' {
                nonzero = true;
            }
        } else {
            proof {
                lemma_split_bad_char(body, i - start);
            }
            return Err(());
        }
        i = i + 1;
    }
    if digit_count == 0 {
        proof {
            if body.len() == 0 {
            } else {
                match dot {
                    Some(d) => {
                        if d > start {
                            assert(is_dec_digit(t@[start as int]));
                            assert(!is_dec_digit(t@[start as int]));
                        }
                        assert(d == start);
                        if mant_end > start + 1 {
                            assert(is_dec_digit(t@[start as int + 1]));
                            assert(!is_dec_digit(t@[start as int + 1]));
                        }
                        assert(mant_end == start + 1);
                        assert(body.len() == 1 && body[0] == '.');
                        assert(body.drop_first() =~= Seq::<char>::empty());
                        lemma_split_with_dot(body, 0);
                        assert(body.take(0).len() + body.skip(1).len() == 0);
                    },
                    None => {
                        assert(all_digits(body));
                        assert(is_dec_digit(body[0])) by {
                            assert(body[0] == t@[start as int]);
                        }
                        assert(!is_dec_digit(t@[start as int]));
                        assert(false);
                    },
                }
            }
        }
        return Err(());
    }
    let (ip_to, fp_from): (usize, usize) = match dot {
        Some(d) => (d, d + 1),
        None => (mant_end, mant_end),
    };
    let ghost ip = t@.subrange(start as int, ip_to as int);
    let ghost fp = t@.subrange(fp_from as int, mant_end as int);
    proof {
        match dot {
            Some(d) => {
                assert(body.take(d - start) =~= ip);
                assert(body.skip(d - start + 1) =~= fp);
                lemma_split_with_dot(body, d - start);
            },
            None => {
                assert(body =~= ip);
                assert(fp =~= Seq::<char>::empty());
                lemma_split_all_digits(body);
            },
        }
        assert(ip.len() + fp.len() >= 1) by {
            if ip.len() + fp.len() == 0 {
                match dot {
                    Some(d) => {
                        assert(d == ip_to && ip_to == start && fp_from == mant_end);
                        assert(!is_dec_digit(t@[start as int]));
                        assert(digit_count == 0);
                    },
                    None => {
                        assert(mant_end == start);
                        assert(digit_count == 0);
                    },
                }
            }
        }
        assert(all_digits(ip));
        assert(all_digits(fp));
        if nonzero {
            let k = choose|k: int|
                start <= k < mant_end && is_dec_digit(#[trigger] t@[k]) && t@[k] != '0';
            if k < ip_to {
                assert(ip[k - start] == t@[k]);
                lemma_digits_nonzero(ip, k - start);
            } else {
                assert(fp[k - fp_from] == t@[k]);
                lemma_digits_nonzero(fp, k - fp_from);
            }
        } else {
            assert(forall|k: int|
                start <= k < mant_end ==> (is_dec_digit(#[trigger] t@[k]) ==> t@[k] == '0'));
            assert forall|k: int| 0 <= k < ip.len() implies #[trigger] ip[k] == '0' by {
                assert(ip[k] == t@[k + start]);
            }
            assert forall|k: int| 0 <= k < fp.len() implies #[trigger] fp[k] == '0' by {
                assert(fp[k] == t@[k + fp_from]);
            }
            lemma_digits_all_zero(ip);
            lemma_digits_all_zero(fp);
        }
    }
    Ok((ip_to, fp_from, nonzero))
}

/// Converts a decimal amount text to its count of flat units, rendered in
/// decimal: the trimmed text must be a non-negative decimal number, with an
/// optional exponent, whose scaled value fits an unsigned 64-bit count.
#[verifier::loop_isolation(false)]
#[verifier::rlimit(100)]
#[verifier::spinoff_prover]
pub fn amount_to_flat_units(amount: &str) -> (r: Result<String, WalletError>)
    ensures
        r is Ok <==> flat_units_of(amount@) is Some,
        r matches Ok(s) ==> s@ == dec_digits(flat_units_of(amount@)->0),
        r matches Err(e) ==> e is Crypto,
        ({
            let t = trim_spec(amount@);
            &&& t.len() == 0 ==> (r matches Err(e) && e matches WalletError::Crypto(m) && m@
                == "Amount cannot be empty"@)
            &&& (t.len() > 0 && amount_parts(t) is None) ==> (r matches Err(e) && e matches
                WalletError::Crypto(m) && m@ == "Invalid amount: "@ + t)
            &&& amount_parts(t) matches Some(p) ==> {
                let flat = flat_units_shifted(p.1, p.2, p.3);
                &&& (p.0 && (digits_val(p.1) > 0 || digits_val(p.2) > 0)) ==> (r matches Err(e)
                    && e matches WalletError::Crypto(m) && m@
                    == "Amount must be a non-negative number"@)
                &&& (!(p.0 && (digits_val(p.1) > 0 || digits_val(p.2) > 0)) && flat > u64::MAX)
                    ==> (r matches Err(e) && e matches WalletError::Crypto(m) && m@
                    == "Amount too large"@)
                &&& (!(p.0 && (digits_val(p.1) > 0 || digits_val(p.2) > 0)) && flat <= u64::MAX)
                    ==> (r matches Ok(s) && s@ == dec_digits(flat))
            }
        }),
{
    let cs = chars_vec(amount);
    let t = trim_chars(&cs);
    if t.len() == 0 {
        return Err(WalletError::Crypto(String::from_str("Amount cannot be empty")));
    }
    let invalid_err = {
        let mut m = String::from_str("Invalid amount: ");
        let tstr = string_from_chars(&t);
        m.append(tstr.as_str());
        m
    };
    // locate the exponent marker, if any
    let mut x: usize = 0;
    while x < t.len() && !is_exp_exec(t[x])
        invariant
            x <= t@.len(),
            forall|k: int| 0 <= k < x ==> !is_exp_char(#[trigger] t@[k]),
        decreases t@.len() - x,
    {
        x = x + 1;
    }
    let mant_end: usize = x;
    proof {
        if mant_end < t@.len() {
            lemma_find_exp_hit(t@, mant_end as int);
        } else {
            lemma_find_exp_none(t@);
        }
    }
    let ghost mant = (match find_exp(t@) {
        Some(i) => t@.take(i),
        None => t@,
    });
    proof {
        assert(mant =~= t@.subrange(0, mant_end as int));
    }
    // the exponent's sign and magnitude, where a marker is present
    let has_exp = mant_end < t.len();
    let (e_neg, e_huge, e_mag): (bool, bool, u128) = if has_exp {
        match parse_exponent(&t, mant_end) {
            Ok(p) => p,
            Err(_) => {
                return Err(WalletError::Crypto(invalid_err));
            },
        }
    } else {
        (false, false, 0)
    };
    let ghost ev: int = (match find_exp(t@) {
        Some(i) => exp_val(t@.skip(i + 1))->0,
        None => 0int,
    });
    // mantissa sign
    let neg = mant_end > 0 && t[0] == '-';
    let start: usize = if mant_end > 0 && (t[0] == '-' || t[0] == '+') {
        1
    } else {
        0
    };
    let ghost body = t@.subrange(start as int, mant_end as int);
    proof {
        if start == 1 {
            assert(body =~= mant.drop_first());
        } else {
            assert(body =~= mant);
        }
    }
    let (ip_to, fp_from, nonzero) = match scan_mantissa(&t, start, mant_end) {
        Ok(q) => q,
        Err(_) => {
            proof {
                assert(amount_parts(t@) is None);
            }
            return Err(WalletError::Crypto(invalid_err));
        },
    };
    let ip_from: usize = start;
    let fp_to: usize = mant_end;
    let ghost ip = t@.subrange(ip_from as int, ip_to as int);
    let ghost fp = t@.subrange(fp_from as int, fp_to as int);
    proof {
        assert(amount_parts(t@) == Some((neg, ip, fp, ev)));
    }
    if neg && nonzero {
        return Err(WalletError::Crypto(String::from_str("Amount must be a non-negative number")));
    }
    if !nonzero {
        proof {
            lemma_shift_all_zero(ip, fp, ev);
        }
        return Ok(u64_to_string(0));
    }
    match apply_exponent(&t, ip_from, ip_to, fp_from, fp_to, e_neg, e_huge, e_mag, Ghost(ev)) {
        None => Err(WalletError::Crypto(String::from_str("Amount too large"))),
        Some(flat64) => Ok(u64_to_string(flat64)),
    }
}

/// The flat-unit value of the digit runs `t[ip_from..ip_to]` (integer part)
/// and `t[fp_from..]` (fraction), or nothing when it exceeds the 64-bit cap.
#[verifier::loop_isolation(false)]
#[verifier::rlimit(100)]
#[verifier::spinoff_prover]
fn flat_value(t: &Vec<char>, ip_from: usize, ip_to: usize, fp_from: usize) -> (r: Option<u64>)
    requires
        ip_from <= ip_to <= fp_from <= t@.len(),
        all_digits(t@.subrange(ip_from as int, ip_to as int)),
        all_digits(t@.subrange(fp_from as int, t@.len() as int)),
    ensures
        ({
            let flat = flat_units(
                t@.subrange(ip_from as int, ip_to as int),
                t@.subrange(fp_from as int, t@.len() as int),
            );
            &&& r matches Some(v) ==> flat <= u64::MAX && v == flat
            &&& r is None ==> flat > u64::MAX
        }),
{
    let ghost ip = t@.subrange(ip_from as int, ip_to as int);
    let ghost fp = t@.subrange(fp_from as int, t@.len() as int);
    let fp_to: usize = t.len();
    // strip leading zeroes off the integer digits
    let mut sig: usize = ip_from;
    while sig < ip_to && t[sig] == '0'
        invariant
            ip_from <= sig <= ip_to,
            forall|k: int| ip_from <= k < sig ==> t@[k] == '0',
        decreases ip_to - sig,
    {
        sig = sig + 1;
    }
    proof {
        assert(ip.skip(sig - ip_from) =~= t@.subrange(sig as int, ip_to as int));
        lemma_digits_val_leading_zeros(ip, sig - ip_from);
    }
    if ip_to - sig > 11 {
        proof {
            let s = t@.subrange(sig as int, ip_to as int);
            assert(s[0] != '0');
            assert(all_digits(s)) by {
                assert(forall|k: int|
                    0 <= k < s.len() ==> s[k] == #[trigger] ip[k + sig - ip_from]);
            }
            lemma_digits_val_lower(s);
            lemma_pow10_mono(11, (s.len() - 1) as nat);
            reveal_with_fuel(pow10, 12);
            assert(digits_val(ip) >= pow10(11));
            assert(flat_units(ip, fp) > u64::MAX);
        }
        return None;
    }
    let ip_val: u64 = digits_value_exec(t, sig, ip_to);
    proof {
        let s = t@.subrange(sig as int, ip_to as int);
        assert(all_digits(s)) by {
            assert(forall|k: int| 0 <= k < s.len() ==> s[k] == #[trigger] ip[k + sig - ip_from]);
        }
        lemma_digits_val_upper(s);
        reveal_with_fuel(pow10, 12);
        assert(ip_val < pow10(11));
    }
    // fraction scaled to nine places, rounding half away from zero
    let frac_len = fp_to - fp_from;
    let fs: u64 = if frac_len <= 9 {
        let raw = digits_value_exec(t, fp_from, fp_to);
        proof {
            lemma_digits_val_upper(fp);
            lemma_pow10_mono((9 - frac_len) as nat, 9);
            reveal_with_fuel(pow10, 10);
            assert(digits_val(fp) * pow10((9 - frac_len) as nat) <= (pow10(frac_len as nat) - 1)
                * pow10((9 - frac_len) as nat)) by (nonlinear_arith)
                requires
                    digits_val(fp) <= pow10(frac_len as nat) - 1,
                    pow10((9 - frac_len) as nat) >= 1,
            ;
            lemma_pow10_split(frac_len as nat, (9 - frac_len) as nat);
            assert((pow10(frac_len as nat) - 1) * pow10((9 - frac_len) as nat) < pow10(
                frac_len as nat,
            ) * pow10((9 - frac_len) as nat)) by (nonlinear_arith)
                requires
                    pow10(frac_len as nat) >= 1,
                    pow10((9 - frac_len) as nat) >= 1,
            ;
        }
        raw * pow10_u64(9 - frac_len)
    } else {
        let raw = digits_value_exec(t, fp_from, fp_from + 9);
        proof {
            assert(t@.subrange(fp_from as int, fp_from as int + 9) =~= fp.take(9));
            assert(all_digits(fp.take(9))) by {
                assert(forall|k: int| 0 <= k < 9 ==> fp.take(9)[k] == #[trigger] fp[k]);
            }
            lemma_digits_val_upper(fp.take(9));
            reveal_with_fuel(pow10, 10);
            assert(fp[9] == t@[fp_from as int + 9]);
        }
        let tenth = t[fp_from + 9];
        let round_up: u64 = if digit_val_exec(tenth) >= 5 {
            1
        } else {
            0
        };
        raw + round_up
    };
    proof {
        assert(fs == frac_scaled(fp));
        assert(fs <= pow10(9));
        reveal_with_fuel(pow10, 12);
    }
    // assemble in 128 bits and range-check against the 64-bit cap
    let total: u128 = (ip_val as u128) * 1000000000u128 + (fs as u128);
    proof {
        assert((ip_val as int) * 1000000000 + fs <= (pow10(11) - 1) * 1000000000 + pow10(9))
            by (nonlinear_arith)
            requires
                ip_val < pow10(11),
                fs <= pow10(9),
                pow10(11) == 100000000000,
                pow10(9) == 1000000000,
        ;
        assert(total == flat_units(ip, fp));
    }
    if total > u64::MAX as u128 {
        return None;
    }
    Some(total as u64)
}

proof fn lemma_find_exp_hit(s: Seq<char>, i: int)
    requires
        0 <= i < s.len(),
        is_exp_char(s[i]),
        forall|k: int| 0 <= k < i ==> !is_exp_char(#[trigger] s[k]),
    ensures
        find_exp(s) == Some(i),
    decreases i,
{
    if i > 0 {
        assert(!is_exp_char(s[0]));
        assert forall|k: int| 0 <= k < i - 1 implies !is_exp_char(#[trigger] s.drop_first()[k]) by {
            assert(s.drop_first()[k] == s[k + 1]);
        }
        assert(s.drop_first()[i - 1] == s[i]);
        lemma_find_exp_hit(s.drop_first(), i - 1);
    }
}

proof fn lemma_find_exp_none(s: Seq<char>)
    requires
        forall|k: int| 0 <= k < s.len() ==> !is_exp_char(#[trigger] s[k]),
    ensures
        find_exp(s) is None,
    decreases s.len(),
{
    if s.len() > 0 {
        assert forall|k: int| 0 <= k < s.len() - 1 implies !is_exp_char(
            #[trigger] s.drop_first()[k],
        ) by {
            assert(s.drop_first()[k] == s[k + 1]);
        }
        lemma_find_exp_none(s.drop_first());
    }
}

/// Appending zero digits multiplies a run's value by the matching power.
proof fn lemma_digits_append_zeros(s: Seq<char>, n: nat)
    ensures
        digits_val(s + zero_digits(n)) == digits_val(s) * pow10(n),
    decreases n,
{
    if n == 0 {
        assert(s + zero_digits(0) =~= s);
        assert(pow10(0) == 1);
        assert(digits_val(s) * pow10(0) == digits_val(s)) by (nonlinear_arith)
            requires
                pow10(0) == 1,
        ;
    } else {
        let w = s + zero_digits(n);
        assert(w.drop_last() =~= s + zero_digits((n - 1) as nat));
        assert(w.last() == '0');
        assert(digit_val('0') == 0);
        lemma_digits_append_zeros(s, (n - 1) as nat);
        assert(digits_val(w) == digits_val(w.drop_last()) * 10 + digit_val(w.last()));
        assert(digits_val(w.drop_last()) == digits_val(s) * pow10((n - 1) as nat));
        assert(pow10(n) == 10 * pow10((n - 1) as nat));
        assert(digits_val(w) == digits_val(s) * pow10(n)) by (nonlinear_arith)
            requires
                digits_val(w) == (digits_val(s) * pow10((n - 1) as nat)) * 10,
                pow10(n) == 10 * pow10((n - 1) as nat),
        ;
    }
}

/// Digit runs of zero characters alone scale and round to zero.
proof fn lemma_flat_all_zero(ip: Seq<char>, fp: Seq<char>)
    requires
        forall|k: int| 0 <= k < ip.len() ==> #[trigger] ip[k] == '0',
        forall|k: int| 0 <= k < fp.len() ==> #[trigger] fp[k] == '0',
    ensures
        flat_units(ip, fp) == 0,
{
    lemma_digits_all_zero(ip);
    if fp.len() <= 9 {
        lemma_digits_all_zero(fp);
    } else {
        assert forall|k: int| 0 <= k < 9 implies #[trigger] fp.take(9)[k] == '0' by {
            assert(fp.take(9)[k] == fp[k]);
        }
        lemma_digits_all_zero(fp.take(9));
        assert(digit_val('0') == 0);
    }
}

/// Shifting all-zero digit runs leaves all-zero runs, so the amount is zero.
proof fn lemma_shift_all_zero(ip: Seq<char>, fp: Seq<char>, e: int)
    requires
        forall|k: int| 0 <= k < ip.len() ==> #[trigger] ip[k] == '0',
        forall|k: int| 0 <= k < fp.len() ==> #[trigger] fp[k] == '0',
    ensures
        flat_units_shifted(ip, fp, e) == 0,
{
    let s0 = shift_point(ip, fp, e).0;
    let s1 = shift_point(ip, fp, e).1;
    assert forall|k: int| 0 <= k < s0.len() implies #[trigger] s0[k] == '0' by {
        if e >= 0 {
            if e <= fp.len() {
                if k < ip.len() {
                } else {
                    assert(s0[k] == fp.take(e)[k - ip.len()]);
                }
            } else {
                if k < ip.len() {
                } else if k < ip.len() + fp.len() {
                    assert(s0[k] == fp[k - ip.len()]);
                } else {
                    assert(s0[k] == zero_digits((e - fp.len()) as nat)[k - ip.len() - fp.len()]);
                }
            }
        } else {
            if -e <= ip.len() {
                assert(s0[k] == ip.take(ip.len() + e)[k]);
            }
        }
    }
    assert forall|k: int| 0 <= k < s1.len() implies #[trigger] s1[k] == '0' by {
        if e >= 0 {
            if e <= fp.len() {
                assert(s1[k] == fp.skip(e)[k]);
            }
        } else {
            if -e <= ip.len() {
                if k < ip.len() - (ip.len() + e) {
                    assert(s1[k] == ip.skip(ip.len() + e)[k]);
                } else {
                    assert(s1[k] == fp[k - (ip.len() - (ip.len() + e))]);
                }
            } else {
                let pad = (-e - ip.len()) as nat;
                if k < pad {
                    assert(s1[k] == zero_digits(pad)[k]);
                } else if k < pad + ip.len() {
                    assert(s1[k] == ip[k - pad]);
                } else {
                    assert(s1[k] == fp[k - pad - ip.len()]);
                }
            }
        }
    }
    lemma_flat_all_zero(s0, s1);
}

/// A positive shift of twenty-one or more places applied to a run with a
/// nonzero digit overflows the 64-bit cap.
proof fn lemma_flat_big(d: Seq<char>, p: nat, k: int)
    requires
        all_digits(d),
        0 <= k < d.len(),
        d[k] != '0',
        p >= 21,
    ensures
        flat_units(d + zero_digits(p), Seq::<char>::empty()) > u64::MAX,
{
    lemma_digits_nonzero(d, k);
    lemma_digits_append_zeros(d, p);
    lemma_pow10_mono(21, p);
    reveal_with_fuel(pow10, 23);
    assert(digits_val(d) * pow10(p) >= pow10(p)) by (nonlinear_arith)
        requires
            digits_val(d) >= 1,
            pow10(p) >= 0,
    ;
    let val = digits_val(d + zero_digits(p));
    assert(frac_scaled(Seq::<char>::empty()) == 0) by {
        assert(digits_val(Seq::<char>::empty()) == 0);
        assert(0 * pow10((9 - Seq::<char>::empty().len()) as nat) == 0) by (nonlinear_arith);
    }
    assert(pow10(p) >= pow10(21));
    assert(val >= pow10(p));
    assert(val > u64::MAX);
    assert(val * 1000000000 >= val) by (nonlinear_arith)
        requires
            val >= 0,
    ;
    assert(flat_units(d + zero_digits(p), Seq::<char>::empty()) == val * 1000000000 + 0);
}

/// A shift deep to the right of the rounding window leaves nothing: ten or
/// more leading zero places round to zero whatever follows.
proof fn lemma_flat_deep_neg(pad: nat, rest: Seq<char>)
    requires
        pad >= 10,
    ensures
        flat_units(Seq::<char>::empty(), zero_digits(pad) + rest) == 0,
{
    let fp = zero_digits(pad) + rest;
    assert(fp.len() > 9);
    assert forall|k: int| 0 <= k < 9 implies #[trigger] fp.take(9)[k] == '0' by {
        assert(fp.take(9)[k] == fp[k]);
        assert(fp[k] == zero_digits(pad)[k]);
    }
    lemma_digits_all_zero(fp.take(9));
    assert(fp[9] == zero_digits(pad)[9]);
    assert(digit_val('0') == 0);
}

/// The value of the digit run `v[from..to]`, at most thirty-eight digits.
fn digits_value_u128(v: &Vec<char>, from: usize, to: usize) -> (r: u128)
    requires
        from <= to <= v@.len(),
        to - from <= 38,
        all_digits(v@.subrange(from as int, to as int)),
    ensures
        r == digits_val(v@.subrange(from as int, to as int)),
        r < pow10(38),
{
    proof {
        reveal_with_fuel(pow10, 40);
    }
    let mut acc: u128 = 0;
    let mut i: usize = from;
    while i < to
        invariant
            from <= i <= to <= v@.len(),
            to - from <= 38,
            all_digits(v@.subrange(from as int, to as int)),
            acc == digits_val(v@.subrange(from as int, i as int)),
            acc < pow10((i - from) as nat),
            pow10(38) == 100000000000000000000000000000000000000,
        decreases to - i,
    {
        let c = v[i];
        proof {
            assert(v@.subrange(from as int, to as int)[i - from] == v@[i as int]);
            assert(is_dec_digit(c));
            lemma_pow10_mono((i - from + 1) as nat, 38);
            reveal_with_fuel(pow10, 40);
        }
        let d = digit_val_exec(c);
        acc = acc * 10 + (d as u128);
        i = i + 1;
        proof {
            let sub = v@.subrange(from as int, i as int);
            assert(sub.drop_last() =~= v@.subrange(from as int, i as int - 1));
            assert(sub.last() == c);
        }
    }
    proof {
        assert(v@.subrange(from as int, i as int) =~= v@.subrange(from as int, to as int));
        lemma_pow10_mono((to - from) as nat, 38);
    }
    acc
}

fn copy_range(src: &Vec<char>, from: usize, to: usize, out: &mut Vec<char>)
    requires
        from <= to <= src@.len(),
    ensures
        final(out)@ == old(out)@ + src@.subrange(from as int, to as int),
{
    let mut i: usize = from;
    proof {
        assert(out@ =~= old(out)@ + src@.subrange(from as int, from as int));
    }
    while i < to
        invariant
            from <= i <= to <= src@.len(),
            out@ =~= old(out)@ + src@.subrange(from as int, i as int),
        decreases to - i,
    {
        out.push(src[i]);
        i = i + 1;
        proof {
            assert(out@ =~= old(out)@ + src@.subrange(from as int, i as int));
        }
    }
}

fn push_zeros(out: &mut Vec<char>, n: usize)
    ensures
        final(out)@ == old(out)@ + zero_digits(n as nat),
{
    let mut i: usize = 0;
    proof {
        assert(out@ =~= old(out)@ + zero_digits(0));
    }
    while i < n
        invariant
            i <= n,
            out@ =~= old(out)@ + zero_digits(i as nat),
        decreases n - i,
    {
        out.push('0');
        i = i + 1;
        proof {
            assert(out@ =~= old(out)@ + zero_digits(i as nat));
        }
    }
}

/// A digit run with a nonzero digit has a nonzero value.
proof fn lemma_digits_nonzero(s: Seq<char>, k: int)
    requires
        all_digits(s),
        0 <= k < s.len(),
        s[k] != '0',
    ensures
        digits_val(s) > 0,
    decreases s.len(),
{
    if k == s.len() - 1 {
        assert(is_dec_digit(s.last()) && s.last() != '0');
        assert(digit_val(s.last()) >= 1);
    } else {
        assert(all_digits(s.drop_last()));
        lemma_digits_nonzero(s.drop_last(), k);
    }
}

/// A digit run of zero characters alone has value zero.
proof fn lemma_digits_all_zero(s: Seq<char>)
    requires
        forall|k: int| 0 <= k < s.len() ==> s[k] == '0',
    ensures
        digits_val(s) == 0,
    decreases s.len(),
{
    if s.len() > 0 {
        lemma_digits_all_zero(s.drop_last());
        assert(digit_val('0') == 0);
    }
}

proof fn lemma_pow10_split(a: nat, b: nat)
    ensures
        pow10(a + b) == pow10(a) * pow10(b),
    decreases a,
{
    if a == 0 {
        assert(pow10(a) == 1);
        assert(a + b == b);
        assert(pow10(a + b) == 1 * pow10(b));
    } else {
        lemma_pow10_split((a - 1) as nat, b);
        let x = pow10((a - 1) as nat);
        let y = pow10(b);
        assert(pow10(a + b) == 10 * pow10(((a - 1) + b) as nat));
        assert(pow10(a + b) == 10 * (x * y));
        assert(pow10(a) == 10 * x);
        assert(pow10(a + b) == pow10(a) * pow10(b)) by (nonlinear_arith)
            requires
                pow10(a + b) == 10 * (x * y),
                pow10(a) == 10 * x,
                pow10(b) == y,
        ;
    }
}

} // verus!
