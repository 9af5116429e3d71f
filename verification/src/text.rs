use vstd::prelude::*;
use vstd::std_specs::iter::IteratorSpec;
use vstd::string::*;

verus! {

/// The UTF-8 bytes of a string.
pub uninterp spec fn utf8_bytes_of(s: Seq<char>) -> Seq<u8>;

/// What UTF-8 decoding yields for a byte string, or nothing where the bytes
/// are not well-formed UTF-8.
pub uninterp spec fn utf8_of(bytes: Seq<u8>) -> Option<Seq<char>>;

/// Relies on `str::as_bytes` and `String::from_utf8`: the bytes are the
/// string's UTF-8 form, at most four per character, and decode back to it.
#[verifier::external_body]
pub(crate) fn str_to_bytes(s: &str) -> (r: Vec<u8>)
    ensures
        r@ == utf8_bytes_of(s@),
        utf8_of(r@) == Some(s@),
        r@.len() <= 4 * s@.len(),
{
    s.as_bytes().to_vec()
}

/// Relies on `String::from_utf8`: decodes UTF-8 bytes, failing exactly on
/// ill-formed input.
#[verifier::external_body]
pub(crate) fn bytes_to_str(bytes: Vec<u8>) -> (r: Result<String, ()>)
    ensures
        r is Ok <==> utf8_of(bytes@) is Some,
        r matches Ok(s) ==> utf8_of(bytes@) == Some(s@),
{
    String::from_utf8(bytes).map_err(|_| ())
}

/// Relies on `String::push`: appends exactly the one character to the string.
#[verifier::external_body]
pub fn push_char(s: &mut String, c: char)
    ensures
        final(s)@ == old(s)@ + seq![c],
{
    s.push(c)
}

/// Collects the characters of a string slice into a vector, in order.
pub fn chars_vec(s: &str) -> (r: Vec<char>)
    ensures
        r@ == s@,
{
    broadcast use vstd::string::group_string_axioms;

    let mut it = s.chars();
    let mut out: Vec<char> = Vec::new();
    loop
        invariant
            out@ + it.remaining() == s@,
            vstd::std_specs::iter::IteratorSpec::decrease(&it) is Some,
        decreases IteratorSpec::decrease(&it)->0,
    {
        match it.next() {
            Some(c) => {
                out.push(c);
            },
            None => {
                proof {
                    assert(out@ =~= s@);
                }
                return out;
            },
        }
    }
}

/// Builds a string out of a character vector, in order.
pub fn string_from_chars(v: &Vec<char>) -> (r: String)
    ensures
        r@ == v@,
{
    let mut s = String::new();
    let mut i: usize = 0;
    while i < v.len()
        invariant
            i <= v@.len(),
            s@ =~= v@.subrange(0, i as int),
        decreases v@.len() - i,
    {
        push_char(&mut s, v[i]);
        i = i + 1;
        proof {
            assert(s@ =~= v@.subrange(0, i as int));
        }
    }
    proof {
        assert(v@.subrange(0, v@.len() as int) =~= v@);
    }
    s
}

/// The character for a single decimal digit.
pub open spec fn dec_digit(d: nat) -> char {
    if d == 0 {
        '0'
    } else if d == 1 {
        '1'
    } else if d == 2 {
        '2'
    } else if d == 3 {
        '3'
    } else if d == 4 {
        '4'
    } else if d == 5 {
        '5'
    } else if d == 6 {
        '6'
    } else if d == 7 {
        '7'
    } else if d == 8 {
        '8'
    } else {
        '9'
    }
}

/// Decimal rendering of a natural number, most significant digit first,
/// without leading zeroes (zero itself renders as "0").
pub open spec fn dec_digits(n: nat) -> Seq<char>
    decreases n,
{
    if n < 10 {
        seq![dec_digit(n)]
    } else {
        dec_digits(n / 10) + seq![dec_digit(n % 10)]
    }
}

/// Decimal rendering of a signed value: a minus sign before the magnitude.
pub open spec fn dec_int(n: int) -> Seq<char> {
    if n < 0 {
        seq!['-'] + dec_digits((-n) as nat)
    } else {
        dec_digits(n as nat)
    }
}

fn digit_char(d: u64) -> (r: char)
    requires
        d < 10,
    ensures
        r == dec_digit(d as nat),
{
    if d == 0 {
        '0'
    } else if d == 1 {
        '1'
    } else if d == 2 {
        '2'
    } else if d == 3 {
        '3'
    } else if d == 4 {
        '4'
    } else if d == 5 {
        '5'
    } else if d == 6 {
        '6'
    } else if d == 7 {
        '7'
    } else if d == 8 {
        '8'
    } else {
        '9'
    }
}

/// Renders a `u64` in decimal.
pub fn u64_to_string(n: u64) -> (r: String)
    ensures
        r@ == dec_digits(n as nat),
{
    let mut rev: Vec<char> = Vec::new();
    let mut m: u64 = n;
    if m == 0 {
        let mut s = String::new();
        push_char(&mut s, '0');
        proof {
            assert(s@ =~= dec_digits(0));
        }
        return s;
    }
    while m > 0
        invariant
            m > 0 ==> dec_digits(n as nat) =~= dec_digits(m as nat) + rev@.reverse(),
            m == 0 ==> dec_digits(n as nat) =~= rev@.reverse(),
        decreases m,
    {
        let d: u64 = m % 10;
        let c = digit_char(d);
        proof {
            let ghost old_rev = rev@;
            assert(rev@.push(c).reverse() =~= seq![c] + old_rev.reverse());
        }
        rev.push(c);
        m = m / 10;
        proof {
            if m > 0 {
                assert(dec_digits(n as nat) =~= dec_digits(m as nat) + rev@.reverse());
            } else {
                assert(dec_digits(n as nat) =~= rev@.reverse());
            }
        }
    }
    let mut s = String::new();
    let mut i: usize = rev.len();
    while i > 0
        invariant
            i <= rev@.len(),
            s@ =~= rev@.subrange(i as int, rev@.len() as int).reverse(),
        decreases i,
    {
        i = i - 1;
        push_char(&mut s, rev[i]);
        proof {
            assert(s@ =~= rev@.subrange(i as int, rev@.len() as int).reverse());
        }
    }
    proof {
        assert(rev@.subrange(0, rev@.len() as int) =~= rev@);
        assert(s@ =~= dec_digits(n as nat));
    }
    s
}

/// Renders an `i64` in decimal, with a sign for negative values.
pub fn i64_to_string(n: i64) -> (r: String)
    ensures
        r@ == dec_int(n as int),
{
    if n >= 0 {
        u64_to_string(n as u64)
    } else {
        let mag: u64 = if n == i64::MIN {
            9223372036854775808u64
        } else {
            (-n) as u64
        };
        let digits = u64_to_string(mag);
        let mut s = String::from_str("-");
        s.append(digits.as_str());
        proof {
            reveal_strlit("-");
            assert(s@ =~= dec_int(n as int));
        }
        s
    }
}

/// Whitespace as the trimming below understands it.
pub open spec fn is_space(c: char) -> bool {
    c == ' ' || c == '\t' || c == '\n' || c == '\r' || c == '\u{b}' || c == '\u{c}'
}

pub open spec fn trim_front(s: Seq<char>) -> Seq<char>
    decreases s.len(),
{
    if s.len() > 0 && is_space(s[0]) {
        trim_front(s.drop_first())
    } else {
        s
    }
}

pub open spec fn trim_back(s: Seq<char>) -> Seq<char>
    decreases s.len(),
{
    if s.len() > 0 && is_space(s.last()) {
        trim_back(s.drop_last())
    } else {
        s
    }
}

/// A string with surrounding whitespace removed.
pub open spec fn trim_spec(s: Seq<char>) -> Seq<char> {
    trim_back(trim_front(s))
}

fn is_space_exec(c: char) -> (b: bool)
    ensures
        b == is_space(c),
{
    c == ' ' || c == '\t' || c == '\n' || c == '\r' || c == '\u{b}' || c == '\u{c}'
}

/// Removes leading and trailing whitespace characters.
pub fn trim_chars(v: &Vec<char>) -> (r: Vec<char>)
    ensures
        r@ == trim_spec(v@),
{
    let mut lo: usize = 0;
    proof {
        assert(v@.subrange(0, v@.len() as int) =~= v@);
    }
    while lo < v.len() && is_space_exec(v[lo])
        invariant
            lo <= v@.len(),
            trim_front(v@) == trim_front(v@.subrange(lo as int, v@.len() as int)),
        decreases v@.len() - lo,
    {
        proof {
            assert(v@.subrange(lo as int, v@.len() as int).drop_first() =~= v@.subrange(
                lo as int + 1,
                v@.len() as int,
            ));
        }
        lo = lo + 1;
    }
    let mut hi: usize = v.len();
    proof {
        assert(trim_front(v@) == v@.subrange(lo as int, hi as int));
    }
    while hi > lo && is_space_exec(v[hi - 1])
        invariant
            lo <= hi <= v@.len(),
            trim_spec(v@) == trim_back(v@.subrange(lo as int, hi as int)),
        decreases hi,
    {
        proof {
            assert(v@.subrange(lo as int, hi as int).drop_last() =~= v@.subrange(
                lo as int,
                hi as int - 1,
            ));
        }
        hi = hi - 1;
    }
    proof {
        assert(trim_spec(v@) == v@.subrange(lo as int, hi as int));
    }
    let mut out: Vec<char> = Vec::new();
    let mut i: usize = lo;
    while i < hi
        invariant
            lo <= i <= hi <= v@.len(),
            out@ =~= v@.subrange(lo as int, i as int),
        decreases hi - i,
    {
        out.push(v[i]);
        i = i + 1;
        proof {
            assert(out@ =~= v@.subrange(lo as int, i as int));
        }
    }
    out
}

proof fn lemma_trim_front_head(s: Seq<char>)
    ensures
        trim_front(s).len() > 0 ==> !is_space(trim_front(s)[0]),
    decreases s.len(),
{
    if s.len() > 0 && is_space(s[0]) {
        lemma_trim_front_head(s.drop_first());
    }
}

proof fn lemma_trim_back_last(s: Seq<char>)
    ensures
        trim_back(s).len() > 0 ==> !is_space(trim_back(s).last()),
    decreases s.len(),
{
    if s.len() > 0 && is_space(s.last()) {
        lemma_trim_back_last(s.drop_last());
    }
}

proof fn lemma_trim_back_head(s: Seq<char>)
    ensures
        trim_back(s).len() > 0 ==> trim_back(s)[0] == s[0],
    decreases s.len(),
{
    if s.len() > 0 && is_space(s.last()) {
        lemma_trim_back_head(s.drop_last());
    }
}

/// Trimming an already-trimmed string changes nothing.
pub proof fn lemma_trim_idempotent(s: Seq<char>)
    ensures
        trim_spec(trim_spec(s)) == trim_spec(s),
{
    let t = trim_spec(s);
    if t.len() == 0 {
        assert(trim_front(t) == t);
        assert(trim_back(t) == t);
    } else {
        lemma_trim_front_head(s);
        lemma_trim_back_head(trim_front(s));
        assert(t[0] == trim_front(s)[0]);
        assert(!is_space(t[0]));
        assert(trim_front(t) == t);
        lemma_trim_back_last(trim_front(s));
        assert(!is_space(t.last()));
        assert(trim_back(t) == t);
    }
}

/// Removes leading and trailing whitespace from a string.
pub fn trim_str(s: &str) -> (r: String)
    ensures
        r@ == trim_spec(s@),
{
    let v = chars_vec(s);
    let t = trim_chars(&v);
    string_from_chars(&t)
}

/// `p` occurs as a contiguous run somewhere inside `t`.
pub open spec fn contains_seq(t: Seq<char>, p: Seq<char>) -> bool {
    exists|i: int|
        0 <= i && i + p.len() <= t.len() && #[trigger] t.subrange(i, i + p.len()) == p
}

/// Substring search, as the transport-error classification needs it.
pub fn str_contains(text: &str, pat: &str) -> (r: bool)
    ensures
        r == contains_seq(text@, pat@),
{
    let t = chars_vec(text);
    let p = chars_vec(pat);
    if p.len() > t.len() {
        return false;
    }
    let mut i: usize = 0;
    while i <= t.len() - p.len()
        invariant
            p@.len() <= t@.len(),
            t@ == text@,
            p@ == pat@,
            forall|k: int|
                0 <= k < i ==> #[trigger] t@.subrange(k, k + p@.len() as int) != p@,
        decreases t@.len() - i,
    {
        let mut j: usize = 0;
        let mut hit = true;
        while j < p.len()
            invariant
                i + p@.len() <= t@.len(),
                t@.len() <= usize::MAX,
                j <= p@.len(),
                hit <==> t@.subrange(i as int, i as int + j as int) =~= p@.subrange(
                    0,
                    j as int,
                ),
            decreases p@.len() - j,
        {
            if t[i + j] != p[j] {
                hit = false;
                proof {
                    assert(t@.subrange(i as int, i as int + j as int + 1)[j as int] != p@.subrange(
                        0,
                        j as int + 1,
                    )[j as int]);
                }
                j = j + 1;
                proof {
                    assert(!(t@.subrange(i as int, i as int + j as int) =~= p@.subrange(
                        0,
                        j as int,
                    )));
                }
            } else {
                j = j + 1;
                proof {
                    if hit {
                        assert(t@.subrange(i as int, i as int + j as int) =~= p@.subrange(
                            0,
                            j as int,
                        ));
                    } else {
                        assert(t@.subrange(i as int, i as int + j as int - 1) =~= t@.subrange(
                            i as int,
                            i as int + j as int,
                        ).take(j as int - 1));
                        assert(!(t@.subrange(i as int, i as int + j as int) =~= p@.subrange(
                            0,
                            j as int,
                        )));
                    }
                }
            }
        }
        if hit {
            proof {
                assert(p@.subrange(0, p@.len() as int) =~= p@);
                assert(t@.subrange(i as int, i as int + p@.len() as int) == p@);
            }
            return true;
        }
        proof {
            assert(!(t@.subrange(i as int, i as int + p@.len() as int) =~= p@));
        }
        i = i + 1;
    }
    proof {
        assert forall|k: int| 0 <= k && k + p@.len() <= t@.len() implies #[trigger] t@.subrange(
            k,
            k + p@.len() as int,
        ) != p@ by {
            assert(k < i);
        }
    }
    false
}

/// The two-letter word "ok" in any letter casing.
pub open spec fn is_ok_ignore_case(s: Seq<char>) -> bool {
    s.len() == 2 && (s[0] == 'o' || s[0] == 'O') && (s[1] == 'k' || s[1] == 'K')
}

/// Whether the string reads "ok", ignoring letter case.
pub fn str_is_ok_ignore_case(s: &str) -> (r: bool)
    ensures
        r == is_ok_ignore_case(s@),
{
    let v = chars_vec(s);
    v.len() == 2 && (v[0] == 'o' || v[0] == 'O') && (v[1] == 'k' || v[1] == 'K')
}

/// String equality through the specified `String` comparison.
pub fn str_eq(a: &str, b: &str) -> (r: bool)
    ensures
        r == (a@ == b@),
{
    let sa = String::from_str(a);
    let sb = String::from_str(b);
    sa.eq(&sb)
}

} // verus!
