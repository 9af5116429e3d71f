use vstd::multiset::Multiset;
use vstd::prelude::*;
use vstd::relations::{sorted_by, total_ordering};
use vstd::seq_lib::{lemma_multiset_commutative, lemma_sorted_unique};

verus! {

broadcast use {vstd::seq_lib::group_to_multiset_ensures, vstd::multiset::group_multiset_axioms};

/// Magnitude of a signed value.
pub open spec fn abs_int(v: int) -> nat {
    if v < 0 {
        (-v) as nat
    } else {
        v as nat
    }
}

/// Big-endian base-256 digits of a natural number, with no leading zero
/// byte; zero has no digits at all.
pub open spec fn be_bytes(m: nat) -> Seq<u8>
    decreases m,
{
    if m == 0 {
        Seq::empty()
    } else {
        be_bytes(m / 256) + seq![(m % 256) as u8]
    }
}

pub open spec fn pow256(k: nat) -> nat
    decreases k,
{
    if k == 0 {
        1
    } else {
        256 * pow256((k - 1) as nat)
    }
}

pub proof fn lemma_be_bytes_len(m: nat, k: nat)
    requires
        m < pow256(k),
    ensures
        be_bytes(m).len() <= k,
    decreases k,
{
    if k == 0 {
    } else if m == 0 {
    } else {
        assert(m / 256 < pow256((k - 1) as nat)) by (nonlinear_arith)
            requires
                m < 256 * pow256((k - 1) as nat),
        ;
        lemma_be_bytes_len(m / 256, (k - 1) as nat);
    }
}

pub proof fn lemma_be_bytes_len_u128(m: nat)
    requires
        m <= u128::MAX,
    ensures
        be_bytes(m).len() <= 16,
{
    reveal_with_fuel(pow256, 17);
    lemma_be_bytes_len(m, 16);
}

/// The value big-endian digits stand for.
pub open spec fn be_val(s: Seq<u8>) -> nat
    decreases s.len(),
{
    if s.len() == 0 {
        0
    } else {
        be_val(s.drop_last()) * 256 + s.last() as nat
    }
}

/// The digits of a number read back as that number.
pub proof fn lemma_be_bytes_val(m: nat)
    ensures
        be_val(be_bytes(m)) == m,
    decreases m,
{
    if m > 0 {
        lemma_be_bytes_val(m / 256);
        assert(be_bytes(m).drop_last() =~= be_bytes(m / 256));
        assert(be_bytes(m).last() == (m % 256) as u8);
    }
}

/// The signed variable-length integer: zero is the single byte 0; otherwise a
/// header byte holding the sign bit and the count of magnitude bytes, then the
/// magnitude big-endian with leading zeroes stripped.
pub open spec fn varint_bytes(v: int) -> Seq<u8> {
    if v == 0 {
        seq![0u8]
    } else {
        let mag = be_bytes(abs_int(v));
        seq![(if v < 0 {
            128 + mag.len()
        } else {
            mag.len()
        }) as u8] + mag
    }
}

/// Injectivity of the varint over the 128-bit range: distinct values encode
/// to distinct bytes, so two transaction documents that differ only in
/// their nonce serialize differently.
pub proof fn lemma_varint_injective(v1: int, v2: int)
    requires
        -(0x80000000000000000000000000000000int) <= v1 <= 0xffffffffffffffffffffffffffffffffint,
        -(0x80000000000000000000000000000000int) <= v2 <= 0xffffffffffffffffffffffffffffffffint,
        varint_bytes(v1) == varint_bytes(v2),
    ensures
        v1 == v2,
{
    if v1 == 0 || v2 == 0 {
        if v1 != v2 {
            let vn = if v1 == 0 {
                v2
            } else {
                v1
            };
            assert(be_bytes(abs_int(vn)).len() >= 1);
            assert(varint_bytes(vn).len() >= 2);
            assert(varint_bytes(0).len() == 1);
        }
    } else {
        let m1 = be_bytes(abs_int(v1));
        let m2 = be_bytes(abs_int(v2));
        lemma_be_bytes_len_u128(abs_int(v1));
        lemma_be_bytes_len_u128(abs_int(v2));
        let h1: int = if v1 < 0 {
            128 + m1.len() as int
        } else {
            m1.len() as int
        };
        let h2: int = if v2 < 0 {
            128 + m2.len() as int
        } else {
            m2.len() as int
        };
        assert(varint_bytes(v1)[0] == h1 as u8);
        assert(varint_bytes(v2)[0] == h2 as u8);
        assert(h1 == h2);
        assert((v1 < 0) == (v2 < 0) && m1.len() == m2.len());
        assert(m1 =~= m2) by {
            assert(forall|i: int|
                0 <= i < m1.len() ==> varint_bytes(v1)[i + 1] == #[trigger] m1[i]);
            assert(forall|i: int|
                0 <= i < m2.len() ==> varint_bytes(v2)[i + 1] == #[trigger] m2[i]);
        }
        lemma_be_bytes_val(abs_int(v1));
        lemma_be_bytes_val(abs_int(v2));
        assert(abs_int(v1) == abs_int(v2));
    }
}

/// Distinct integers have distinct encoded fields: in particular, two
/// transaction documents built alike but for their nonce carry different
/// nonce entries.
pub proof fn lemma_int_bytes_injective(n1: int, n2: int)
    requires
        -(0x80000000000000000000000000000000int) <= n1 <= 0xffffffffffffffffffffffffffffffffint,
        -(0x80000000000000000000000000000000int) <= n2 <= 0xffffffffffffffffffffffffffffffffint,
        int_bytes(n1) == int_bytes(n2),
    ensures
        n1 == n2,
{
    assert(varint_bytes(n1) =~= int_bytes(n1).drop_first());
    assert(varint_bytes(n2) =~= int_bytes(n2).drop_first());
    lemma_varint_injective(n1, n2);
}

/// A binary blob: tag 5, varint length, raw bytes.
pub open spec fn blob_bytes(data: Seq<u8>) -> Seq<u8> {
    seq![5u8] + varint_bytes(data.len() as int) + data
}

/// An integer: tag 3, varint value.
pub open spec fn int_bytes(n: int) -> Seq<u8> {
    seq![3u8] + varint_bytes(n)
}

/// Concatenation of already-encoded elements.
pub open spec fn cat(items: Seq<Seq<u8>>) -> Seq<u8>
    decreases items.len(),
{
    if items.len() == 0 {
        Seq::empty()
    } else {
        cat(items.drop_last()) + items.last()
    }
}

/// A list: tag 6, varint element count, elements in order.
pub open spec fn list_bytes(items: Seq<Seq<u8>>) -> Seq<u8> {
    seq![6u8] + varint_bytes(items.len() as int) + cat(items)
}

/// Lexicographic byte-sequence order, shorter prefixes first: the order the
/// sorted property map sorts its encoded keys by.
pub open spec fn bytes_le(a: Seq<u8>, b: Seq<u8>) -> bool
    decreases a.len(),
{
    if a.len() == 0 {
        true
    } else if b.len() == 0 {
        false
    } else if a[0] < b[0] {
        true
    } else if a[0] > b[0] {
        false
    } else {
        bytes_le(a.drop_first(), b.drop_first())
    }
}

pub proof fn lemma_bytes_le_refl(a: Seq<u8>)
    ensures
        bytes_le(a, a),
    decreases a.len(),
{
    if a.len() > 0 {
        lemma_bytes_le_refl(a.drop_first());
    }
}

pub proof fn lemma_bytes_le_antisym(a: Seq<u8>, b: Seq<u8>)
    requires
        bytes_le(a, b),
        bytes_le(b, a),
    ensures
        a == b,
    decreases a.len(),
{
    if a.len() == 0 {
        assert(a =~= b);
    } else {
        lemma_bytes_le_antisym(a.drop_first(), b.drop_first());
        assert(a =~= seq![a[0]] + a.drop_first());
        assert(b =~= seq![b[0]] + b.drop_first());
    }
}

pub proof fn lemma_bytes_le_trans(a: Seq<u8>, b: Seq<u8>, c: Seq<u8>)
    requires
        bytes_le(a, b),
        bytes_le(b, c),
    ensures
        bytes_le(a, c),
    decreases a.len(),
{
    if a.len() > 0 && b.len() > 0 && c.len() > 0 && a[0] == b[0] && b[0] == c[0] {
        lemma_bytes_le_trans(a.drop_first(), b.drop_first(), c.drop_first());
    }
}

pub proof fn lemma_bytes_le_connected(a: Seq<u8>, b: Seq<u8>)
    ensures
        bytes_le(a, b) || bytes_le(b, a),
    decreases a.len(),
{
    if a.len() > 0 && b.len() > 0 && a[0] == b[0] {
        lemma_bytes_le_connected(a.drop_first(), b.drop_first());
    }
}

/// Order on (encoded key, encoded value) pairs: by key, value breaking ties.
pub open spec fn pair_le(a: (Seq<u8>, Seq<u8>), b: (Seq<u8>, Seq<u8>)) -> bool {
    if a.0 == b.0 {
        bytes_le(a.1, b.1)
    } else {
        bytes_le(a.0, b.0)
    }
}

pub open spec fn pair_ord() -> spec_fn((Seq<u8>, Seq<u8>), (Seq<u8>, Seq<u8>)) -> bool {
    |a: (Seq<u8>, Seq<u8>), b: (Seq<u8>, Seq<u8>)| pair_le(a, b)
}

pub proof fn lemma_pair_ord_total()
    ensures
        total_ordering(pair_ord()),
{
    assert forall|a: (Seq<u8>, Seq<u8>)| #[trigger] pair_ord()(a, a) by {
        lemma_bytes_le_refl(a.1);
    }
    assert forall|a: (Seq<u8>, Seq<u8>), b: (Seq<u8>, Seq<u8>)|
        #[trigger] pair_ord()(a, b) && #[trigger] pair_ord()(b, a) implies a == b by {
        if a.0 == b.0 {
            lemma_bytes_le_antisym(a.1, b.1);
        } else {
            lemma_bytes_le_antisym(a.0, b.0);
        }
    }
    assert forall|a: (Seq<u8>, Seq<u8>), b: (Seq<u8>, Seq<u8>), c: (Seq<u8>, Seq<u8>)|
        #[trigger] pair_ord()(a, b) && #[trigger] pair_ord()(b, c) implies pair_ord()(a, c) by {
        if a.0 == b.0 && b.0 == c.0 {
            lemma_bytes_le_trans(a.1, b.1, c.1);
        } else if a.0 == b.0 {
            assert(bytes_le(a.0, c.0));
        } else if b.0 == c.0 {
            assert(bytes_le(a.0, c.0));
        } else {
            lemma_bytes_le_trans(a.0, b.0, c.0);
            if a.0 == c.0 {
                lemma_bytes_le_antisym(a.0, b.0);
            }
        }
    }
    assert forall|a: (Seq<u8>, Seq<u8>), b: (Seq<u8>, Seq<u8>)|
        #[trigger] pair_ord()(a, b) || #[trigger] pair_ord()(b, a) by {
        if a.0 == b.0 {
            lemma_bytes_le_connected(a.1, b.1);
        } else {
            lemma_bytes_le_connected(a.0, b.0);
        }
    }
}

/// Concatenation of key bytes then value bytes, pair after pair.
pub open spec fn cat_pairs(ps: Seq<(Seq<u8>, Seq<u8>)>) -> Seq<u8>
    decreases ps.len(),
{
    if ps.len() == 0 {
        Seq::empty()
    } else {
        cat_pairs(ps.drop_last()) + ps.last().0 + ps.last().1
    }
}

/// The sorted property map: tag 7, varint pair count, then each pair's key
/// and value bytes with the pairs in ascending encoded order.
pub open spec fn proplist_bytes(ps: Seq<(Seq<u8>, Seq<u8>)>) -> Seq<u8> {
    seq![7u8] + varint_bytes(ps.len() as int) + cat_pairs(ps.sort_by(pair_ord()))
}

/// Order-independence of the sorted property map: permuted entries encode to
/// byte-identical output.
pub proof fn lemma_proplist_order_independent(
    p1: Seq<(Seq<u8>, Seq<u8>)>,
    p2: Seq<(Seq<u8>, Seq<u8>)>,
)
    requires
        p1.to_multiset() == p2.to_multiset(),
    ensures
        proplist_bytes(p1) == proplist_bytes(p2),
{
    lemma_pair_ord_total();
    p1.lemma_sort_by_ensures(pair_ord());
    p2.lemma_sort_by_ensures(pair_ord());
    assert(p1.len() == p1.to_multiset().len());
    assert(p2.len() == p2.to_multiset().len());
    lemma_sorted_unique(p1.sort_by(pair_ord()), p2.sort_by(pair_ord()), pair_ord());
}

pub open spec fn pair_views(s: Seq<(Vec<u8>, Vec<u8>)>) -> Seq<(Seq<u8>, Seq<u8>)> {
    s.map_values(|p: (Vec<u8>, Vec<u8>)| (p.0@, p.1@))
}

pub open spec fn views_of(s: Seq<Vec<u8>>) -> Seq<Seq<u8>> {
    s.map_values(|v: Vec<u8>| v@)
}

/// Appends the varint encoding of `v` to `buf`.
pub fn vecpak_varint(buf: &mut Vec<u8>, v: i128)
    ensures
        final(buf)@ == old(buf)@ + varint_bytes(v as int),
{
    if v == 0 {
        buf.push(0);
        proof {
            assert(buf@ =~= old(buf)@ + varint_bytes(0));
        }
        return ;
    }
    let neg = v < 0;
    let mag: u128 = if v < 0 {
        ((-(v + 1)) as u128) + 1
    } else {
        v as u128
    };
    proof {
        assert(mag == abs_int(v as int));
    }
    let mut le: Vec<u8> = Vec::new();
    let mut t: u128 = mag;
    while t > 0
        invariant
            t > 0 ==> be_bytes(mag as nat) =~= be_bytes(t as nat) + le@.reverse(),
            t == 0 ==> be_bytes(mag as nat) =~= le@.reverse(),
            le@.len() <= 16,
            mag > 0,
        decreases t,
    {
        proof {
            lemma_be_bytes_len_u128(mag as nat);
            if t > 0 {
                assert(be_bytes(t as nat).len() > 0);
            }
        }
        let ghost t0 = t;
        let d: u8 = (t % 256) as u8;
        proof {
            let ghost old_le = le@;
            assert(le@.push(d).reverse() =~= seq![d] + old_le.reverse());
        }
        le.push(d);
        t = t / 256;
        proof {
            assert(be_bytes(t0 as nat) =~= be_bytes((t0 as nat) / 256) + seq![d]);
            if t > 0 {
                assert(be_bytes(mag as nat) =~= be_bytes(t as nat) + le@.reverse());
            } else {
                assert(be_bytes((t0 as nat) / 256) =~= Seq::<u8>::empty());
                assert(be_bytes(t0 as nat) =~= seq![d]);
                assert(be_bytes(mag as nat) =~= le@.reverse());
            }
        }
    }
    proof {
        lemma_be_bytes_len_u128(mag as nat);
        assert(be_bytes(mag as nat).len() == le@.len());
        assert(le@.len() >= 1);
    }
    let len8: u8 = le.len() as u8;
    let header: u8 = if neg {
        128u8 + len8
    } else {
        len8
    };
    let ghost mid = buf@;
    buf.push(header);
    let mut i: usize = le.len();
    while i > 0
        invariant
            i <= le@.len(),
            buf@ =~= mid + seq![header] + le@.subrange(i as int, le@.len() as int).reverse(),
        decreases i,
    {
        i = i - 1;
        let b = le[i];
        buf.push(b);
        proof {
            assert(buf@ =~= mid + seq![header] + le@.subrange(i as int, le@.len() as int).reverse());
        }
    }
    proof {
        assert(le@.subrange(0, le@.len() as int) =~= le@);
        assert(le@.reverse() =~= be_bytes(mag as nat)) by {
            assert(be_bytes(mag as nat) =~= le@.reverse());
        }
        assert(buf@ =~= old(buf)@ + varint_bytes(v as int));
    }
}

/// Appends a binary blob (tag, varint length, raw bytes) to `buf`.
pub fn vecpak_binary(buf: &mut Vec<u8>, data: &[u8])
    ensures
        final(buf)@ == old(buf)@ + blob_bytes(data@),
{
    buf.push(5);
    vecpak_varint(buf, data.len() as i128);
    let ghost mid = buf@;
    buf.extend_from_slice(data);
    proof {
        assert(buf@ =~= mid + data@);
        assert(buf@ =~= old(buf)@ + blob_bytes(data@));
    }
}

/// Appends an encoded integer (tag, varint value) to `buf`.
pub fn vecpak_int(buf: &mut Vec<u8>, n: i128)
    ensures
        final(buf)@ == old(buf)@ + int_bytes(n as int),
{
    buf.push(3);
    vecpak_varint(buf, n);
    proof {
        assert(buf@ =~= old(buf)@ + int_bytes(n as int));
    }
}

/// Appends an encoded list: tag, varint count, then each already-encoded
/// element in order.
pub fn vecpak_list(buf: &mut Vec<u8>, items: &[Vec<u8>])
    ensures
        final(buf)@ == old(buf)@ + list_bytes(views_of(items@)),
{
    buf.push(6);
    vecpak_varint(buf, items.len() as i128);
    let ghost mid = buf@;
    let mut i: usize = 0;
    while i < items.len()
        invariant
            i <= items@.len(),
            buf@ =~= mid + cat(views_of(items@).take(i as int)),
        decreases items@.len() - i,
    {
        let ghost before = buf@;
        buf.extend_from_slice(items[i].as_slice());
        i = i + 1;
        proof {
            let vs = views_of(items@);
            assert(vs.take(i as int).drop_last() =~= vs.take(i as int - 1));
            assert(vs.take(i as int).last() == items@[i as int - 1]@);
            assert(buf@ =~= before + items@[i as int - 1]@);
            assert(buf@ =~= mid + cat(vs.take(i as int)));
        }
    }
    proof {
        assert(views_of(items@).take(items@.len() as int) =~= views_of(items@));
        assert(buf@ =~= old(buf)@ + list_bytes(views_of(items@)));
    }
}

fn bytes_le_exec(a: &Vec<u8>, b: &Vec<u8>) -> (r: bool)
    ensures
        r == bytes_le(a@, b@),
{
    let mut i: usize = 0;
    proof {
        assert(a@.subrange(0, a@.len() as int) =~= a@);
        assert(b@.subrange(0, b@.len() as int) =~= b@);
    }
    while i < a.len() && i < b.len() && a[i] == b[i]
        invariant
            i <= a@.len(),
            i <= b@.len(),
            bytes_le(a@, b@) == bytes_le(
                a@.subrange(i as int, a@.len() as int),
                b@.subrange(i as int, b@.len() as int),
            ),
            a@.subrange(0, i as int) =~= b@.subrange(0, i as int),
        decreases a@.len() - i,
    {
        proof {
            let sa = a@.subrange(i as int, a@.len() as int);
            let sb = b@.subrange(i as int, b@.len() as int);
            assert(sa.drop_first() =~= a@.subrange(i as int + 1, a@.len() as int));
            assert(sb.drop_first() =~= b@.subrange(i as int + 1, b@.len() as int));
        }
        i = i + 1;
        proof {
            assert(a@.subrange(0, i as int) =~= b@.subrange(0, i as int));
        }
    }
    let r = if i >= a.len() {
        true
    } else if i >= b.len() {
        false
    } else {
        a[i] < b[i]
    };
    proof {
        let sa = a@.subrange(i as int, a@.len() as int);
        let sb = b@.subrange(i as int, b@.len() as int);
        if i >= a@.len() {
            assert(sa.len() == 0);
        } else if i >= b@.len() {
            assert(sb.len() == 0);
        }
    }
    r
}

fn vec_u8_eq(a: &Vec<u8>, b: &Vec<u8>) -> (r: bool)
    ensures
        r == (a@ == b@),
{
    if a.len() != b.len() {
        return false;
    }
    let mut i: usize = 0;
    while i < a.len()
        invariant
            a@.len() == b@.len(),
            i <= a@.len(),
            a@.subrange(0, i as int) =~= b@.subrange(0, i as int),
        decreases a@.len() - i,
    {
        if a[i] != b[i] {
            return false;
        }
        i = i + 1;
        proof {
            assert(a@.subrange(0, i as int) =~= b@.subrange(0, i as int));
        }
    }
    proof {
        assert(a@.subrange(0, a@.len() as int) =~= a@);
        assert(b@.subrange(0, b@.len() as int) =~= b@);
    }
    true
}

fn pair_le_exec(a: &(Vec<u8>, Vec<u8>), b: &(Vec<u8>, Vec<u8>)) -> (r: bool)
    ensures
        r == pair_le((a.0@, a.1@), (b.0@, b.1@)),
{
    if vec_u8_eq(&a.0, &b.0) {
        bytes_le_exec(&a.1, &b.1)
    } else {
        bytes_le_exec(&a.0, &b.0)
    }
}

proof fn lemma_pair_le_connected(a: (Seq<u8>, Seq<u8>), b: (Seq<u8>, Seq<u8>))
    ensures
        pair_le(a, b) || pair_le(b, a),
{
    if a.0 == b.0 {
        lemma_bytes_le_connected(a.1, b.1);
    } else {
        lemma_bytes_le_connected(a.0, b.0);
    }
}

pub proof fn lemma_seq_insert_multiset<A>(s: Seq<A>, i: int, x: A)
    requires
        0 <= i <= s.len(),
    ensures
        s.insert(i, x).to_multiset() =~= s.to_multiset().insert(x),
{
    let t = s.insert(i, x);
    assert(t =~= s.take(i) + (seq![x] + s.skip(i)));
    lemma_multiset_commutative(s.take(i), seq![x] + s.skip(i));
    lemma_multiset_commutative(seq![x], s.skip(i));
    assert(s =~= s.take(i) + s.skip(i));
    lemma_multiset_commutative(s.take(i), s.skip(i));
    assert(seq![x].to_multiset() =~= Multiset::<A>::empty().insert(x)) by {
        assert(seq![x] =~= Seq::<A>::empty().push(x));
        assert(Seq::<A>::empty().push(x).to_multiset() =~= Seq::<A>::empty().to_multiset().insert(
            x,
        ));
    }
}

proof fn lemma_sorted_insert(
    s: Seq<(Seq<u8>, Seq<u8>)>,
    i: int,
    x: (Seq<u8>, Seq<u8>),
)
    requires
        sorted_by(s, pair_ord()),
        0 <= i <= s.len(),
        forall|k: int| 0 <= k < i ==> #[trigger] pair_ord()(s[k], x),
        i < s.len() ==> pair_ord()(x, s[i]),
    ensures
        sorted_by(s.insert(i, x), pair_ord()),
{
    lemma_pair_ord_total();
    let t = s.insert(i, x);
    assert forall|p: int, q: int| 0 <= p < q < t.len() implies pair_ord()(t[p], t[q]) by {
        if p < i && q < i {
            assert(pair_ord()(s[p], s[q]));
        } else if p < i && q == i {
        } else if p < i && q > i {
            assert(pair_ord()(s[p], s[q - 1]));
        } else if p == i && q > i {
            if q - 1 > i {
                assert(pair_ord()(s[i], s[q - 1]));
            }
            if i < s.len() {
                if q - 1 == i {
                    assert(pair_ord()(x, s[i]));
                } else {
                    assert(pair_ord()(x, s[i]) && pair_ord()(s[i], s[q - 1]));
                }
            }
        } else {
            assert(pair_ord()(s[p - 1], s[q - 1]));
        }
    }
}

/// Appends the sorted property map encoding of `pairs` to `buf`: pairs are
/// reordered ascending by encoded key (ties broken by encoded value) and the
/// result depends only on the multiset of entries, not their given order.
pub fn vecpak_proplist(buf: &mut Vec<u8>, pairs: Vec<(Vec<u8>, Vec<u8>)>)
    ensures
        final(buf)@ == old(buf)@ + proplist_bytes(pair_views(pairs@)),
{
    let ghost orig = pair_views(pairs@);
    let mut rest = pairs;
    let mut sorted: Vec<(Vec<u8>, Vec<u8>)> = Vec::new();
    proof {
        lemma_pair_ord_total();
        assert(pair_views(sorted@).to_multiset().add(pair_views(rest@).to_multiset())
            =~= orig.to_multiset()) by {
            assert(pair_views(sorted@).to_multiset() =~= Multiset::<(Seq<u8>, Seq<u8>)>::empty());
        }
    }
    while rest.len() > 0
        invariant
            sorted_by(pair_views(sorted@), pair_ord()),
            pair_views(sorted@).to_multiset().add(pair_views(rest@).to_multiset())
                == orig.to_multiset(),
        decreases rest@.len(),
    {
        let ghost pre = rest@;
        let p = rest.pop().unwrap();
        proof {
            assert(pre =~= rest@.push(p));
            assert(pair_views(pre) =~= pair_views(rest@).push((p.0@, p.1@)));
            assert(pair_views(pre).to_multiset() =~= pair_views(rest@).to_multiset().insert(
                (p.0@, p.1@),
            ));
        }
        let mut idx: usize = 0;
        while idx < sorted.len() && !pair_le_exec(&p, &sorted[idx])
            invariant
                idx <= sorted@.len(),
                forall|k: int|
                    0 <= k < idx ==> #[trigger] pair_ord()(pair_views(sorted@)[k], (p.0@, p.1@)),
            decreases sorted@.len() - idx,
        {
            proof {
                lemma_pair_le_connected(pair_views(sorted@)[idx as int], (p.0@, p.1@));
                assert(pair_ord()(pair_views(sorted@)[idx as int], (p.0@, p.1@)));
            }
            idx = idx + 1;
        }
        proof {
            let sv = pair_views(sorted@);
            let pv = (p.0@, p.1@);
            lemma_sorted_insert(sv, idx as int, pv);
            assert(sv.insert(idx as int, pv) =~= pair_views(sorted@.insert(idx as int, p)));
            lemma_seq_insert_multiset(sv, idx as int, pv);
            assert(sv.to_multiset().insert(pv).add(pair_views(rest@).to_multiset())
                =~= sv.to_multiset().add(pair_views(rest@).to_multiset().insert(pv)));
        }
        sorted.insert(idx, p);
    }
    proof {
        assert(pair_views(rest@).to_multiset() =~= Multiset::<(Seq<u8>, Seq<u8>)>::empty());
        assert(pair_views(sorted@).to_multiset() =~= orig.to_multiset());
        orig.lemma_sort_by_ensures(pair_ord());
        lemma_sorted_unique(pair_views(sorted@), orig.sort_by(pair_ord()), pair_ord());
        assert(pair_views(sorted@) == orig.sort_by(pair_ord()));
        assert(pair_views(sorted@).len() == orig.len()) by {
            assert(pair_views(sorted@).len() == pair_views(sorted@).to_multiset().len());
            assert(orig.len() == orig.to_multiset().len());
        }
    }
    buf.push(7);
    vecpak_varint(buf, sorted.len() as i128);
    let ghost mid = buf@;
    let ghost sv = pair_views(sorted@);
    let mut i: usize = 0;
    while i < sorted.len()
        invariant
            i <= sorted@.len(),
            sv == pair_views(sorted@),
            buf@ =~= mid + cat_pairs(sv.take(i as int)),
        decreases sorted@.len() - i,
    {
        let ghost before = buf@;
        buf.extend_from_slice(sorted[i].0.as_slice());
        buf.extend_from_slice(sorted[i].1.as_slice());
        i = i + 1;
        proof {
            assert(sv.take(i as int).drop_last() =~= sv.take(i as int - 1));
            assert(sv.take(i as int).last() == (sorted@[i as int - 1].0@, sorted@[
                i as int - 1
            ].1@));
            assert(buf@ =~= before + sorted@[i as int - 1].0@ + sorted@[i as int - 1].1@);
            assert(buf@ =~= mid + cat_pairs(sv.take(i as int)));
        }
    }
    proof {
        assert(sv.take(sv.len() as int) =~= sv);
        assert(buf@ =~= old(buf)@ + proplist_bytes(orig));
    }
}

/// Encodes one binary blob into a fresh buffer.
pub fn encode_binary(data: &[u8]) -> (r: Vec<u8>)
    ensures
        r@ == blob_bytes(data@),
{
    let mut out: Vec<u8> = Vec::new();
    vecpak_binary(&mut out, data);
    proof {
        assert(out@ =~= blob_bytes(data@));
    }
    out
}

} // verus!
