//! Versionstamps: 10-byte identifiers that order as big-endian unsigned
//! integers.  A versionstamp is assigned once per committed transaction and
//! serves both as the ordering key of the change log and as an opaque read
//! cursor.

use vstd::prelude::*;
use vstd::arithmetic::power::pow;

verus! {

/// A versionstamp: 10 bytes compared as a big-endian unsigned integer.
pub type Versionstamp = [u8; 10];

/// The numeric value of a byte string read as a big-endian unsigned integer.
pub open spec fn be_num(s: Seq<u8>) -> int
    decreases s.len(),
{
    if s.len() == 0 {
        0
    } else {
        s.first() * pow(256, (s.len() - 1) as nat) + be_num(s.drop_first())
    }
}

/// Appending a byte multiplies the numeric value by 256 and adds the byte.
pub proof fn lemma_be_num_push(s: Seq<u8>, b: u8)
    ensures
        be_num(s.push(b)) == be_num(s) * 256 + b,
    decreases s.len(),
{
    reveal(pow);
    if s.len() == 0 {
        assert(s.push(b) =~= seq![b]);
        assert(be_num(seq![b]) == b * pow(256, 0) + be_num(seq![b].drop_first()));
        assert(seq![b].drop_first() =~= Seq::<u8>::empty());
    } else {
        assert(s.push(b).drop_first() =~= s.drop_first().push(b));
        lemma_be_num_push(s.drop_first(), b);
        assert(s.push(b).first() == s.first());
        assert(s.push(b).len() == s.len() + 1);
        assert(be_num(s.push(b)) == s.first() * pow(256, s.len() as nat) + be_num(
            s.drop_first().push(b),
        ));
        assert(pow(256, s.len() as nat) == 256 * pow(256, (s.len() - 1) as nat));
        assert(s.first() * pow(256, s.len() as nat) == (s.first() * pow(
            256,
            (s.len() - 1) as nat,
        )) * 256) by (nonlinear_arith)
            requires
                pow(256, s.len() as nat) == 256 * pow(256, (s.len() - 1) as nat),
        ;
    }
}

/// The numeric value of a byte string is non-negative and below 256^len.
pub proof fn lemma_be_num_bound(s: Seq<u8>)
    ensures
        0 <= be_num(s) < pow(256, s.len() as nat),
    decreases s.len(),
{
    reveal(pow);
    if s.len() == 0 {
        assert(pow(256, 0) == 1);
    } else {
        lemma_be_num_bound(s.drop_first());
        assert(pow(256, s.len() as nat) == 256 * pow(256, (s.len() - 1) as nat));
        assert(s.first() * pow(256, (s.len() - 1) as nat) <= 255 * pow(
            256,
            (s.len() - 1) as nat,
        )) by (nonlinear_arith)
            requires
                s.first() <= 255,
                pow(256, (s.len() - 1) as nat) >= 0,
        ;
        vstd::arithmetic::power::lemma_pow_positive(256, (s.len() - 1) as nat);
    }
}

/// The bytes of the versionstamp that stands for a u64: the value in
/// big-endian order in the first 8 bytes, the final two bytes zero.
pub open spec fn spec_u64_vs(v: u64) -> Seq<u8> {
    seq![
        (v >> 56) as u8,
        (v >> 48) as u8,
        (v >> 40) as u8,
        (v >> 32) as u8,
        (v >> 24) as u8,
        (v >> 16) as u8,
        (v >> 8) as u8,
        v as u8,
        0u8,
        0u8,
    ]
}

/// The numeric value of the u64 versionstamp form is the value shifted by
/// two bytes.
pub proof fn lemma_u64_vs_num(v: u64)
    ensures
        spec_u64_vs(v).len() == 10,
        be_num(spec_u64_vs(v)) == v * 0x10000,
{
    lemma_u64_bytes(v);
    lemma_be_num_10(spec_u64_vs(v));
}

/// Converts a u64 to a 10-byte versionstamp: the value in big-endian order
/// in the first 8 bytes, the final two bytes zero.
pub fn u64_to_versionstamp(v: u64) -> (r: Versionstamp)
    ensures
        r@ == spec_u64_vs(v),
        be_num(r@) == v * 0x10000,
{
    let r: Versionstamp = [
        (v >> 56) as u8,
        (v >> 48) as u8,
        (v >> 40) as u8,
        (v >> 32) as u8,
        (v >> 24) as u8,
        (v >> 16) as u8,
        (v >> 8) as u8,
        v as u8,
        0,
        0,
    ];
    proof {
        assert(r@ =~= spec_u64_vs(v));
        lemma_u64_vs_num(v);
    }
    r
}

/// Unrolls `be_num` over a 10-byte sequence into nested base-256 products.
proof fn lemma_be_num_10(s: Seq<u8>)
    requires
        s.len() == 10,
    ensures
        be_num(s) == (((((((((s[0] * 256 + s[1]) * 256 + s[2]) * 256 + s[3]) * 256 + s[4]) * 256
            + s[5]) * 256 + s[6]) * 256 + s[7]) * 256 + s[8]) * 256) + s[9],
{
    let e = Seq::<u8>::empty();
    let s1 = e.push(s[0]);
    let s2 = s1.push(s[1]);
    let s3 = s2.push(s[2]);
    let s4 = s3.push(s[3]);
    let s5 = s4.push(s[4]);
    let s6 = s5.push(s[5]);
    let s7 = s6.push(s[6]);
    let s8 = s7.push(s[7]);
    let s9 = s8.push(s[8]);
    let s10 = s9.push(s[9]);
    assert(s10 =~= s);
    lemma_be_num_push(e, s[0]);
    lemma_be_num_push(s1, s[1]);
    lemma_be_num_push(s2, s[2]);
    lemma_be_num_push(s3, s[3]);
    lemma_be_num_push(s4, s[4]);
    lemma_be_num_push(s5, s[5]);
    lemma_be_num_push(s6, s[6]);
    lemma_be_num_push(s7, s[7]);
    lemma_be_num_push(s8, s[8]);
    lemma_be_num_push(s9, s[9]);
}

/// A u64 equals the base-256 recomposition of its big-endian bytes.
proof fn lemma_u64_bytes(v: u64)
    by (bit_vector)
    ensures
        (((((((((v >> 56) as u8) * 256 + ((v >> 48) as u8)) * 256 + ((v >> 40) as u8)) * 256 + ((v
            >> 32) as u8)) * 256 + ((v >> 24) as u8)) * 256 + ((v >> 16) as u8)) * 256 + ((v
            >> 8) as u8)) * 256 + (v as u8)) == v,
{
}

/// A u128 reduced modulo 2^80 equals the base-256 recomposition of its ten
/// low big-endian bytes.
proof fn lemma_u128_bytes(v: u128)
    by (bit_vector)
    ensures
        (((((((((((v >> 72) as u8) * 256 + ((v >> 64) as u8)) * 256 + ((v >> 56) as u8)) * 256 + ((
        v >> 48) as u8)) * 256 + ((v >> 40) as u8)) * 256 + ((v >> 32) as u8)) * 256 + ((v
            >> 24) as u8)) * 256 + ((v >> 16) as u8)) * 256 + ((v >> 8) as u8)) * 256 + (
        v as u8)) == v % 0x100000000000000000000,
{
}

/// Converts a u128 to a 10-byte big-endian versionstamp; only the low
/// 80 bits are representable.
pub fn u128_to_versionstamp(v: u128) -> (r: Versionstamp)
    ensures
        be_num(r@) == v % 0x100000000000000000000,
{
    let r: Versionstamp = [
        (v >> 72) as u8,
        (v >> 64) as u8,
        (v >> 56) as u8,
        (v >> 48) as u8,
        (v >> 40) as u8,
        (v >> 32) as u8,
        (v >> 24) as u8,
        (v >> 16) as u8,
        (v >> 8) as u8,
        v as u8,
    ];
    proof {
        lemma_u128_bytes(v);
        lemma_be_num_10(r@);
    }
    r
}

/// Builds a versionstamp from 8 bytes of physical time and 2 bytes of
/// logical counter, both big-endian.
pub fn u64_u16_to_versionstamp(v: u64, c: u16) -> (r: Versionstamp)
    ensures
        be_num(r@) == v * 0x10000 + c,
{
    let r: Versionstamp = [
        (v >> 56) as u8,
        (v >> 48) as u8,
        (v >> 40) as u8,
        (v >> 32) as u8,
        (v >> 24) as u8,
        (v >> 16) as u8,
        (v >> 8) as u8,
        v as u8,
        (c >> 8) as u8,
        c as u8,
    ];
    proof {
        lemma_u64_bytes(v);
        assert(((c >> 8) as u8) * 256 + (c as u8) == c) by (bit_vector);
        lemma_be_num_10(r@);
    }
    r
}

/// Builds a versionstamp from a 2-byte epoch and an 8-byte counter, both
/// big-endian.
pub fn u16_u64_to_versionstamp(e: u16, c: u64) -> (r: Versionstamp)
    ensures
        be_num(r@) == e * 0x10000000000000000 + c,
{
    let r: Versionstamp = [
        (e >> 8) as u8,
        e as u8,
        (c >> 56) as u8,
        (c >> 48) as u8,
        (c >> 40) as u8,
        (c >> 32) as u8,
        (c >> 24) as u8,
        (c >> 16) as u8,
        (c >> 8) as u8,
        c as u8,
    ];
    proof {
        lemma_u64_bytes(c);
        assert(((e >> 8) as u8) * 256 + (e as u8) == e) by (bit_vector);
        lemma_be_num_10(r@);
    }
    r
}

/// Reads a 10-byte versionstamp as a big-endian u128.
pub fn to_u128_be(vs: Versionstamp) -> (r: u128)
    ensures
        r == be_num(vs@),
{
    let mut r: u128 = 0;
    let mut i: usize = 0;
    proof {
        assert(vs@.subrange(0, 0) =~= Seq::<u8>::empty());
    }
    while i < 10
        invariant
            0 <= i <= 10,
            vs@.len() == 10,
            r == be_num(vs@.subrange(0, i as int)),
            r < 0x100000000000000000000,
        decreases 10 - i,
    {
        proof {
            lemma_be_num_push(vs@.subrange(0, i as int), vs@[i as int]);
            assert(vs@.subrange(0, i as int).push(vs@[i as int]) =~= vs@.subrange(0, i + 1));
            lemma_be_num_bound(vs@.subrange(0, i + 1));
            assert(pow(256, (i + 1) as nat) <= pow(256, 10)) by {
                vstd::arithmetic::power::lemma_pow_increases(256, (i + 1) as nat, 10);
            }
            lemma_pow256_vals();
        }
        r = r * 256 + (vs[i] as u128);
        i = i + 1;
    }
    proof {
        assert(vs@.subrange(0, 10) =~= vs@);
    }
    r
}

/// Reads the first 8 bytes of a versionstamp as a big-endian u64.
pub fn to_u64_be(vs: Versionstamp) -> (r: u64)
    ensures
        r == be_num(vs@.subrange(0, 8)),
{
    let mut r: u64 = 0;
    let mut i: usize = 0;
    proof {
        assert(vs@.subrange(0, 0) =~= Seq::<u8>::empty());
    }
    while i < 8
        invariant
            0 <= i <= 8,
            vs@.len() == 10,
            r == be_num(vs@.subrange(0, i as int)),
            r < 0x10000000000000000,
        decreases 8 - i,
    {
        proof {
            lemma_be_num_push(vs@.subrange(0, i as int), vs@[i as int]);
            assert(vs@.subrange(0, i as int).push(vs@[i as int]) =~= vs@.subrange(0, i + 1));
            lemma_be_num_bound(vs@.subrange(0, i + 1));
            assert(pow(256, (i + 1) as nat) <= pow(256, 8)) by {
                vstd::arithmetic::power::lemma_pow_increases(256, (i + 1) as nat, 8);
            }
            lemma_pow256_vals();
        }
        r = r * 256 + (vs[i] as u64);
        i = i + 1;
    }
    r
}

/// Reads a versionstamp into the top 10 bytes of a u128: the numeric value
/// shifted left by 48 bits.  Handy for producing human-readable views.
pub fn to_u128_le(vs: Versionstamp) -> (r: u128)
    ensures
        r == be_num(vs@) * 0x1000000000000,
{
    let n = to_u128_be(vs);
    proof {
        lemma_be_num_bound(vs@);
        lemma_pow256_vals();
        assert(be_num(vs@) * 0x1000000000000 < 0x100000000000000000000 * 0x1000000000000) by (
        nonlinear_arith)
            requires
                0 <= be_num(vs@) < 0x100000000000000000000,
        ;
    }
    n * 0x1000000000000
}

/// The concrete powers of 256 that the 10-byte layout uses.
pub proof fn lemma_pow256_vals()
    ensures
        pow(256, 8) == 0x10000000000000000,
        pow(256, 10) == 0x100000000000000000000,
{
    reveal_with_fuel(pow, 11);
}

/// Splitting a byte string at position k splits its numeric value into a
/// high part scaled by 256^(len-k) and a low part.
pub proof fn lemma_be_num_split(s: Seq<u8>, k: int)
    requires
        0 <= k <= s.len(),
    ensures
        be_num(s) == be_num(s.subrange(0, k)) * pow(256, (s.len() - k) as nat) + be_num(
            s.subrange(k, s.len() as int),
        ),
    decreases s.len(),
{
    reveal(pow);
    if k == 0 {
        assert(s.subrange(0, 0) =~= Seq::<u8>::empty());
        assert(s.subrange(0, s.len() as int) =~= s);
    } else {
        let rest = s.drop_first();
        lemma_be_num_split(rest, k - 1);
        assert(rest.subrange(0, k - 1) =~= s.subrange(0, k).drop_first());
        assert(rest.subrange(k - 1, rest.len() as int) =~= s.subrange(k, s.len() as int));
        let hi = s.subrange(0, k);
        assert(hi.first() == s.first());
        assert(be_num(hi) == s.first() * pow(256, (k - 1) as nat) + be_num(hi.drop_first()));
        vstd::arithmetic::power::lemma_pow_adds(256, (k - 1) as nat, (s.len() - k) as nat);
        assert(s.first() * pow(256, (s.len() - 1) as nat) == (s.first() * pow(256, (k - 1) as nat))
            * pow(256, (s.len() - k) as nat)) by (nonlinear_arith)
            requires
                pow(256, (s.len() - 1) as nat) == pow(256, (k - 1) as nat) * pow(
                    256,
                    (s.len() - k) as nat,
                ),
        ;
        assert((s.first() * pow(256, (k - 1) as nat) + be_num(hi.drop_first())) * pow(
            256,
            (s.len() - k) as nat,
        ) == (s.first() * pow(256, (k - 1) as nat)) * pow(256, (s.len() - k) as nat) + be_num(
            hi.drop_first(),
        ) * pow(256, (s.len() - k) as nat)) by (nonlinear_arith);
    }
}

/// Strict lexicographic order on byte strings.
pub open spec fn lex_lt(a: Seq<u8>, b: Seq<u8>) -> bool
    decreases a.len() + b.len(),
{
    if b.len() == 0 {
        false
    } else if a.len() == 0 {
        true
    } else if a.first() < b.first() {
        true
    } else if a.first() > b.first() {
        false
    } else {
        lex_lt(a.drop_first(), b.drop_first())
    }
}

/// Lexicographic order is decided after a shared prefix.
pub proof fn lemma_lex_prefix_iff(p: Seq<u8>, a: Seq<u8>, b: Seq<u8>)
    ensures
        lex_lt(p + a, p + b) <==> lex_lt(a, b),
    decreases p.len(),
{
    if p.len() == 0 {
        assert(p + a =~= a);
        assert(p + b =~= b);
    } else {
        assert((p + a).first() == p.first());
        assert((p + b).first() == p.first());
        assert((p + a).drop_first() =~= p.drop_first() + a);
        assert((p + b).drop_first() =~= p.drop_first() + b);
        lemma_lex_prefix_iff(p.drop_first(), a, b);
    }
}

/// A strict order between equal-length strings survives any extensions.
pub proof fn lemma_lex_extend(a: Seq<u8>, b: Seq<u8>, x: Seq<u8>, y: Seq<u8>)
    requires
        a.len() == b.len(),
        lex_lt(a, b),
    ensures
        lex_lt(a + x, b + y),
    decreases a.len(),
{
    if a.len() == 0 {
    } else {
        assert((a + x).first() == a.first());
        assert((b + y).first() == b.first());
        if a.first() == b.first() {
            assert((a + x).drop_first() =~= a.drop_first() + x);
            assert((b + y).drop_first() =~= b.drop_first() + y);
            lemma_lex_extend(a.drop_first(), b.drop_first(), x, y);
        }
    }
}

/// A string never orders strictly below one of its own prefixes.
pub proof fn lemma_lex_app_not_lt(a: Seq<u8>, x: Seq<u8>)
    ensures
        !lex_lt(a + x, a),
    decreases a.len(),
{
    if a.len() == 0 {
    } else {
        assert((a + x).first() == a.first());
        assert((a + x).drop_first() =~= a.drop_first() + x);
        lemma_lex_app_not_lt(a.drop_first(), x);
    }
}

/// A string orders strictly below any proper extension of itself.
pub proof fn lemma_lex_proper_prefix(a: Seq<u8>, x: Seq<u8>)
    requires
        x.len() > 0,
    ensures
        lex_lt(a, a + x),
    decreases a.len(),
{
    if a.len() == 0 {
        assert(a + x =~= x);
    } else {
        assert((a + x).first() == a.first());
        assert((a + x).drop_first() =~= a.drop_first() + x);
        lemma_lex_proper_prefix(a.drop_first(), x);
    }
}

/// Lexicographic order is asymmetric.
pub proof fn lemma_lex_asym(a: Seq<u8>, b: Seq<u8>)
    requires
        lex_lt(a, b),
    ensures
        !lex_lt(b, a),
    decreases a.len() + b.len(),
{
    if b.len() == 0 {
    } else if a.len() == 0 {
    } else if a.first() == b.first() {
        lemma_lex_asym(a.drop_first(), b.drop_first());
    }
}

/// Any two byte strings are equal or strictly ordered one way.
pub proof fn lemma_lex_trichotomy(a: Seq<u8>, b: Seq<u8>)
    ensures
        lex_lt(a, b) || lex_lt(b, a) || a == b,
    decreases a.len() + b.len(),
{
    if a.len() == 0 && b.len() == 0 {
        assert(a =~= b);
    } else if a.len() == 0 || b.len() == 0 {
    } else if a.first() == b.first() {
        lemma_lex_trichotomy(a.drop_first(), b.drop_first());
        if !lex_lt(a, b) && !lex_lt(b, a) {
            assert(a.drop_first() =~= b.drop_first());
            assert(a =~= seq![a.first()] + a.drop_first());
            assert(b =~= seq![b.first()] + b.drop_first());
        }
    }
}

/// A string pointwise at most another and different somewhere orders
/// strictly below it.
pub proof fn lemma_lex_pointwise(a: Seq<u8>, b: Seq<u8>)
    requires
        a.len() == b.len(),
        forall|i: int| 0 <= i < a.len() ==> #[trigger] a[i] <= b[i],
        a != b,
    ensures
        lex_lt(a, b),
    decreases a.len(),
{
    if a.len() == 0 {
        assert(a =~= b);
    } else {
        assert(a[0] <= b[0]);
        if a.first() == b.first() {
            if a.drop_first() == b.drop_first() {
                assert(a =~= seq![a.first()] + a.drop_first());
                assert(b =~= seq![b.first()] + b.drop_first());
                assert(false);
            }
            assert(forall|i: int|
                0 <= i < a.drop_first().len() ==> #[trigger] a.drop_first()[i]
                    <= b.drop_first()[i]) by {
                assert(forall|i: int|
                    0 <= i < a.drop_first().len() ==> a.drop_first()[i] == a[i + 1]
                        && b.drop_first()[i] == b[i + 1]);
            }
            lemma_lex_pointwise(a.drop_first(), b.drop_first());
        }
    }
}

/// A first difference decides lexicographic order.
pub proof fn lemma_lex_first_diff(a: Seq<u8>, b: Seq<u8>, d: int)
    requires
        0 <= d < a.len(),
        d < b.len(),
        forall|i: int| 0 <= i < d ==> a[i] == b[i],
        a[d] < b[d],
    ensures
        lex_lt(a, b),
    decreases d,
{
    if d == 0 {
        assert(a.first() < b.first());
    } else {
        assert(a.first() == b.first());
        assert(forall|i: int|
            0 <= i < d - 1 ==> a.drop_first()[i] == a[i + 1] && b.drop_first()[i] == b[i + 1]);
        lemma_lex_first_diff(a.drop_first(), b.drop_first(), d - 1);
    }
}

/// A string below another in lexicographic order is its proper prefix or
/// differs first at some position with a smaller byte.
pub proof fn lemma_lex_lt_cases(a: Seq<u8>, b: Seq<u8>)
    requires
        lex_lt(a, b),
    ensures
        (a.len() < b.len() && a =~= b.subrange(0, a.len() as int)) || exists|d: int|
            0 <= d < a.len() && d < b.len() && #[trigger] a[d] < b[d] && (forall|i: int|
                0 <= i < d ==> a[i] == b[i]),
    decreases a.len() + b.len(),
{
    if a.len() == 0 {
        assert(a =~= b.subrange(0, 0));
    } else if a.first() < b.first() {
        assert(0 < a.len() && 0 < b.len() && a[0] < b[0] && (forall|i: int|
            0 <= i < 0 ==> a[i] == b[i]));
    } else {
        lemma_lex_lt_cases(a.drop_first(), b.drop_first());
        if a.drop_first().len() < b.drop_first().len() && a.drop_first() =~= b.drop_first()
            .subrange(0, a.len() - 1) {
            assert forall|i: int| 0 <= i < a.len() implies a[i] == b.subrange(
                0,
                a.len() as int,
            )[i] by {
                if i > 0 {
                    assert(a.drop_first()[i - 1] == b.drop_first().subrange(0, a.len() - 1)[i
                        - 1]);
                }
            }
            assert(a =~= b.subrange(0, a.len() as int));
        } else {
            let d0 = choose|d0: int|
                0 <= d0 < a.drop_first().len() && d0 < b.drop_first().len()
                    && #[trigger] a.drop_first()[d0] < b.drop_first()[d0] && (forall|i: int|
                    0 <= i < d0 ==> a.drop_first()[i] == b.drop_first()[i]);
            let d = d0 + 1;
            assert(a[d] < b[d]);
            assert forall|i: int| 0 <= i < d implies a[i] == b[i] by {
                if i > 0 {
                    assert(a.drop_first()[i - 1] == b.drop_first()[i - 1]);
                }
            }
            assert(0 <= d < a.len() && d < b.len() && a[d] < b[d] && (forall|i: int|
                0 <= i < d ==> a[i] == b[i]));
        }
    }
}

/// Lexicographic order is transitive.
pub proof fn lemma_lex_trans(a: Seq<u8>, b: Seq<u8>, c: Seq<u8>)
    requires
        lex_lt(a, b),
        lex_lt(b, c),
    ensures
        lex_lt(a, c),
    decreases a.len() + b.len() + c.len(),
{
    if a.len() == 0 {
        assert(b.len() > 0);
        assert(c.len() > 0);
    } else if b.len() == 0 || c.len() == 0 {
    } else {
        if a.first() == b.first() && b.first() == c.first() {
            lemma_lex_trans(a.drop_first(), b.drop_first(), c.drop_first());
        }
    }
}

/// On equal-length byte strings, lexicographic order agrees with the order
/// of the big-endian numeric values.
pub proof fn lemma_lex_is_be_num_lt(a: Seq<u8>, b: Seq<u8>)
    requires
        a.len() == b.len(),
    ensures
        lex_lt(a, b) <==> be_num(a) < be_num(b),
    decreases a.len(),
{
    reveal(pow);
    if a.len() == 0 {
    } else {
        lemma_lex_is_be_num_lt(a.drop_first(), b.drop_first());
        lemma_be_num_bound(a.drop_first());
        lemma_be_num_bound(b.drop_first());
        if a.first() != b.first() {
            let lo = if a.first() < b.first() {
                a.first()
            } else {
                b.first()
            };
            let hi = if a.first() < b.first() {
                b.first()
            } else {
                a.first()
            };
            assert(lo + 1 <= hi);
            assert((lo + 1) * pow(256, (a.len() - 1) as nat) <= hi * pow(
                256,
                (a.len() - 1) as nat,
            )) by (nonlinear_arith)
                requires
                    lo + 1 <= hi,
                    pow(256, (a.len() - 1) as nat) >= 0,
            ;
            assert((lo + 1) * pow(256, (a.len() - 1) as nat) == lo * pow(256, (a.len() - 1) as nat)
                + pow(256, (a.len() - 1) as nat)) by (nonlinear_arith);
        }
    }
}

} // verus!
