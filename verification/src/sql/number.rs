//! Numbers: 64-bit integers and exact fixed-point decimals.
//!
//! A decimal holds an integer count of millionths, so every number has an
//! exact integer value in millionths ("micros") and all arithmetic and
//! comparison contracts are stated over that value.  Results outside the
//! representable range saturate at the endpoints.

use vstd::prelude::*;

verus! {

/// One millionth steps: the resolution of the decimal representation.
pub const MICROS: i128 = 1000000;

/// A numeric value: an integer, or a decimal counted in millionths.
#[derive(Clone, Copy, Debug, PartialEq, Eq, Structural)]
pub enum Number {
    /// A 64-bit integer.
    Int(i64),
    /// A decimal: the wrapped value counts millionths.
    Dec(i128),
}

/// The exact value of a number, in millionths.
pub open spec fn micros(n: Number) -> int {
    match n {
        Number::Int(i) => i * 1000000,
        Number::Dec(m) => m as int,
    }
}

/// Clamps an integer into the i128 range.
pub open spec fn clamp128(v: int) -> int {
    if v > i128::MAX {
        i128::MAX as int
    } else if v < i128::MIN {
        i128::MIN as int
    } else {
        v
    }
}

/// Clamps an integer into the i64 range.
pub open spec fn clamp64(v: int) -> int {
    if v > i64::MAX {
        i64::MAX as int
    } else if v < i64::MIN {
        i64::MIN as int
    } else {
        v
    }
}

/// Division truncating toward zero, with zero for a zero divisor.
pub open spec fn div_trunc(a: int, b: int) -> int {
    if b == 0 {
        0
    } else if (a >= 0) == (b >= 0) {
        abs_int(a) / abs_int(b)
    } else {
        -(abs_int(a) / abs_int(b))
    }
}

/// The absolute value of an integer.
pub open spec fn abs_int(a: int) -> int {
    if a >= 0 {
        a
    } else {
        -a
    }
}

/// The sum of two numbers: integers stay integers, any other pair becomes
/// a decimal; the value saturates at the endpoints.
pub open spec fn spec_num_add(a: Number, b: Number) -> Number {
    match (a, b) {
        (Number::Int(x), Number::Int(y)) => Number::Int(clamp64(x + y) as i64),
        _ => Number::Dec(clamp128(micros(a) + micros(b)) as i128),
    }
}

/// The difference of two numbers, saturating like the sum.
pub open spec fn spec_num_sub(a: Number, b: Number) -> Number {
    match (a, b) {
        (Number::Int(x), Number::Int(y)) => Number::Int(clamp64(x - y) as i64),
        _ => Number::Dec(clamp128(micros(a) - micros(b)) as i128),
    }
}

/// The product of two numbers: integers stay integers, any other pair
/// becomes a decimal at millionth resolution; saturating.
pub open spec fn spec_num_mul(a: Number, b: Number) -> Number {
    match (a, b) {
        (Number::Int(x), Number::Int(y)) => Number::Int(clamp64(x * y) as i64),
        _ => Number::Dec(clamp128(div_trunc(clamp128(micros(a) * micros(b)), 1000000)) as i128),
    }
}

/// The quotient of two numbers at millionth resolution, truncating toward
/// zero; zero for a zero divisor, saturating at the endpoints.
pub open spec fn spec_num_div(a: Number, b: Number) -> Number {
    Number::Dec(clamp128(div_trunc(clamp128(micros(a) * 1000000), micros(b))) as i128)
}

impl Number {
    /// The number's value in millionths, for exec code.
    pub fn micros_i128(&self) -> (r: i128)
        ensures
            r == micros(*self),
    {
        match self {
            Number::Int(i) => (*i as i128) * 1000000,
            Number::Dec(m) => *m,
        }
    }

    /// Whether this number equals another in value.
    pub fn same_value(&self, other: &Number) -> (r: bool)
        ensures
            r == (micros(*self) == micros(*other)),
    {
        self.micros_i128() == other.micros_i128()
    }

    /// Whether this number is strictly below another.
    pub fn lt(&self, other: &Number) -> (r: bool)
        ensures
            r == (micros(*self) < micros(*other)),
    {
        self.micros_i128() < other.micros_i128()
    }

    /// Whether this number is at most another.
    pub fn le(&self, other: &Number) -> (r: bool)
        ensures
            r == (micros(*self) <= micros(*other)),
    {
        self.micros_i128() <= other.micros_i128()
    }

    /// Adds two numbers exactly; two integers stay an integer, any other
    /// pair becomes a decimal.  The value saturates at the endpoints.
    pub fn add(self, other: Number) -> (r: Number)
        ensures
            r == spec_num_add(self, other),
    {
        match (self, other) {
            (Number::Int(a), Number::Int(b)) => match a.checked_add(b) {
                Some(v) => Number::Int(v),
                None => {
                    if b > 0 {
                        Number::Int(i64::MAX)
                    } else {
                        Number::Int(i64::MIN)
                    }
                },
            },
            _ => {
                let ma = self.micros_i128();
                let mb = other.micros_i128();
                match ma.checked_add(mb) {
                    Some(v) => Number::Dec(v),
                    None => {
                        if mb > 0 {
                            Number::Dec(i128::MAX)
                        } else {
                            Number::Dec(i128::MIN)
                        }
                    },
                }
            },
        }
    }

    /// Subtracts another number from this one, saturating like `add`.
    pub fn sub(self, other: Number) -> (r: Number)
        ensures
            r == spec_num_sub(self, other),
    {
        match (self, other) {
            (Number::Int(a), Number::Int(b)) => match a.checked_sub(b) {
                Some(v) => Number::Int(v),
                None => {
                    if b < 0 {
                        Number::Int(i64::MAX)
                    } else {
                        Number::Int(i64::MIN)
                    }
                },
            },
            _ => {
                let ma = self.micros_i128();
                let mb = other.micros_i128();
                match ma.checked_sub(mb) {
                    Some(v) => Number::Dec(v),
                    None => {
                        if mb < 0 {
                            Number::Dec(i128::MAX)
                        } else {
                            Number::Dec(i128::MIN)
                        }
                    },
                }
            },
        }
    }

    /// Multiplies two numbers; two integers stay an integer, any other
    /// pair becomes a decimal, exact while the product of the millionths
    /// values fits in an i128 and saturated beyond.
    pub fn mul(self, other: Number) -> (r: Number)
        ensures
            r == spec_num_mul(self, other),
    {
        match (self, other) {
            (Number::Int(a), Number::Int(b)) => match a.checked_mul(b) {
                Some(v) => Number::Int(v),
                None => {
                    proof {
                        lemma_mul_sign(a as int, b as int);
                    }
                    if (a > 0) == (b > 0) {
                        Number::Int(i64::MAX)
                    } else {
                        Number::Int(i64::MIN)
                    }
                },
            },
            _ => {
                let ma = self.micros_i128();
                let mb = other.micros_i128();
                let p = match ma.checked_mul(mb) {
                    Some(v) => v,
                    None => {
                        proof {
                            lemma_mul_sign(ma as int, mb as int);
                        }
                        if (ma > 0) == (mb > 0) {
                            i128::MAX
                        } else {
                            i128::MIN
                        }
                    },
                };
                Number::Dec(div_trunc_i128(p, MICROS))
            },
        }
    }

    /// Divides this number by another, rounding toward zero at millionth
    /// resolution; division by zero yields zero.  Exact while the dividend
    /// scaled by a million fits in an i128, saturated beyond.
    pub fn div(self, other: Number) -> (r: Number)
        ensures
            r == spec_num_div(self, other),
    {
        let ma = self.micros_i128();
        let mb = other.micros_i128();
        let p = match ma.checked_mul(MICROS) {
            Some(v) => v,
            None => {
                if ma > 0 {
                    i128::MAX
                } else {
                    i128::MIN
                }
            },
        };
        Number::Dec(div_trunc_i128(p, mb))
    }

    /// The absolute value, saturating at the top of the range.
    pub fn abs(self) -> (r: Number)
        ensures
            match self {
                Number::Int(a) => micros(r) == clamp64(abs_int(a as int)) * 1000000,
                Number::Dec(m) => micros(r) == clamp128(abs_int(m as int)),
            },
    {
        match self {
            Number::Int(a) => {
                if a >= 0 {
                    Number::Int(a)
                } else if a == i64::MIN {
                    Number::Int(i64::MAX)
                } else {
                    Number::Int(-a)
                }
            },
            Number::Dec(m) => {
                if m >= 0 {
                    Number::Dec(m)
                } else if m == i128::MIN {
                    Number::Dec(i128::MAX)
                } else {
                    Number::Dec(-m)
                }
            },
        }
    }
}

impl Number {
    /// The largest integer at most this number, clamped to the i64 range.
    pub fn floor(self) -> (r: Number)
        ensures
            r == Number::Int(clamp64(micros(self) / 1000000) as i64),
    {
        let m = self.micros_i128();
        let q = match m.checked_div_euclid(MICROS) {
            Some(v) => v,
            None => 0,
        };
        Number::Int(clamp_to_i64(q))
    }

    /// The smallest integer at least this number, clamped to the i64 range.
    pub fn ceil(self) -> (r: Number)
        ensures
            r == Number::Int(
                clamp64(
                    if micros(self) % 1000000 == 0 {
                        micros(self) / 1000000
                    } else {
                        micros(self) / 1000000 + 1
                    },
                ) as i64,
            ),
    {
        let m = self.micros_i128();
        let q = match m.checked_div_euclid(MICROS) {
            Some(v) => v,
            None => 0,
        };
        let rem = match m.checked_rem_euclid(MICROS) {
            Some(v) => v,
            None => 0,
        };
        if rem == 0 {
            Number::Int(clamp_to_i64(q))
        } else {
            proof {
                assert(q < i128::MAX);
            }
            Number::Int(clamp_to_i64(q + 1))
        }
    }

    /// The nearest integer, halves rounding away from zero, clamped to the
    /// i64 range.
    pub fn round(self) -> (r: Number)
        ensures
            r == Number::Int(
                clamp64(
                    if micros(self) >= 0 {
                        (micros(self) + 500000) / 1000000
                    } else {
                        -(((-micros(self)) + 500000) / 1000000)
                    },
                ) as i64,
            ),
    {
        let m = self.micros_i128();
        if m >= 0 {
            let q = (m as u128 + 500000) / 1000000;
            Number::Int(clamp_u128_to_i64(q))
        } else {
            let mag: u128 = if m == i128::MIN {
                170141183460469231731687303715884105728u128
            } else {
                (-m) as u128
            };
            let q = (mag + 500000) / 1000000;
            Number::Int(clamp_u128_to_neg_i64(q))
        }
    }

    /// The square root at millionth resolution: the result is the largest
    /// decimal whose square does not exceed this number.  A negative number
    /// yields zero.
    pub fn sqrt(self) -> (r: Number)
        ensures
            micros(self) < 0 ==> r == Number::Int(0i64),
            micros(self) >= 0 ==> ({
                let s = if micros(self) * 1000000 > u128::MAX {
                    u128::MAX as int
                } else {
                    micros(self) * 1000000
                };
                &&& r is Dec
                &&& micros(r) >= 0
                &&& micros(r) * micros(r) <= s
                &&& (micros(r) + 1) * (micros(r) + 1) > s
            }),
    {
        let m = self.micros_i128();
        if m < 0 {
            return Number::Int(0);
        }
        let s = match (m as u128).checked_mul(1000000u128) {
            Some(v) => v,
            None => u128::MAX,
        };
        let mut lo: u128 = 0;
        let mut hi: u128 = 0x10000000000000000;
        proof {
            assert((0x10000000000000000 as int) * (0x10000000000000000 as int) > u128::MAX as int);
        }
        while hi - lo > 1
            invariant
                0 <= lo < hi <= 0x10000000000000000,
                (lo as int) * (lo as int) <= s as int,
                (hi as int) * (hi as int) > s as int,
            decreases hi - lo,
        {
            let mid = lo + (hi - lo) / 2;
            proof {
                assert((mid as int) * (mid as int) <= (0xffffffffffffffff as int) * (
                0xffffffffffffffff as int)) by (nonlinear_arith)
                    requires
                        0 <= mid <= 0xffffffffffffffff,
                ;
            }
            if mid * mid <= s {
                lo = mid;
            } else {
                hi = mid;
            }
        }
        proof {
            assert(hi == lo + 1);
            assert((lo as int) < 0x10000000000000000);
        }
        Number::Dec(lo as i128)
    }

    /// Rounds to `p` decimal places, halves away from zero; more than six
    /// places leaves the number unchanged.
    pub fn fixed(self, p: u32) -> (r: Number)
        ensures
            p >= 6 ==> r == self,
            p < 6 ==> ({
                let scale = spec_pow10((6 - p) as u32);
                micros(r) == (if micros(self) >= 0 {
                    clamp128(((micros(self) + scale / 2) / scale) * scale)
                } else {
                    clamp128(-((((-micros(self)) + scale / 2) / scale) * scale))
                })
            }),
    {
        if p >= 6 {
            return self;
        }
        let scale: u128 = pow10(6 - p);
        let m = self.micros_i128();
        if m >= 0 {
            let q = ((m as u128) + scale / 2) / scale;
            let v = match q.checked_mul(scale) {
                Some(v) => v,
                None => u128::MAX,
            };
            proof {
                lemma_fixed_pos(m as int, scale as int);
            }
            Number::Dec(clamp_u128_to_i128(v))
        } else {
            let mag: u128 = if m == i128::MIN {
                170141183460469231731687303715884105728u128
            } else {
                (-m) as u128
            };
            let q = (mag + scale / 2) / scale;
            let v = match q.checked_mul(scale) {
                Some(v) => v,
                None => u128::MAX,
            };
            proof {
                lemma_fixed_pos(mag as int, scale as int);
            }
            Number::Dec(clamp_u128_to_neg_i128(v))
        }
    }
}

/// Ten to the power of `e`, for the six decimal places of the
/// representation.
pub open spec fn spec_pow10(e: u32) -> int {
    if e == 0 {
        1
    } else if e == 1 {
        10
    } else if e == 2 {
        100
    } else if e == 3 {
        1000
    } else if e == 4 {
        10000
    } else if e == 5 {
        100000
    } else {
        1000000
    }
}

/// Ten to the power of `e`, capped at one million.
fn pow10(e: u32) -> (r: u128)
    ensures
        r == spec_pow10(e),
        1 <= r <= 1000000,
{
    if e == 0 {
        1
    } else if e == 1 {
        10
    } else if e == 2 {
        100
    } else if e == 3 {
        1000
    } else if e == 4 {
        10000
    } else if e == 5 {
        100000
    } else {
        1000000
    }
}

/// The rounded-to-multiple value of a non-negative number stays within one
/// scale step of the input, so the clamped result is exact in range.
proof fn lemma_fixed_pos(m: int, scale: int)
    requires
        m >= 0,
        1 <= scale <= 1000000,
    ensures
        ((m + scale / 2) / scale) * scale <= m + scale,
        ((m + scale / 2) / scale) * scale >= 0,
{
    let q = (m + scale / 2) / scale;
    assert(q * scale <= m + scale / 2) by (nonlinear_arith)
        requires
            scale >= 1,
            m + scale / 2 >= 0,
            q == (m + scale / 2) / scale,
    ;
    assert(q >= 0) by (nonlinear_arith)
        requires
            scale >= 1,
            m + scale / 2 >= 0,
            q == (m + scale / 2) / scale,
    ;
    assert(q * scale >= 0) by (nonlinear_arith)
        requires
            q >= 0,
            scale >= 1,
    ;
}

/// Clamps an i128 into the i64 range.
fn clamp_to_i64(v: i128) -> (r: i64)
    ensures
        r == clamp64(v as int) as i64,
{
    if v > i64::MAX as i128 {
        i64::MAX
    } else if v < i64::MIN as i128 {
        i64::MIN
    } else {
        v as i64
    }
}

/// Clamps a u128 into the i64 range.
fn clamp_u128_to_i64(v: u128) -> (r: i64)
    ensures
        r == clamp64(v as int) as i64,
{
    if v > i64::MAX as u128 {
        i64::MAX
    } else {
        v as i64
    }
}

/// Clamps the negation of a u128 into the i64 range.
fn clamp_u128_to_neg_i64(v: u128) -> (r: i64)
    ensures
        r == clamp64(-(v as int)) as i64,
{
    if v > 9223372036854775808u128 {
        i64::MIN
    } else if v == 9223372036854775808u128 {
        i64::MIN
    } else {
        -(v as i64)
    }
}

/// Clamps a u128 into the i128 range.
fn clamp_u128_to_i128(v: u128) -> (r: i128)
    ensures
        r == clamp128(v as int) as i128,
{
    if v > i128::MAX as u128 {
        i128::MAX
    } else {
        v as i128
    }
}

/// Clamps the negation of a u128 into the i128 range.
fn clamp_u128_to_neg_i128(v: u128) -> (r: i128)
    ensures
        r == clamp128(-(v as int)) as i128,
{
    if v > 170141183460469231731687303715884105728u128 {
        i128::MIN
    } else if v == 170141183460469231731687303715884105728u128 {
        i128::MIN
    } else {
        -(v as i128)
    }
}

/// The text of a fraction of `w` remaining decimal places, trailing zeros
/// trimmed.
pub open spec fn spec_frac(f: nat, w: nat) -> Seq<char>
    decreases w,
{
    if w <= 1 {
        seq![crate::text::digit_char((f % 10) as int)]
    } else if f % 10 == 0 {
        spec_frac(f / 10, (w - 1) as nat)
    } else {
        spec_padded(f, w)
    }
}

/// The decimal digits of `f` left-padded with zeros to width `w`.
pub open spec fn spec_padded(f: nat, w: nat) -> Seq<char>
    decreases w,
{
    if w <= 1 {
        seq![crate::text::digit_char((f % 10) as int)]
    } else {
        spec_padded(f / 10, (w - 1) as nat).push(crate::text::digit_char((f % 10) as int))
    }
}

/// The text of a decimal count of millionths: sign, whole part, and a
/// fractional part with trailing zeros trimmed, omitted when zero.
pub open spec fn spec_dec_text(m: int) -> Seq<char> {
    let mag = abs_int(m) as nat;
    let whole = crate::text::spec_udigits(mag / 1000000);
    let sign: Seq<char> = if m < 0 {
        seq!['-']
    } else {
        Seq::empty()
    };
    if mag % 1000000 == 0 {
        sign + whole
    } else {
        sign + whole + seq!['.'] + spec_frac(mag % 1000000, 6)
    }
}

/// The decimal text of a number.
pub open spec fn spec_num_text(n: Number) -> Seq<char> {
    match n {
        Number::Int(i) => crate::text::spec_int_text(i as int),
        Number::Dec(m) => spec_dec_text(m as int),
    }
}

/// Renders a fraction of `w` remaining places, trimming trailing zeros.
fn frac_text(f: u64, w: u32) -> (r: String)
    requires
        w >= 1,
    ensures
        r@ == spec_frac(f as nat, w as nat),
    decreases w,
{
    if w <= 1 {
        String::from_str(crate::text::digit_str((f % 10) as u8))
    } else if f % 10 == 0 {
        frac_text(f / 10, w - 1)
    } else {
        padded_text(f, w)
    }
}

/// Renders `f` left-padded with zeros to width `w`.
fn padded_text(f: u64, w: u32) -> (r: String)
    requires
        w >= 1,
    ensures
        r@ == spec_padded(f as nat, w as nat),
    decreases w,
{
    if w <= 1 {
        String::from_str(crate::text::digit_str((f % 10) as u8))
    } else {
        let mut s = padded_text(f / 10, w - 1);
        s.append(crate::text::digit_str((f % 10) as u8));
        s
    }
}

impl Number {
    /// The decimal text of this number.
    pub fn text(&self) -> (r: String)
        ensures
            r@ == spec_num_text(*self),
    {
        match self {
            Number::Int(i) => crate::text::i64_text(*i),
            Number::Dec(m) => {
                let neg = *m < 0;
                let mag: u128 = if *m == i128::MIN {
                    170141183460469231731687303715884105728u128
                } else if *m < 0 {
                    (-*m) as u128
                } else {
                    *m as u128
                };
                let whole = crate::text::u128_text(mag / 1000000);
                let f = (mag % 1000000) as u64;
                let mut s = if neg {
                    proof {
                        reveal_strlit("-");
                    }
                    let mut t = String::from_str("-");
                    t.append(whole.as_str());
                    t
                } else {
                    whole
                };
                if f != 0 {
                    proof {
                        reveal_strlit(".");
                    }
                    s.append(".");
                    s.append(frac_text(f, 6).as_str());
                }
                s
            },
        }
    }
}

/// The sign of a product follows the signs of its factors.
proof fn lemma_mul_sign(a: int, b: int)
    ensures
        a > 0 && b > 0 ==> a * b > 0,
        a < 0 && b < 0 ==> a * b > 0,
        a > 0 && b < 0 ==> a * b < 0,
        a < 0 && b > 0 ==> a * b < 0,
        a == 0 || b == 0 ==> a * b == 0,
{
    if a > 0 && b > 0 {
        assert(a * b > 0) by (nonlinear_arith)
            requires
                a > 0 && b > 0,
        ;
    }
    if a < 0 && b < 0 {
        assert(a * b > 0) by (nonlinear_arith)
            requires
                a < 0 && b < 0,
        ;
    }
    if a > 0 && b < 0 {
        assert(a * b < 0) by (nonlinear_arith)
            requires
                a > 0 && b < 0,
        ;
    }
    if a < 0 && b > 0 {
        assert(a * b < 0) by (nonlinear_arith)
            requires
                a < 0 && b > 0,
        ;
    }
    if a == 0 || b == 0 {
        assert(a * b == 0) by (nonlinear_arith)
            requires
                a == 0 || b == 0,
        ;
    }
}

/// Division of i128 values truncating toward zero; zero for a zero
/// divisor, and saturation at the one overflowing point.
pub fn div_trunc_i128(a: i128, b: i128) -> (r: i128)
    ensures
        r == clamp128(div_trunc(a as int, b as int)),
{
    if b == 0 {
        return 0;
    }
    match a.checked_div(b) {
        Some(v) => v,
        None => i128::MAX,
    }
}

} // verus!
