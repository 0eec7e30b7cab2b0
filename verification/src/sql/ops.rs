//! Operations on values: arithmetic, ordering, and containment.
//!
//! Arithmetic is defined on numbers and yields the absent value on any
//! other operand; ordering is defined on numbers (by value) and strings
//! (by character order) and is otherwise false.

use vstd::prelude::*;
use crate::sql::number::{clamp64, clamp128, div_trunc, micros, Number};
use crate::sql::value::{val_eq, Value};

verus! {

broadcast use vstd::std_specs::vec::group_vec_axioms, vstd::seq::group_seq_axioms;

/// Strict lexicographic order on character strings.
pub open spec fn lex_lt_chars(a: Seq<char>, b: Seq<char>) -> bool
    decreases a.len() + b.len(),
{
    if b.len() == 0 {
        false
    } else if a.len() == 0 {
        true
    } else if a.first() < b.first() {
        true
    } else if a.first() > b.first() {
        false
    } else {
        lex_lt_chars(a.drop_first(), b.drop_first())
    }
}

/// Whether the needle occurs as a contiguous run inside the haystack.
pub open spec fn contains_sub(h: Seq<char>, n: Seq<char>) -> bool {
    exists|i: int| 0 <= i <= h.len() - n.len() && #[trigger] h.subrange(i, i + n.len()) == n
}

/// Whether `a < b`: numbers by value, strings by character order, and
/// false for any other pair.
pub open spec fn spec_val_lt(a: Value, b: Value) -> bool {
    match a {
        Value::Number(x) => match b {
            Value::Number(y) => micros(x) < micros(y),
            _ => false,
        },
        Value::Strand(x) => match b {
            Value::Strand(y) => lex_lt_chars(x@, y@),
            _ => false,
        },
        _ => false,
    }
}

/// Whether the pair is ordered at all: both numbers or both strings.
pub open spec fn spec_val_comparable(a: Value, b: Value) -> bool {
    match a {
        Value::Number(_) => b is Number,
        Value::Strand(_) => b is Strand,
        _ => false,
    }
}

/// Whether `a` contains `b`: an array by holding an equal element, a
/// string by holding the other as a contiguous run.
pub open spec fn spec_contains(a: Value, b: Value) -> bool {
    match a {
        Value::Array(x) => exists|i: int| 0 <= i < x.0.len() && val_eq(#[trigger] x.0[i], b),
        Value::Strand(x) => match b {
            Value::Strand(y) => contains_sub(x@, y@),
            _ => false,
        },
        _ => false,
    }
}

/// Compares two strings by character order.
pub fn str_lt(a: &str, b: &str) -> (r: bool)
    ensures
        r == lex_lt_chars(a@, b@),
{
    let an = a.unicode_len();
    let bn = b.unicode_len();
    let mut i: usize = 0;
    proof {
        assert(a@.skip(0) =~= a@);
        assert(b@.skip(0) =~= b@);
    }
    while i < an && i < bn
        invariant
            0 <= i,
            i <= an == a@.len(),
            i <= bn == b@.len(),
            lex_lt_chars(a@, b@) == lex_lt_chars(a@.skip(i as int), b@.skip(i as int)),
        decreases an - i,
    {
        let ca = a.get_char(i);
        let cb = b.get_char(i);
        proof {
            assert(a@.skip(i as int).first() == a@[i as int]);
            assert(b@.skip(i as int).first() == b@[i as int]);
            assert(a@.skip(i as int).drop_first() =~= a@.skip(i + 1));
            assert(b@.skip(i as int).drop_first() =~= b@.skip(i + 1));
        }
        if ca < cb {
            return true;
        }
        if cb < ca {
            return false;
        }
        i = i + 1;
    }
    proof {
        if i == an {
            assert(a@.skip(i as int).len() == 0);
        } else {
            assert(b@.skip(i as int).len() == 0);
        }
    }
    an < bn
}

/// Whether one window of the haystack matches the needle.
pub fn window_matches(h: &str, n: &str, i: usize) -> (r: bool)
    requires
        i + n@.len() <= h@.len(),
    ensures
        r == (h@.subrange(i as int, i + n@.len()) == n@),
{
    let hn = h.unicode_len();
    let nn = n.unicode_len();
    let mut j: usize = 0;
    while j < nn
        invariant
            0 <= j <= nn,
            nn == n@.len(),
            hn == h@.len(),
            i + nn <= hn,
            h@.subrange(i as int, i + j as int) =~= n@.subrange(0, j as int),
        decreases nn - j,
    {
        let hc = h.get_char(i + j);
        let nc = n.get_char(j);
        if !(hc == nc) {
            proof {
                let full = h@.subrange(i as int, i + n@.len());
                if full == n@ {
                    assert(full[j as int] == h@[i + j]);
                    assert(n@[j as int] == nc);
                    assert(false);
                }
            }
            return false;
        }
        proof {
            assert(h@.subrange(i as int, i + j + 1) =~= h@.subrange(i as int, i + j as int)
                + seq![h@[i + j]]);
            assert(n@.subrange(0, j + 1) =~= n@.subrange(0, j as int) + seq![n@[j as int]]);
        }
        j = j + 1;
    }
    proof {
        assert(n@.subrange(0, n@.len() as int) =~= n@);
        assert(h@.subrange(i as int, i + n@.len()) =~= n@);
    }
    true
}

/// Whether the needle occurs inside the haystack.
pub fn str_contains(h: &str, n: &str) -> (r: bool)
    ensures
        r == contains_sub(h@, n@),
{
    let hn = h.unicode_len();
    let nn = n.unicode_len();
    if nn > hn {
        proof {
            assert(!contains_sub(h@, n@));
        }
        return false;
    }
    if nn == 0 {
        proof {
            assert(h@.subrange(0, 0 + n@.len() as int) =~= n@);
            assert(contains_sub(h@, n@));
        }
        return true;
    }
    let mut i: usize = 0;
    while i <= hn - nn
        invariant
            0 <= i <= hn - nn + 1,
            1 <= nn <= hn == h@.len(),
            nn == n@.len(),
            forall|k: int| 0 <= k < i ==> #[trigger] h@.subrange(k, k + n@.len()) != n@,
        decreases hn - nn - i + 1,
    {
        if window_matches(h, n, i) {
            proof {
                assert(contains_sub(h@, n@));
            }
            return true;
        }
        i = i + 1;
    }
    proof {
        assert(!contains_sub(h@, n@)) by {
            if contains_sub(h@, n@) {
                let w = choose|w: int|
                    0 <= w <= h@.len() - n@.len() && #[trigger] h@.subrange(w, w + n@.len())
                        == n@;
                assert(w < i);
                assert(false);
            }
        }
    }
    false
}

impl Value {
    /// Whether `self < other`; see [`spec_val_lt`].
    pub fn lt_value(&self, other: &Value) -> (r: bool)
        ensures
            r == spec_val_lt(*self, *other),
    {
        match self {
            Value::Number(x) => match other {
                Value::Number(y) => x.lt(y),
                _ => false,
            },
            Value::Strand(x) => match other {
                Value::Strand(y) => str_lt(x.as_str(), y.as_str()),
                _ => false,
            },
            _ => false,
        }
    }

    /// Whether this value contains the other; see [`spec_contains`].
    #[verifier::loop_isolation(false)]
    pub fn contains_value(&self, other: &Value) -> (r: bool)
        ensures
            r == spec_contains(*self, *other),
    {
        match self {
            Value::Array(x) => {
                let n = x.0.len();
                let mut i: usize = 0;
                while i < n
                    invariant
                        0 <= i <= n,
                        n == x.0.len(),
                        forall|j: int| 0 <= j < i ==> !val_eq(#[trigger] x.0[j], *other),
                    decreases n - i,
                {
                    if x.0[i].same(other) {
                        proof {
                            assert(val_eq(x.0[i as int], *other));
                        }
                        return true;
                    }
                    i = i + 1;
                }
                false
            },
            Value::Strand(x) => match other {
                Value::Strand(y) => str_contains(x.as_str(), y.as_str()),
                _ => false,
            },
            _ => false,
        }
    }

    /// Adds two values: defined on numbers, absent otherwise.
    pub fn add_value(self, other: Value) -> (r: Value)
        ensures
            match self {
                Value::Number(x) => match other {
                    Value::Number(y) => r is Number && micros(r->Number_0) == ({
                        match (x, y) {
                            (Number::Int(a), Number::Int(b)) => clamp64(a + b) * 1000000,
                            _ => clamp128(micros(x) + micros(y)),
                        }
                    }),
                    _ => r is Nothing,
                },
                _ => r is Nothing,
            },
    {
        match self {
            Value::Number(x) => match other {
                Value::Number(y) => Value::Number(x.add(y)),
                _ => Value::Nothing,
            },
            _ => Value::Nothing,
        }
    }

    /// Subtracts two values: defined on numbers, absent otherwise.
    pub fn sub_value(self, other: Value) -> (r: Value)
        ensures
            match self {
                Value::Number(x) => match other {
                    Value::Number(y) => r is Number && micros(r->Number_0) == ({
                        match (x, y) {
                            (Number::Int(a), Number::Int(b)) => clamp64(a - b) * 1000000,
                            _ => clamp128(micros(x) - micros(y)),
                        }
                    }),
                    _ => r is Nothing,
                },
                _ => r is Nothing,
            },
    {
        match self {
            Value::Number(x) => match other {
                Value::Number(y) => Value::Number(x.sub(y)),
                _ => Value::Nothing,
            },
            _ => Value::Nothing,
        }
    }

    /// Multiplies two values: defined on numbers, absent otherwise.
    pub fn mul_value(self, other: Value) -> (r: Value)
        ensures
            match self {
                Value::Number(x) => match other {
                    Value::Number(y) => r is Number && micros(r->Number_0) == ({
                        match (x, y) {
                            (Number::Int(a), Number::Int(b)) => clamp64(a * b) * 1000000,
                            _ => clamp128(div_trunc(clamp128(micros(x) * micros(y)), 1000000)),
                        }
                    }),
                    _ => r is Nothing,
                },
                _ => r is Nothing,
            },
    {
        match self {
            Value::Number(x) => match other {
                Value::Number(y) => Value::Number(x.mul(y)),
                _ => Value::Nothing,
            },
            _ => Value::Nothing,
        }
    }

    /// Divides two values: defined on numbers with a non-zero divisor,
    /// absent otherwise.
    pub fn div_value(self, other: Value) -> (r: Value)
        ensures
            match self {
                Value::Number(x) => match other {
                    Value::Number(y) => {
                        if micros(y) == 0 {
                            r is Nothing
                        } else {
                            r is Number && micros(r->Number_0) == clamp128(
                                div_trunc(clamp128(micros(x) * 1000000), micros(y)),
                            )
                        }
                    },
                    _ => r is Nothing,
                },
                _ => r is Nothing,
            },
    {
        match self {
            Value::Number(x) => match other {
                Value::Number(y) => {
                    if y.micros_i128() == 0 {
                        Value::Nothing
                    } else {
                        Value::Number(x.div(y))
                    }
                },
                _ => Value::Nothing,
            },
            _ => Value::Nothing,
        }
    }
}

} // verus!
