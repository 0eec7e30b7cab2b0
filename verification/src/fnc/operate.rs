//! Binary operators over values.  Every function returns `Ok` on every
//! input; the `Result` shape mirrors the operator interface of the
//! surrounding statement layer.

use vstd::prelude::*;
use crate::err::Error;
use crate::sql::number::{clamp64, clamp128, div_trunc, micros, Number};
use crate::sql::ops::{spec_contains, spec_val_lt};
use crate::sql::value::{spec_truthy, val_eq, val_exact, Value};

verus! {

broadcast use vstd::std_specs::vec::group_vec_axioms, vstd::seq::group_seq_axioms;

/// Whether every element of `a` (an array) deeply equals `b`; for any
/// other value, plain deep equality.
pub open spec fn spec_all_equal(a: Value, b: Value) -> bool {
    match a {
        Value::Array(x) => forall|i: int| 0 <= i < x.0.len() ==> val_eq(#[trigger] x.0[i], b),
        _ => val_eq(a, b),
    }
}

/// Whether some element of `a` (an array) deeply equals `b`; for any
/// other value, plain deep equality.
pub open spec fn spec_any_equal(a: Value, b: Value) -> bool {
    match a {
        Value::Array(x) => exists|i: int| 0 <= i < x.0.len() && val_eq(#[trigger] x.0[i], b),
        _ => val_eq(a, b),
    }
}

/// Whether every element of `b` (an array) is contained in `a`.
pub open spec fn spec_contains_all(a: Value, b: Value) -> bool {
    match b {
        Value::Array(y) => forall|i: int|
            0 <= i < y.0.len() ==> spec_contains(a, #[trigger] y.0[i]),
        _ => false,
    }
}

/// Whether some element of `b` (an array) is contained in `a`.
pub open spec fn spec_contains_any(a: Value, b: Value) -> bool {
    match b {
        Value::Array(y) => exists|i: int|
            0 <= i < y.0.len() && spec_contains(a, #[trigger] y.0[i]),
        _ => false,
    }
}

/// Whether `a` and `b` share an element: both are arrays and some element
/// of `a` is contained in `b`.
pub open spec fn spec_intersects(a: Value, b: Value) -> bool {
    match a {
        Value::Array(x) => exists|i: int|
            0 <= i < x.0.len() && spec_contains(b, #[trigger] x.0[i]),
        _ => false,
    }
}

/// The boolean value standing for a test result.
pub open spec fn bool_value(b: bool) -> Value {
    if b {
        Value::True
    } else {
        Value::False
    }
}

/// Checks whether every element of `a` deeply equals `b`.
#[verifier::loop_isolation(false)]
fn all_equal_exec(a: &Value, b: &Value) -> (r: bool)
    ensures
        r == spec_all_equal(*a, *b),
{
    match a {
        Value::Array(x) => {
            let n = x.0.len();
            let mut i: usize = 0;
            while i < n
                invariant
                    0 <= i <= n,
                    n == x.0.len(),
                    forall|j: int| 0 <= j < i ==> val_eq(#[trigger] x.0[j], *b),
                decreases n - i,
            {
                if !x.0[i].same(b) {
                    return false;
                }
                i = i + 1;
            }
            true
        },
        _ => a.same(b),
    }
}

/// Checks whether some element of `a` deeply equals `b`.
#[verifier::loop_isolation(false)]
fn any_equal_exec(a: &Value, b: &Value) -> (r: bool)
    ensures
        r == spec_any_equal(*a, *b),
{
    match a {
        Value::Array(x) => {
            let n = x.0.len();
            let mut i: usize = 0;
            while i < n
                invariant
                    0 <= i <= n,
                    n == x.0.len(),
                    forall|j: int| 0 <= j < i ==> !val_eq(#[trigger] x.0[j], *b),
                decreases n - i,
            {
                if x.0[i].same(b) {
                    proof {
                        assert(val_eq(x.0[i as int], *b));
                    }
                    return true;
                }
                i = i + 1;
            }
            false
        },
        _ => a.same(b),
    }
}

/// Checks whether every element of `b` is contained in `a`.
#[verifier::loop_isolation(false)]
fn contains_all_exec(a: &Value, b: &Value) -> (r: bool)
    ensures
        r == spec_contains_all(*a, *b),
{
    match b {
        Value::Array(y) => {
            let n = y.0.len();
            let mut i: usize = 0;
            while i < n
                invariant
                    0 <= i <= n,
                    n == y.0.len(),
                    forall|j: int| 0 <= j < i ==> spec_contains(*a, #[trigger] y.0[j]),
                decreases n - i,
            {
                if !a.contains_value(&y.0[i]) {
                    return false;
                }
                i = i + 1;
            }
            true
        },
        _ => false,
    }
}

/// Checks whether some element of `b` is contained in `a`.
#[verifier::loop_isolation(false)]
fn contains_any_exec(a: &Value, b: &Value) -> (r: bool)
    ensures
        r == spec_contains_any(*a, *b),
{
    match b {
        Value::Array(y) => {
            let n = y.0.len();
            let mut i: usize = 0;
            while i < n
                invariant
                    0 <= i <= n,
                    n == y.0.len(),
                    forall|j: int| 0 <= j < i ==> !spec_contains(*a, #[trigger] y.0[j]),
                decreases n - i,
            {
                if a.contains_value(&y.0[i]) {
                    proof {
                        assert(spec_contains(*a, y.0[i as int]));
                    }
                    return true;
                }
                i = i + 1;
            }
            false
        },
        _ => false,
    }
}

/// Checks whether the arrays share an element.
#[verifier::loop_isolation(false)]
fn intersects_exec(a: &Value, b: &Value) -> (r: bool)
    ensures
        r == spec_intersects(*a, *b),
{
    match a {
        Value::Array(x) => {
            let n = x.0.len();
            let mut i: usize = 0;
            while i < n
                invariant
                    0 <= i <= n,
                    n == x.0.len(),
                    forall|j: int| 0 <= j < i ==> !spec_contains(*b, #[trigger] x.0[j]),
                decreases n - i,
            {
                if b.contains_value(&x.0[i]) {
                    proof {
                        assert(spec_contains(*b, x.0[i as int]));
                    }
                    return true;
                }
                i = i + 1;
            }
            false
        },
        _ => false,
    }
}

/// Returns the first operand if it counts as true, else the second.
pub fn or(a: Value, b: Value) -> (r: Result<Value, Error>)
    ensures
        r is Ok,
        spec_truthy(a) ==> r->Ok_0 == a,
        !spec_truthy(a) ==> r->Ok_0 == b,
{
    match a.is_truthy() {
        true => Ok(a),
        false => Ok(b),
    }
}

/// Returns the second operand if the first counts as true, else the first.
pub fn and(a: Value, b: Value) -> (r: Result<Value, Error>)
    ensures
        r is Ok,
        spec_truthy(a) ==> r->Ok_0 == b,
        !spec_truthy(a) ==> r->Ok_0 == a,
{
    match a.is_truthy() {
        true => Ok(b),
        false => Ok(a),
    }
}

/// Adds two values; defined on numbers, absent otherwise.
pub fn add(a: Value, b: Value) -> (r: Result<Value, Error>)
    ensures
        r is Ok,
        match a {
            Value::Number(x) => match b {
                Value::Number(y) => r->Ok_0 is Number && micros(r->Ok_0->Number_0) == ({
                    match (x, y) {
                        (Number::Int(p), Number::Int(q)) => clamp64(p + q) * 1000000,
                        _ => clamp128(micros(x) + micros(y)),
                    }
                }),
                _ => r->Ok_0 is Nothing,
            },
            _ => r->Ok_0 is Nothing,
        },
{
    Ok(a.add_value(b))
}

/// Subtracts two values; defined on numbers, absent otherwise.
pub fn sub(a: Value, b: Value) -> (r: Result<Value, Error>)
    ensures
        r is Ok,
        match a {
            Value::Number(x) => match b {
                Value::Number(y) => r->Ok_0 is Number && micros(r->Ok_0->Number_0) == ({
                    match (x, y) {
                        (Number::Int(p), Number::Int(q)) => clamp64(p - q) * 1000000,
                        _ => clamp128(micros(x) - micros(y)),
                    }
                }),
                _ => r->Ok_0 is Nothing,
            },
            _ => r->Ok_0 is Nothing,
        },
{
    Ok(a.sub_value(b))
}

/// Multiplies two values; defined on numbers, absent otherwise.
pub fn mul(a: Value, b: Value) -> (r: Result<Value, Error>)
    ensures
        r is Ok,
        match a {
            Value::Number(x) => match b {
                Value::Number(y) => r->Ok_0 is Number && micros(r->Ok_0->Number_0) == ({
                    match (x, y) {
                        (Number::Int(p), Number::Int(q)) => clamp64(p * q) * 1000000,
                        _ => clamp128(div_trunc(clamp128(micros(x) * micros(y)), 1000000)),
                    }
                }),
                _ => r->Ok_0 is Nothing,
            },
            _ => r->Ok_0 is Nothing,
        },
{
    Ok(a.mul_value(b))
}

/// Divides two values; defined on numbers with a non-zero divisor, absent
/// otherwise.
pub fn div(a: Value, b: Value) -> (r: Result<Value, Error>)
    ensures
        r is Ok,
        match a {
            Value::Number(x) => match b {
                Value::Number(y) => {
                    if micros(y) == 0 {
                        r->Ok_0 is Nothing
                    } else {
                        r->Ok_0 is Number && micros(r->Ok_0->Number_0) == clamp128(
                            div_trunc(clamp128(micros(x) * 1000000), micros(y)),
                        )
                    }
                },
                _ => r->Ok_0 is Nothing,
            },
            _ => r->Ok_0 is Nothing,
        },
{
    Ok(a.div_value(b))
}

/// Exact structural equality.
pub fn exact(a: &Value, b: &Value) -> (r: Result<Value, Error>)
    ensures
        r is Ok && r->Ok_0 == bool_value(val_exact(*a, *b)),
{
    Ok(match a.same_exact(b) {
        true => Value::True,
        false => Value::False,
    })
}

/// Deep equality, numbers compared by value.
pub fn equal(a: &Value, b: &Value) -> (r: Result<Value, Error>)
    ensures
        r is Ok && r->Ok_0 == bool_value(val_eq(*a, *b)),
{
    match a.same(b) {
        true => Ok(Value::True),
        false => Ok(Value::False),
    }
}

/// Negated deep equality.
pub fn not_equal(a: &Value, b: &Value) -> (r: Result<Value, Error>)
    ensures
        r is Ok && r->Ok_0 == bool_value(!val_eq(*a, *b)),
{
    match a.same(b) {
        true => Ok(Value::False),
        false => Ok(Value::True),
    }
}

/// Whether every element of the first operand equals the second.
pub fn all_equal(a: &Value, b: &Value) -> (r: Result<Value, Error>)
    ensures
        r is Ok && r->Ok_0 == bool_value(spec_all_equal(*a, *b)),
{
    match all_equal_exec(a, b) {
        true => Ok(Value::True),
        false => Ok(Value::False),
    }
}

/// Whether some element of the first operand equals the second.
pub fn any_equal(a: &Value, b: &Value) -> (r: Result<Value, Error>)
    ensures
        r is Ok && r->Ok_0 == bool_value(spec_any_equal(*a, *b)),
{
    match any_equal_exec(a, b) {
        true => Ok(Value::True),
        false => Ok(Value::False),
    }
}

/// Loose string likeness: whether the first string holds the second as a
/// contiguous run.
pub fn like(a: &Value, b: &Value) -> (r: Result<Value, Error>)
    ensures
        r is Ok && r->Ok_0 == bool_value(spec_contains(*a, *b) && *a is Strand),
{
    match a {
        Value::Strand(_) => match a.contains_value(b) {
            true => Ok(Value::True),
            false => Ok(Value::False),
        },
        _ => Ok(Value::False),
    }
}

/// Negated string likeness.
pub fn not_like(a: &Value, b: &Value) -> (r: Result<Value, Error>)
    ensures
        r is Ok && r->Ok_0 == bool_value(!(spec_contains(*a, *b) && *a is Strand)),
{
    match like(a, b)? {
        Value::True => Ok(Value::False),
        _ => Ok(Value::True),
    }
}

/// Whether every element of the first operand is like the second.
#[verifier::loop_isolation(false)]
pub fn all_like(a: &Value, b: &Value) -> (r: Result<Value, Error>)
    ensures
        r is Ok && r->Ok_0 == bool_value(
            match *a {
                Value::Array(x) => forall|i: int|
                    0 <= i < x.0.len() ==> spec_contains(#[trigger] x.0[i], *b) && x.0[i]
                        is Strand,
                _ => false,
            },
        ),
{
    match a {
        Value::Array(x) => {
            let n = x.0.len();
            let mut i: usize = 0;
            while i < n
                invariant
                    0 <= i <= n,
                    n == x.0.len(),
                    forall|j: int|
                        0 <= j < i ==> spec_contains(#[trigger] x.0[j], *b) && x.0[j] is Strand,
                decreases n - i,
            {
                let hit = match &x.0[i] {
                    Value::Strand(_) => x.0[i].contains_value(b),
                    _ => false,
                };
                if !hit {
                    return Ok(Value::False);
                }
                i = i + 1;
            }
            Ok(Value::True)
        },
        _ => Ok(Value::False),
    }
}

/// Whether some element of the first operand is like the second.
#[verifier::loop_isolation(false)]
pub fn any_like(a: &Value, b: &Value) -> (r: Result<Value, Error>)
    ensures
        r is Ok && r->Ok_0 == bool_value(
            match *a {
                Value::Array(x) => exists|i: int|
                    0 <= i < x.0.len() && spec_contains(#[trigger] x.0[i], *b) && x.0[i]
                        is Strand,
                _ => false,
            },
        ),
{
    match a {
        Value::Array(x) => {
            let n = x.0.len();
            let mut i: usize = 0;
            while i < n
                invariant
                    0 <= i <= n,
                    n == x.0.len(),
                    forall|j: int|
                        0 <= j < i ==> !(spec_contains(#[trigger] x.0[j], *b) && x.0[j]
                            is Strand),
                decreases n - i,
            {
                let hit = match &x.0[i] {
                    Value::Strand(_) => x.0[i].contains_value(b),
                    _ => false,
                };
                if hit {
                    proof {
                        assert(spec_contains(x.0[i as int], *b) && x.0[i as int] is Strand);
                    }
                    return Ok(Value::True);
                }
                i = i + 1;
            }
            Ok(Value::False)
        },
        _ => Ok(Value::False),
    }
}

/// Whether the first value orders strictly below the second.
pub fn less_than(a: &Value, b: &Value) -> (r: Result<Value, Error>)
    ensures
        r is Ok && r->Ok_0 == bool_value(spec_val_lt(*a, *b)),
{
    match a.lt_value(b) {
        true => Ok(Value::True),
        false => Ok(Value::False),
    }
}

/// Whether the first value orders below or equal to the second.
pub fn less_than_or_equal(a: &Value, b: &Value) -> (r: Result<Value, Error>)
    ensures
        r is Ok && r->Ok_0 == bool_value(spec_val_lt(*a, *b) || val_eq(*a, *b)),
{
    if a.lt_value(b) || a.same(b) {
        Ok(Value::True)
    } else {
        Ok(Value::False)
    }
}

/// Whether the first value orders strictly above the second.
pub fn more_than(a: &Value, b: &Value) -> (r: Result<Value, Error>)
    ensures
        r is Ok && r->Ok_0 == bool_value(spec_val_lt(*b, *a)),
{
    match b.lt_value(a) {
        true => Ok(Value::True),
        false => Ok(Value::False),
    }
}

/// Whether the first value orders above or equal to the second.
pub fn more_than_or_equal(a: &Value, b: &Value) -> (r: Result<Value, Error>)
    ensures
        r is Ok && r->Ok_0 == bool_value(spec_val_lt(*b, *a) || val_eq(*a, *b)),
{
    if b.lt_value(a) || a.same(b) {
        Ok(Value::True)
    } else {
        Ok(Value::False)
    }
}

/// Whether the first value contains the second.
pub fn contain(a: &Value, b: &Value) -> (r: Result<Value, Error>)
    ensures
        r is Ok && r->Ok_0 == bool_value(spec_contains(*a, *b)),
{
    match a.contains_value(b) {
        true => Ok(Value::True),
        false => Ok(Value::False),
    }
}

/// Whether the first value does not contain the second.
pub fn not_contain(a: &Value, b: &Value) -> (r: Result<Value, Error>)
    ensures
        r is Ok && r->Ok_0 == bool_value(!spec_contains(*a, *b)),
{
    match a.contains_value(b) {
        true => Ok(Value::False),
        false => Ok(Value::True),
    }
}

/// Whether the first value contains every element of the second.
pub fn contain_all(a: &Value, b: &Value) -> (r: Result<Value, Error>)
    ensures
        r is Ok && r->Ok_0 == bool_value(spec_contains_all(*a, *b)),
{
    match contains_all_exec(a, b) {
        true => Ok(Value::True),
        false => Ok(Value::False),
    }
}

/// Whether the first value contains some element of the second.
pub fn contain_any(a: &Value, b: &Value) -> (r: Result<Value, Error>)
    ensures
        r is Ok && r->Ok_0 == bool_value(spec_contains_any(*a, *b)),
{
    match contains_any_exec(a, b) {
        true => Ok(Value::True),
        false => Ok(Value::False),
    }
}

/// Whether the first value contains no element of the second.
pub fn contain_none(a: &Value, b: &Value) -> (r: Result<Value, Error>)
    ensures
        r is Ok && r->Ok_0 == bool_value(!spec_contains_any(*a, *b)),
{
    match contains_any_exec(a, b) {
        true => Ok(Value::False),
        false => Ok(Value::True),
    }
}

/// Whether the first value lies inside the second.
pub fn inside(a: &Value, b: &Value) -> (r: Result<Value, Error>)
    ensures
        r is Ok && r->Ok_0 == bool_value(spec_contains(*b, *a)),
{
    match b.contains_value(a) {
        true => Ok(Value::True),
        false => Ok(Value::False),
    }
}

/// Whether the first value does not lie inside the second.
pub fn not_inside(a: &Value, b: &Value) -> (r: Result<Value, Error>)
    ensures
        r is Ok && r->Ok_0 == bool_value(!spec_contains(*b, *a)),
{
    match b.contains_value(a) {
        true => Ok(Value::False),
        false => Ok(Value::True),
    }
}

/// Whether the second value contains every element of the first.
pub fn inside_all(a: &Value, b: &Value) -> (r: Result<Value, Error>)
    ensures
        r is Ok && r->Ok_0 == bool_value(spec_contains_all(*b, *a)),
{
    match contains_all_exec(b, a) {
        true => Ok(Value::True),
        false => Ok(Value::False),
    }
}

/// Whether the second value contains some element of the first.
pub fn inside_any(a: &Value, b: &Value) -> (r: Result<Value, Error>)
    ensures
        r is Ok && r->Ok_0 == bool_value(spec_contains_any(*b, *a)),
{
    match contains_any_exec(b, a) {
        true => Ok(Value::True),
        false => Ok(Value::False),
    }
}

/// Whether the second value contains no element of the first.
pub fn inside_none(a: &Value, b: &Value) -> (r: Result<Value, Error>)
    ensures
        r is Ok && r->Ok_0 == bool_value(!spec_contains_any(*b, *a)),
{
    match contains_any_exec(b, a) {
        true => Ok(Value::False),
        false => Ok(Value::True),
    }
}

/// Whether the operands share no element.
pub fn outside(a: &Value, b: &Value) -> (r: Result<Value, Error>)
    ensures
        r is Ok && r->Ok_0 == bool_value(!spec_intersects(*a, *b)),
{
    match intersects_exec(a, b) {
        true => Ok(Value::False),
        false => Ok(Value::True),
    }
}

/// Whether the operands share an element.
pub fn intersects(a: &Value, b: &Value) -> (r: Result<Value, Error>)
    ensures
        r is Ok && r->Ok_0 == bool_value(spec_intersects(*a, *b)),
{
    match intersects_exec(a, b) {
        true => Ok(Value::True),
        false => Ok(Value::False),
    }
}

} // verus!
