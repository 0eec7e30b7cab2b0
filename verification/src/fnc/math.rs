//! Numeric functions over values.  Aggregates read their argument as an
//! array of numbers; a non-array argument yields the absent value, as the
//! surrounding statement layer expects.

use vstd::prelude::*;
use crate::ctx::Context;
use crate::err::Error;
use crate::sql::convert::spec_as_number;
use crate::sql::number::{
    clamp64, clamp128, div_trunc, micros, spec_num_add, spec_num_div, spec_num_mul,
    spec_num_sub, Number,
};
use crate::sql::value::Value;

verus! {

broadcast use vstd::std_specs::vec::group_vec_axioms, vstd::seq::group_seq_axioms;

/// The numeric readings of an array's elements.
pub open spec fn spec_nums(s: Seq<Value>) -> Seq<Number> {
    s.map_values(|v: Value| spec_as_number(v))
}

/// Reads every element of an array as a number.
fn as_numbers(a: &crate::sql::value::Array) -> (r: Vec<Number>)
    ensures
        r@ == spec_nums(a.0@),
{
    let mut out: Vec<Number> = Vec::new();
    let n = a.0.len();
    let mut i: usize = 0;
    while i < n
        invariant
            0 <= i <= n == a.0@.len(),
            out@.len() == i,
            forall|j: int| 0 <= j < i ==> #[trigger] out@[j] == spec_as_number(a.0@[j]),
        decreases n - i,
    {
        out.push(a.0[i].as_number());
        i = i + 1;
    }
    proof {
        assert(out@ =~= spec_nums(a.0@));
    }
    out
}

/// The saturating sum of a list of numbers, taken left to right from zero.
pub open spec fn spec_sum(s: Seq<Number>) -> Number
    decreases s.len(),
{
    if s.len() == 0 {
        Number::Int(0)
    } else {
        spec_num_add(spec_sum(s.drop_last()), s.last())
    }
}

/// The saturating product of a list of numbers, taken left to right from
/// one.
pub open spec fn spec_product(s: Seq<Number>) -> Number
    decreases s.len(),
{
    if s.len() == 0 {
        Number::Int(1)
    } else {
        spec_num_mul(spec_product(s.drop_last()), s.last())
    }
}

/// Sums an array of numbers.
fn sum_nums(nums: &Vec<Number>) -> (r: Number)
    ensures
        r == spec_sum(nums@),
{
    let mut acc = Number::Int(0);
    let n = nums.len();
    let mut i: usize = 0;
    proof {
        assert(nums@.subrange(0, 0) =~= Seq::<Number>::empty());
    }
    while i < n
        invariant
            0 <= i <= n == nums@.len(),
            acc == spec_sum(nums@.subrange(0, i as int)),
        decreases n - i,
    {
        proof {
            assert(nums@.subrange(0, i + 1).drop_last() =~= nums@.subrange(0, i as int));
            assert(nums@.subrange(0, i + 1).last() == nums@[i as int]);
        }
        acc = acc.add(nums[i]);
        i = i + 1;
    }
    proof {
        assert(nums@.subrange(0, n as int) =~= nums@);
    }
    acc
}

/// The absolute value of the argument's numeric reading.
pub fn abs(_ctx: &Context, mut args: Vec<Value>) -> (r: Result<Value, Error>)
    requires
        args@.len() >= 1,
    ensures
        r is Ok,
        r->Ok_0 is Number,
        ({
            let n = spec_as_number(args@[0]);
            match n {
                Number::Int(a) => micros(r->Ok_0->Number_0) == clamp64(
                    crate::sql::number::abs_int(a as int),
                ) * 1000000,
                Number::Dec(m) => micros(r->Ok_0->Number_0) == clamp128(
                    crate::sql::number::abs_int(m as int),
                ),
            }
        }),
{
    let v = args.remove(0);
    Ok(Value::Number(v.as_number().abs()))
}

/// The smallest integer at least the argument's numeric reading.
pub fn ceil(_ctx: &Context, mut args: Vec<Value>) -> (r: Result<Value, Error>)
    requires
        args@.len() >= 1,
    ensures
        r is Ok,
        ({
            let m = micros(spec_as_number(args@[0]));
            r->Ok_0 == Value::Number(
                Number::Int(
                    clamp64(
                        if m % 1000000 == 0 {
                            m / 1000000
                        } else {
                            m / 1000000 + 1
                        },
                    ) as i64,
                ),
            )
        }),
{
    let v = args.remove(0);
    Ok(Value::Number(v.as_number().ceil()))
}

/// The argument's numeric reading rounded to `p` decimal places.
pub fn fixed(_ctx: &Context, mut args: Vec<Value>) -> (r: Result<Value, Error>)
    requires
        args@.len() >= 2,
    ensures
        ({
            let q = clamp64(div_trunc(micros(spec_as_number(args@[1])), 1000000));
            match r {
                Ok(v) => v is Number && q > 0,
                Err(e) => e == Error::Invalid && q <= 0,
            }
        }),
{
    let v = args.remove(0);
    let p = args.remove(0);
    let places = p.as_int();
    if places <= 0 {
        return Err(Error::Invalid);
    }
    let pp: u32 = if places > 6 {
        6
    } else {
        places as u32
    };
    Ok(Value::Number(v.as_number().fixed(pp)))
}

/// The largest integer at most the argument's numeric reading.
pub fn floor(_ctx: &Context, mut args: Vec<Value>) -> (r: Result<Value, Error>)
    requires
        args@.len() >= 1,
    ensures
        r is Ok,
        r->Ok_0 == Value::Number(
            Number::Int(clamp64(micros(spec_as_number(args@[0])) / 1000000) as i64),
        ),
{
    let v = args.remove(0);
    Ok(Value::Number(v.as_number().floor()))
}

/// The largest number of an array; a non-array argument comes back as it
/// is.
pub fn max(_ctx: &Context, mut args: Vec<Value>) -> (r: Result<Value, Error>)
    requires
        args@.len() >= 1,
    ensures
        r is Ok,
        args@[0] is Array ==> ({
            let nums = spec_nums(args@[0]->Array_0.0@);
            if nums.len() == 0 {
                r->Ok_0 is Nothing
            } else {
                r->Ok_0 is Number && (exists|i: int|
                    0 <= i < nums.len() && r->Ok_0->Number_0 == #[trigger] nums[i]) && (forall|
                    i: int,
                |
                    0 <= i < nums.len() ==> micros(#[trigger] nums[i]) <= micros(
                        r->Ok_0->Number_0,
                    ))
            }
        }),
        !(args@[0] is Array) ==> r->Ok_0 == args@[0],
{
    let v = args.remove(0);
    match v {
        Value::Array(a) => {
            let nums = as_numbers(&a);
            if nums.len() == 0 {
                return Ok(Value::Nothing);
            }
            let mut best = nums[0];
            let n = nums.len();
            let mut i: usize = 1;
            while i < n
                invariant
                    1 <= i <= n == nums@.len(),
                    exists|j: int| 0 <= j < i && best == #[trigger] nums@[j],
                    forall|j: int| 0 <= j < i ==> micros(#[trigger] nums@[j]) <= micros(best),
                decreases n - i,
            {
                if best.lt(&nums[i]) {
                    best = nums[i];
                }
                i = i + 1;
            }
            Ok(Value::Number(best))
        },
        other => Ok(other),
    }
}

/// The smallest number of an array; a non-array argument comes back as it
/// is.
pub fn min(_ctx: &Context, mut args: Vec<Value>) -> (r: Result<Value, Error>)
    requires
        args@.len() >= 1,
    ensures
        r is Ok,
        args@[0] is Array ==> ({
            let nums = spec_nums(args@[0]->Array_0.0@);
            if nums.len() == 0 {
                r->Ok_0 is Nothing
            } else {
                r->Ok_0 is Number && (exists|i: int|
                    0 <= i < nums.len() && r->Ok_0->Number_0 == #[trigger] nums[i]) && (forall|
                    i: int,
                |
                    0 <= i < nums.len() ==> micros(#[trigger] nums[i]) >= micros(
                        r->Ok_0->Number_0,
                    ))
            }
        }),
        !(args@[0] is Array) ==> r->Ok_0 == args@[0],
{
    let v = args.remove(0);
    match v {
        Value::Array(a) => {
            let nums = as_numbers(&a);
            if nums.len() == 0 {
                return Ok(Value::Nothing);
            }
            let mut best = nums[0];
            let n = nums.len();
            let mut i: usize = 1;
            while i < n
                invariant
                    1 <= i <= n == nums@.len(),
                    exists|j: int| 0 <= j < i && best == #[trigger] nums@[j],
                    forall|j: int| 0 <= j < i ==> micros(#[trigger] nums@[j]) >= micros(best),
                decreases n - i,
            {
                if nums[i].lt(&best) {
                    best = nums[i];
                }
                i = i + 1;
            }
            Ok(Value::Number(best))
        },
        other => Ok(other),
    }
}

/// The sum of an array of numbers; a non-array argument yields the absent
/// value.
pub fn sum(_ctx: &Context, mut args: Vec<Value>) -> (r: Result<Value, Error>)
    requires
        args@.len() >= 1,
    ensures
        r is Ok,
        args@[0] is Array ==> r->Ok_0 == Value::Number(
            spec_sum(spec_nums(args@[0]->Array_0.0@)),
        ),
        !(args@[0] is Array) ==> r->Ok_0 is Nothing,
{
    let v = args.remove(0);
    match v {
        Value::Array(a) => {
            let nums = as_numbers(&a);
            Ok(Value::Number(sum_nums(&nums)))
        },
        _ => Ok(Value::Nothing),
    }
}

/// The product of an array of numbers; a non-array argument yields the
/// absent value.
pub fn product(_ctx: &Context, mut args: Vec<Value>) -> (r: Result<Value, Error>)
    requires
        args@.len() >= 1,
    ensures
        r is Ok,
        args@[0] is Array ==> r->Ok_0 == Value::Number(
            spec_product(spec_nums(args@[0]->Array_0.0@)),
        ),
        !(args@[0] is Array) ==> r->Ok_0 is Nothing,
{
    let v = args.remove(0);
    match v {
        Value::Array(a) => {
            let nums = as_numbers(&a);
            let mut acc = Number::Int(1);
            let n = nums.len();
            let mut i: usize = 0;
            proof {
                assert(nums@.subrange(0, 0) =~= Seq::<Number>::empty());
            }
            while i < n
                invariant
                    0 <= i <= n == nums@.len(),
                    acc == spec_product(nums@.subrange(0, i as int)),
                decreases n - i,
            {
                proof {
                    assert(nums@.subrange(0, i + 1).drop_last() =~= nums@.subrange(
                        0,
                        i as int,
                    ));
                    assert(nums@.subrange(0, i + 1).last() == nums@[i as int]);
                }
                acc = acc.mul(nums[i]);
                i = i + 1;
            }
            proof {
                assert(nums@.subrange(0, n as int) =~= nums@);
            }
            Ok(Value::Number(acc))
        },
        _ => Ok(Value::Nothing),
    }
}

/// The mean of an array of numbers: the sum divided by the count; an
/// empty array or a non-array argument yields the absent value.
pub fn mean(_ctx: &Context, mut args: Vec<Value>) -> (r: Result<Value, Error>)
    requires
        args@.len() >= 1,
    ensures
        r is Ok,
        args@[0] is Array && args@[0]->Array_0.0@.len() > 0 ==> ({
            let nums = spec_nums(args@[0]->Array_0.0@);
            r->Ok_0 == Value::Number(
                spec_num_div(spec_sum(nums), Number::Int(clamp64(nums.len() as int) as i64)),
            )
        }),
        args@[0] is Array && args@[0]->Array_0.0@.len() == 0 ==> r->Ok_0 is Nothing,
        !(args@[0] is Array) ==> r->Ok_0 is Nothing,
{
    let v = args.remove(0);
    match v {
        Value::Array(a) => {
            let nums = as_numbers(&a);
            if nums.len() == 0 {
                return Ok(Value::Nothing);
            }
            let total = sum_nums(&nums);
            let c: i64 = if (nums.len() as u64) > (i64::MAX as u64) {
                i64::MAX
            } else {
                nums.len() as i64
            };
            let count = Number::Int(c);
            Ok(Value::Number(total.div(count)))
        },
        _ => Ok(Value::Nothing),
    }
}

/// The spread of an array of numbers: the largest minus the smallest; an
/// empty array or a non-array argument yields the absent value.
pub fn spread(_ctx: &Context, mut args: Vec<Value>) -> (r: Result<Value, Error>)
    requires
        args@.len() >= 1,
    ensures
        r is Ok,
        args@[0] is Array && args@[0]->Array_0.0@.len() > 0 ==> ({
            let nums = spec_nums(args@[0]->Array_0.0@);
            r->Ok_0 is Number && exists|i: int, j: int|
                0 <= i < nums.len() && 0 <= j < nums.len() && r->Ok_0->Number_0 == spec_num_sub(
                    #[trigger] nums[i],
                    #[trigger] nums[j],
                ) && (forall|k: int|
                    0 <= k < nums.len() ==> micros(nums[j]) <= micros(#[trigger] nums[k])
                        <= micros(nums[i]))
        }),
        !(args@[0] is Array && args@[0]->Array_0.0@.len() > 0) ==> r->Ok_0 is Nothing,
{
    let v = args.remove(0);
    match v {
        Value::Array(a) => {
            let nums = as_numbers(&a);
            if nums.len() == 0 {
                return Ok(Value::Nothing);
            }
            let mut hi = nums[0];
            let mut lo = nums[0];
            let ghost mut hij: int = 0;
            let ghost mut loj: int = 0;
            let n = nums.len();
            let mut i: usize = 1;
            while i < n
                invariant
                    1 <= i <= n == nums@.len(),
                    0 <= hij < i && hi == nums@[hij],
                    0 <= loj < i && lo == nums@[loj],
                    forall|j: int|
                        0 <= j < i ==> micros(nums@[loj]) <= micros(#[trigger] nums@[j])
                            <= micros(nums@[hij]),
                decreases n - i,
            {
                if hi.lt(&nums[i]) {
                    hi = nums[i];
                    proof {
                        hij = i as int;
                    }
                }
                if nums[i].lt(&lo) {
                    lo = nums[i];
                    proof {
                        loj = i as int;
                    }
                }
                i = i + 1;
            }
            let out = hi.sub(lo);
            proof {
                assert(out == spec_num_sub(nums@[hij], nums@[loj]));
            }
            Ok(Value::Number(out))
        },
        _ => Ok(Value::Nothing),
    }
}

/// The nearest integer to the argument's numeric reading, halves rounding
/// away from zero.
pub fn round(_ctx: &Context, mut args: Vec<Value>) -> (r: Result<Value, Error>)
    requires
        args@.len() >= 1,
    ensures
        r is Ok,
        ({
            let m = micros(spec_as_number(args@[0]));
            r->Ok_0 == Value::Number(
                Number::Int(
                    clamp64(
                        if m >= 0 {
                            (m + 500000) / 1000000
                        } else {
                            -(((-m) + 500000) / 1000000)
                        },
                    ) as i64,
                ),
            )
        }),
{
    let v = args.remove(0);
    Ok(Value::Number(v.as_number().round()))
}

/// The square root of the argument's numeric reading, at millionth
/// resolution; a negative reading yields zero.
pub fn sqrt(_ctx: &Context, mut args: Vec<Value>) -> (r: Result<Value, Error>)
    requires
        args@.len() >= 1,
    ensures
        r is Ok,
        r->Ok_0 is Number,
        ({
            let m = micros(spec_as_number(args@[0]));
            &&& (m < 0 ==> r->Ok_0->Number_0 == Number::Int(0i64))
            &&& (m >= 0 ==> ({
                let s = if m * 1000000 > u128::MAX {
                    u128::MAX as int
                } else {
                    m * 1000000
                };
                let q = micros(r->Ok_0->Number_0);
                q >= 0 && q * q <= s && (q + 1) * (q + 1) > s
            }))
        }),
{
    let v = args.remove(0);
    Ok(Value::Number(v.as_number().sqrt()))
}

} // verus!
