//! Conversions of values into asked-for forms.

use vstd::prelude::*;
use crate::ctx::Context;
use crate::err::Error;
use crate::sql::convert::spec_as_number;
use crate::sql::number::{micros, Number};
use crate::sql::value::{spec_truthy, Thing, Value};
use crate::sql::fmt::spec_val_text;

verus! {

/// Converts the argument to a boolean value by its truthiness.
pub fn bool(_ctx: &Context, mut args: Vec<Value>) -> (r: Result<Value, Error>)
    requires
        args@.len() >= 1,
    ensures
        r is Ok && r->Ok_0 == (if spec_truthy(args@[0]) {
            Value::True
        } else {
            Value::False
        }),
{
    match args.remove(0).is_truthy() {
        true => Ok(Value::True),
        false => Ok(Value::False),
    }
}

/// Converts the argument to a point in time.
pub fn datetime(_ctx: &Context, mut args: Vec<Value>) -> (r: Result<Value, Error>)
    requires
        args@.len() >= 1,
    ensures
        r is Ok,
        args@[0] is Datetime ==> r->Ok_0 == args@[0],
        !(args@[0] is Datetime) ==> r->Ok_0 is Datetime,
{
    let val = args.remove(0);
    match val {
        Value::Datetime(_) => Ok(val),
        _ => Ok(Value::Datetime(val.as_datetime())),
    }
}

/// Converts the argument to its exact decimal form.
pub fn decimal(_ctx: &Context, mut args: Vec<Value>) -> (r: Result<Value, Error>)
    requires
        args@.len() >= 1,
    ensures
        r is Ok,
        r->Ok_0 is Number && r->Ok_0->Number_0 is Dec && micros(r->Ok_0->Number_0) == micros(
            spec_as_number(args@[0]),
        ),
{
    let val = args.remove(0);
    let n = val.as_number();
    Ok(Value::Number(Number::Dec(n.micros_i128())))
}

/// Converts the argument to a duration in whole seconds.
pub fn duration(_ctx: &Context, mut args: Vec<Value>) -> (r: Result<Value, Error>)
    requires
        args@.len() >= 1,
    ensures
        r is Ok,
        args@[0] is Duration ==> r->Ok_0 == args@[0],
        !(args@[0] is Duration) ==> r->Ok_0 is Duration,
{
    let val = args.remove(0);
    match val {
        Value::Duration(_) => Ok(val),
        _ => Ok(Value::Duration(val.as_duration())),
    }
}

/// Converts the argument to its decimal form; in this value model the
/// floating form is the exact decimal.
pub fn float(_ctx: &Context, mut args: Vec<Value>) -> (r: Result<Value, Error>)
    requires
        args@.len() >= 1,
    ensures
        r is Ok,
        r->Ok_0 is Number && r->Ok_0->Number_0 is Dec && micros(r->Ok_0->Number_0) == micros(
            spec_as_number(args@[0]),
        ),
{
    decimal(_ctx, args)
}

/// Converts the argument to a whole number, truncating toward zero.
pub fn to_int(_ctx: &Context, mut args: Vec<Value>) -> (r: Result<Value, Error>)
    requires
        args@.len() >= 1,
    ensures
        r is Ok,
        args@[0] is Number && args@[0]->Number_0 is Int ==> r->Ok_0 == args@[0],
        !(args@[0] is Number && args@[0]->Number_0 is Int) ==> r->Ok_0 is Number
            && r->Ok_0->Number_0 is Int,
{
    let val = args.remove(0);
    match &val {
        Value::Number(Number::Int(_)) => Ok(val),
        _ => Ok(Value::Number(Number::Int(val.as_int()))),
    }
}

/// Converts the argument to a number.
pub fn number(_ctx: &Context, mut args: Vec<Value>) -> (r: Result<Value, Error>)
    requires
        args@.len() >= 1,
    ensures
        r is Ok,
        args@[0] is Number ==> r->Ok_0 == args@[0],
        !(args@[0] is Number) ==> r->Ok_0 is Number && r->Ok_0->Number_0 == spec_as_number(
            args@[0],
        ),
{
    let val = args.remove(0);
    match &val {
        Value::Number(_) => Ok(val),
        _ => Ok(Value::Number(val.as_number())),
    }
}

/// Converts a string argument to a regular expression value; any other
/// argument yields the absent value.
pub fn regex(_ctx: &Context, mut args: Vec<Value>) -> (r: Result<Value, Error>)
    requires
        args@.len() >= 1,
    ensures
        r is Ok,
        args@[0] is Strand ==> r->Ok_0 is Regex && r->Ok_0->Regex_0@ == args@[0]->Strand_0@,
        !(args@[0] is Strand) ==> r->Ok_0 is Nothing,
{
    match args.remove(0) {
        Value::Strand(v) => Ok(Value::Regex(v)),
        _ => Ok(Value::Nothing),
    }
}

/// Converts the argument to a string value.
pub fn string(_ctx: &Context, mut args: Vec<Value>) -> (r: Result<Value, Error>)
    requires
        args@.len() >= 1,
    ensures
        r is Ok,
        args@[0] is Strand ==> r->Ok_0 == args@[0],
        !(args@[0] is Strand) ==> r->Ok_0 is Strand && r->Ok_0->Strand_0@ == spec_val_text(
            args@[0],
        ),
{
    let val = args.remove(0);
    match &val {
        Value::Strand(_) => Ok(val),
        _ => Ok(val.as_strand()),
    }
}

/// Converts the argument to a table name.
pub fn table(_ctx: &Context, mut args: Vec<Value>) -> (r: Result<Value, Error>)
    requires
        args@.len() >= 1,
    ensures
        r is Ok,
        r->Ok_0 is Table,
        args@[0] is Strand ==> r->Ok_0->Table_0@ == args@[0]->Strand_0@,
{
    let val = args.remove(0);
    Ok(Value::Table(val.as_string()))
}

/// Converts one or two arguments to a record pointer: a table and an
/// identifier make one; a single record-pointer argument passes through,
/// and anything else yields the absent value.
pub fn thing(_ctx: &Context, mut args: Vec<Value>) -> (r: Result<Value, Error>)
    requires
        1 <= args@.len() <= 2,
    ensures
        r is Ok,
        args@.len() == 2 ==> r->Ok_0 is Thing,
        args@.len() == 1 && args@[0] is Thing ==> r->Ok_0 == args@[0],
        args@.len() == 1 && !(args@[0] is Thing) ==> r->Ok_0 is Nothing,
{
    if args.len() == 2 {
        let tb = args.remove(0);
        let id = args.remove(0);
        match id {
            Value::Thing(t) => Ok(
                Value::Thing(Thing { tb: tb.as_string(), id: t.id }),
            ),
            other => Ok(
                Value::Thing(
                    Thing { tb: tb.as_string(), id: crate::sql::value::Id::Text(other.as_string()) },
                ),
            ),
        }
    } else {
        let v = args.remove(0);
        match v {
            Value::Thing(_) => Ok(v),
            _ => Ok(Value::Nothing),
        }
    }
}

} // verus!
