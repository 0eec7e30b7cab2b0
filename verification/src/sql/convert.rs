//! Conversions between value forms.

use vstd::prelude::*;
use crate::sql::number::{clamp64, div_trunc, micros, Number};
use crate::sql::fmt::spec_val_text;
use crate::sql::value::Value;

verus! {

/// The numeric reading of a value: numbers read as themselves, booleans as
/// one and zero, durations and datetimes as their seconds, everything else
/// as zero.
pub open spec fn spec_as_number(v: Value) -> Number {
    match v {
        Value::Number(n) => n,
        Value::True => Number::Int(1),
        Value::Duration(d) => Number::Int(clamp64(d as int) as i64),
        Value::Datetime(t) => Number::Int(t),
        _ => Number::Int(0),
    }
}

/// The textual reading of a value: a string's own content, any other
/// value's text form.
pub open spec fn spec_as_string(v: Value) -> Seq<char> {
    match v {
        Value::Strand(s) => s@,
        _ => spec_val_text(v),
    }
}

impl Value {
    /// Reads the value as a number; see [`spec_as_number`].
    pub fn as_number(&self) -> (r: Number)
        ensures
            r == spec_as_number(*self),
    {
        match self {
            Value::Number(n) => *n,
            Value::True => Number::Int(1),
            Value::Duration(d) => {
                if *d > i64::MAX as u64 {
                    Number::Int(i64::MAX)
                } else {
                    Number::Int(*d as i64)
                }
            },
            Value::Datetime(t) => Number::Int(*t),
            _ => Number::Int(0),
        }
    }

    /// Reads the value as a whole number, truncating toward zero.
    pub fn as_int(&self) -> (r: i64)
        ensures
            r == clamp64(div_trunc(micros(spec_as_number(*self)), 1000000)) as i64,
    {
        let n = self.as_number();
        let m = n.micros_i128();
        let q = crate::sql::number::div_trunc_i128(m, 1000000);
        if q > i64::MAX as i128 {
            i64::MAX
        } else if q < i64::MIN as i128 {
            i64::MIN
        } else {
            q as i64
        }
    }

    /// Reads the value as a string: a string's own content, any other
    /// value's text form.
    pub fn as_string(&self) -> (r: String)
        ensures
            r@ == spec_as_string(*self),
    {
        match self {
            Value::Strand(s) => s.clone(),
            _ => self.text(),
        }
    }

    /// Reads the value as a string value.
    pub fn as_strand(&self) -> (r: Value)
        ensures
            r is Strand,
            r->Strand_0@ == spec_as_string(*self),
    {
        Value::Strand(self.as_string())
    }

    /// Reads the value as a duration in whole seconds: a duration's own
    /// seconds, any other value's numeric reading clamped at zero.
    pub fn as_duration(&self) -> (r: u64)
        ensures
            self is Duration ==> r == self->Duration_0,
            !(self is Duration) ==> r as int == ({
                let q = clamp64(div_trunc(micros(spec_as_number(*self)), 1000000));
                if q < 0 {
                    0
                } else {
                    q
                }
            }),
    {
        match self {
            Value::Duration(d) => *d,
            _ => {
                let q = self.as_int();
                if q < 0 {
                    0
                } else {
                    q as u64
                }
            },
        }
    }

    /// Reads the value as a point in time, in whole seconds since the
    /// Unix epoch.
    pub fn as_datetime(&self) -> (r: i64)
        ensures
            self is Datetime ==> r == self->Datetime_0,
            !(self is Datetime) ==> r == clamp64(
                div_trunc(micros(spec_as_number(*self)), 1000000),
            ) as i64,
    {
        match self {
            Value::Datetime(t) => *t,
            _ => self.as_int(),
        }
    }
}

impl crate::sql::value::Array {
    /// An empty array.
    pub fn new() -> (r: crate::sql::value::Array)
        ensures
            r.0@.len() == 0,
    {
        crate::sql::value::Array(Vec::new())
    }

    /// An empty array with room for `len` elements.
    pub fn with_capacity(len: usize) -> (r: crate::sql::value::Array)
        ensures
            r.0@.len() == 0,
    {
        crate::sql::value::Array(Vec::with_capacity(len))
    }

    /// The whole-number readings of the elements, in order.
    pub fn as_ints(self) -> (r: Vec<i64>)
        ensures
            r@.len() == self.0@.len(),
            forall|i: int|
                0 <= i < r@.len() ==> #[trigger] r@[i] == clamp64(
                    div_trunc(micros(spec_as_number(self.0@[i])), 1000000),
                ) as i64,
    {
        let mut out: Vec<i64> = Vec::new();
        let n = self.0.len();
        let mut i: usize = 0;
        while i < n
            invariant
                0 <= i <= n == self.0@.len(),
                out@.len() == i,
                forall|j: int|
                    0 <= j < i ==> #[trigger] out@[j] == clamp64(
                        div_trunc(micros(spec_as_number(self.0@[j])), 1000000),
                    ) as i64,
            decreases n - i,
        {
            out.push(self.0[i].as_int());
            i = i + 1;
        }
        out
    }

    /// The numeric readings of the elements, in order.
    pub fn as_numbers(self) -> (r: Vec<Number>)
        ensures
            r@.len() == self.0@.len(),
            forall|i: int|
                0 <= i < r@.len() ==> #[trigger] r@[i] == spec_as_number(self.0@[i]),
    {
        let mut out: Vec<Number> = Vec::new();
        let n = self.0.len();
        let mut i: usize = 0;
        while i < n
            invariant
                0 <= i <= n == self.0@.len(),
                out@.len() == i,
                forall|j: int| 0 <= j < i ==> #[trigger] out@[j] == spec_as_number(self.0@[j]),
            decreases n - i,
        {
            out.push(self.0[i].as_number());
            i = i + 1;
        }
        out
    }

    /// The textual readings of the elements, in order, as string values.
    pub fn as_strands(self) -> (r: Vec<Value>)
        ensures
            r@.len() == self.0@.len(),
            forall|i: int|
                0 <= i < r@.len() ==> (#[trigger] r@[i]) is Strand && r@[i]->Strand_0@
                    == spec_as_string(self.0@[i]),
    {
        let mut out: Vec<Value> = Vec::new();
        let n = self.0.len();
        let mut i: usize = 0;
        while i < n
            invariant
                0 <= i <= n == self.0@.len(),
                out@.len() == i,
                forall|j: int|
                    0 <= j < i ==> (#[trigger] out@[j]) is Strand && out@[j]->Strand_0@
                        == spec_as_string(self.0@[j]),
            decreases n - i,
        {
            out.push(self.0[i].as_strand());
            i = i + 1;
        }
        out
    }
}

} // verus!
