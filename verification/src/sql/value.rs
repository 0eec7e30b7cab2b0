//! The value model: what a record mutation carries.
//!
//! Values are trees of plain data: simple scalars, exact numbers, strings,
//! record pointers, arrays and objects.  Deep equality is specified by
//! [`val_exact`] (structural) and [`val_eq`] (numbers compared by value).

use vstd::prelude::*;
use crate::sql::number::{micros, Number};

verus! {

broadcast use vstd::std_specs::vec::group_vec_axioms, vstd::seq::group_seq_axioms;

/// A record identifier: the free part of a record pointer.
#[derive(Debug, PartialEq, Eq)]
pub enum Id {
    /// A numeric identifier.
    Number(i64),
    /// A string identifier.
    Text(String),
}

/// A record pointer: table name and record identifier.
#[derive(Debug, PartialEq, Eq)]
pub struct Thing {
    /// The table the record lives in.
    pub tb: String,
    /// The identifier within the table.
    pub id: Id,
}

/// An ordered list of values.
#[derive(Debug)]
pub struct Array(pub Vec<Value>);

/// An ordered list of named fields.
#[derive(Debug)]
pub struct Object(pub Vec<(String, Value)>);

/// A value of the record model.
#[derive(Debug)]
pub enum Value {
    /// The absent value.
    Nothing,
    /// The explicit null value.
    Null,
    /// Boolean false.
    False,
    /// Boolean true.
    True,
    /// An exact number.
    Number(Number),
    /// A string.
    Strand(String),
    /// A duration, counted in whole seconds.
    Duration(u64),
    /// A point in time, counted in whole seconds since the Unix epoch.
    Datetime(i64),
    /// A regular expression, held as its source text.
    Regex(String),
    /// A table name.
    Table(String),
    /// A record pointer.
    Thing(Thing),
    /// An array of values.
    Array(Array),
    /// An object of named fields.
    Object(Object),
}

/// Structural equality of identifiers, strings by content.
pub open spec fn id_eq(a: Id, b: Id) -> bool {
    match a {
        Id::Number(x) => match b {
            Id::Number(y) => x == y,
            _ => false,
        },
        Id::Text(x) => match b {
            Id::Text(y) => x@ == y@,
            _ => false,
        },
    }
}

/// Structural equality of record pointers.
pub open spec fn thing_eq(a: Thing, b: Thing) -> bool {
    a.tb@ == b.tb@ && id_eq(a.id, b.id)
}

/// Deep equality of values: structural, with strings compared by content
/// and numbers compared by exact numeric value.
pub open spec fn val_eq(a: Value, b: Value) -> bool
    decreases a,
{
    match a {
        Value::Nothing => b is Nothing,
        Value::Null => b is Null,
        Value::False => b is False,
        Value::True => b is True,
        Value::Number(x) => match b {
            Value::Number(y) => micros(x) == micros(y),
            _ => false,
        },
        Value::Strand(x) => match b {
            Value::Strand(y) => x@ == y@,
            _ => false,
        },
        Value::Duration(x) => match b {
            Value::Duration(y) => x == y,
            _ => false,
        },
        Value::Datetime(x) => match b {
            Value::Datetime(y) => x == y,
            _ => false,
        },
        Value::Regex(x) => match b {
            Value::Regex(y) => x@ == y@,
            _ => false,
        },
        Value::Table(x) => match b {
            Value::Table(y) => x@ == y@,
            _ => false,
        },
        Value::Thing(x) => match b {
            Value::Thing(y) => thing_eq(x, y),
            _ => false,
        },
        Value::Array(x) => match b {
            Value::Array(y) => x.0.len() == y.0.len() && (forall|i: int|
                0 <= i < x.0.len() ==> val_eq(#[trigger] x.0[i], y.0[i])),
            _ => false,
        },
        Value::Object(x) => match b {
            Value::Object(y) => x.0.len() == y.0.len() && (forall|i: int|
                0 <= i < x.0.len() ==> (#[trigger] x.0[i]).0@ == y.0[i].0@ && val_eq(
                    x.0[i].1,
                    y.0[i].1,
                )),
            _ => false,
        },
    }
}

/// Structural deep equality of values: variants and payloads must match
/// exactly, strings compared by content.
pub open spec fn val_exact(a: Value, b: Value) -> bool
    decreases a,
{
    match a {
        Value::Number(x) => match b {
            Value::Number(y) => x == y,
            _ => false,
        },
        Value::Array(x) => match b {
            Value::Array(y) => x.0.len() == y.0.len() && (forall|i: int|
                0 <= i < x.0.len() ==> val_exact(#[trigger] x.0[i], y.0[i])),
            _ => false,
        },
        Value::Object(x) => match b {
            Value::Object(y) => x.0.len() == y.0.len() && (forall|i: int|
                0 <= i < x.0.len() ==> (#[trigger] x.0[i]).0@ == y.0[i].0@ && val_exact(
                    x.0[i].1,
                    y.0[i].1,
                )),
            _ => false,
        },
        _ => val_eq(a, b),
    }
}

impl Id {
    /// Compares two identifiers for equality.
    pub fn same(&self, other: &Id) -> (r: bool)
        ensures
            r == id_eq(*self, *other),
    {
        match self {
            Id::Number(x) => match other {
                Id::Number(y) => *x == *y,
                _ => false,
            },
            Id::Text(x) => match other {
                Id::Text(y) => *x == *y,
                _ => false,
            },
        }
    }
}

impl Thing {
    /// Compares two record pointers for equality.
    pub fn same(&self, other: &Thing) -> (r: bool)
        ensures
            r == thing_eq(*self, *other),
    {
        self.tb == other.tb && self.id.same(&other.id)
    }
}

impl Value {
    /// Compares two values for deep equality, numbers by numeric value.
    #[verifier::loop_isolation(false)]
    pub fn same(&self, other: &Value) -> (r: bool)
        ensures
            r == val_eq(*self, *other),
        decreases *self,
    {
        match self {
            Value::Nothing => matches!(other, Value::Nothing),
            Value::Null => matches!(other, Value::Null),
            Value::False => matches!(other, Value::False),
            Value::True => matches!(other, Value::True),
            Value::Number(x) => match other {
                Value::Number(y) => x.same_value(y),
                _ => false,
            },
            Value::Strand(x) => match other {
                Value::Strand(y) => *x == *y,
                _ => false,
            },
            Value::Duration(x) => match other {
                Value::Duration(y) => *x == *y,
                _ => false,
            },
            Value::Datetime(x) => match other {
                Value::Datetime(y) => *x == *y,
                _ => false,
            },
            Value::Regex(x) => match other {
                Value::Regex(y) => *x == *y,
                _ => false,
            },
            Value::Table(x) => match other {
                Value::Table(y) => *x == *y,
                _ => false,
            },
            Value::Thing(x) => match other {
                Value::Thing(y) => x.same(y),
                _ => false,
            },
            Value::Array(x) => match other {
                Value::Array(y) => {
                    proof {
                        assert(*self == Value::Array(*x));
                        assert(*other == Value::Array(*y));
                    }
                    if x.0.len() != y.0.len() {
                        return false;
                    }
                    let n = x.0.len();
                    let mut i: usize = 0;
                    while i < n
                        invariant
                            0 <= i <= n,
                            n == x.0.len() == y.0.len(),
                            forall|j: int| 0 <= j < i ==> val_eq(#[trigger] x.0[j], y.0[j]),
                        decreases n - i,
                    {
                        proof {
                            assert(*self == Value::Array(*x));
                            assert(*other == Value::Array(*y));
                            vstd::std_specs::vec::axiom_vec_index_decreases(x.0, i as int);
                            assert(decreases_to!(*self => x.0));
                        }
                        if !x.0[i].same(&y.0[i]) {
                            return false;
                        }
                        i = i + 1;
                    }
                    true
                },
                _ => false,
            },
            Value::Object(x) => match other {
                Value::Object(y) => {
                    proof {
                        assert(*self == Value::Object(*x));
                        assert(*other == Value::Object(*y));
                    }
                    if x.0.len() != y.0.len() {
                        return false;
                    }
                    let n = x.0.len();
                    let mut i: usize = 0;
                    while i < n
                        invariant
                            0 <= i <= n,
                            n == x.0.len() == y.0.len(),
                            forall|j: int|
                                0 <= j < i ==> (#[trigger] x.0[j]).0@ == y.0[j].0@ && val_eq(
                                    x.0[j].1,
                                    y.0[j].1,
                                ),
                        decreases n - i,
                    {
                        proof {
                            assert(*self == Value::Object(*x));
                            assert(*other == Value::Object(*y));
                            vstd::std_specs::vec::axiom_vec_index_decreases(x.0, i as int);
                            assert(decreases_to!(*self => x.0));
                        }
                        if !(x.0[i].0 == y.0[i].0) {
                            return false;
                        }
                        if !x.0[i].1.same(&y.0[i].1) {
                            return false;
                        }
                        i = i + 1;
                    }
                    true
                },
                _ => false,
            },
        }
    }

    /// Compares two values for exact structural equality.
    #[verifier::loop_isolation(false)]
    pub fn same_exact(&self, other: &Value) -> (r: bool)
        ensures
            r == val_exact(*self, *other),
        decreases *self,
    {
        match self {
            Value::Number(x) => match other {
                Value::Number(y) => *x == *y,
                _ => false,
            },
            Value::Array(x) => match other {
                Value::Array(y) => {
                    proof {
                        assert(*self == Value::Array(*x));
                        assert(*other == Value::Array(*y));
                    }
                    if x.0.len() != y.0.len() {
                        return false;
                    }
                    let n = x.0.len();
                    let mut i: usize = 0;
                    while i < n
                        invariant
                            0 <= i <= n,
                            n == x.0.len() == y.0.len(),
                            forall|j: int| 0 <= j < i ==> val_exact(#[trigger] x.0[j], y.0[j]),
                        decreases n - i,
                    {
                        proof {
                            assert(*self == Value::Array(*x));
                            assert(*other == Value::Array(*y));
                            vstd::std_specs::vec::axiom_vec_index_decreases(x.0, i as int);
                            assert(decreases_to!(*self => x.0));
                        }
                        if !x.0[i].same_exact(&y.0[i]) {
                            return false;
                        }
                        i = i + 1;
                    }
                    true
                },
                _ => false,
            },
            Value::Object(x) => match other {
                Value::Object(y) => {
                    proof {
                        assert(*self == Value::Object(*x));
                        assert(*other == Value::Object(*y));
                    }
                    if x.0.len() != y.0.len() {
                        return false;
                    }
                    let n = x.0.len();
                    let mut i: usize = 0;
                    while i < n
                        invariant
                            0 <= i <= n,
                            n == x.0.len() == y.0.len(),
                            forall|j: int|
                                0 <= j < i ==> (#[trigger] x.0[j]).0@ == y.0[j].0@ && val_exact(
                                    x.0[j].1,
                                    y.0[j].1,
                                ),
                        decreases n - i,
                    {
                        proof {
                            assert(*self == Value::Object(*x));
                            assert(*other == Value::Object(*y));
                            vstd::std_specs::vec::axiom_vec_index_decreases(x.0, i as int);
                            assert(decreases_to!(*self => x.0));
                        }
                        if !(x.0[i].0 == y.0[i].0) {
                            return false;
                        }
                        if !x.0[i].1.same_exact(&y.0[i].1) {
                            return false;
                        }
                        i = i + 1;
                    }
                    true
                },
                _ => false,
            },
            _ => self.same(other),
        }
    }

    /// Whether the value counts as true: booleans by themselves, numbers by
    /// being non-zero, strings by being non-empty and not the word "false",
    /// containers by being non-empty; the absent and null values never.
    pub fn is_truthy(&self) -> (r: bool)
        ensures
            r == spec_truthy(*self),
    {
        match self {
            Value::Nothing => false,
            Value::Null => false,
            Value::False => false,
            Value::True => true,
            Value::Number(n) => {
                let m = n.micros_i128();
                m != 0
            },
            Value::Strand(s) => {
                let f: String = String::from_str("false");
                s.as_str().unicode_len() > 0 && !(*s == f)
            },
            Value::Duration(d) => *d > 0,
            Value::Datetime(_) => true,
            Value::Regex(_) => true,
            Value::Table(_) => true,
            Value::Thing(_) => true,
            Value::Array(a) => a.0.len() > 0,
            Value::Object(o) => o.0.len() > 0,
        }
    }

    /// Whether the value is present (not the absent value).
    pub fn is_some(&self) -> (r: bool)
        ensures
            r == !(*self is Nothing),
    {
        !matches!(self, Value::Nothing)
    }
}

impl Clone for Id {
    /// Copy: the clone equals the original.
    fn clone(&self) -> (r: Id)
        ensures
            id_eq(r, *self),
    {
        match self {
            Id::Number(n) => Id::Number(*n),
            Id::Text(s) => Id::Text(s.clone()),
        }
    }
}

impl Clone for Thing {
    /// Copy: the clone equals the original.
    fn clone(&self) -> (r: Thing)
        ensures
            thing_eq(r, *self),
    {
        Thing { tb: self.tb.clone(), id: self.id.clone() }
    }
}

impl Clone for Value {
    /// Deep copy: the clone is structurally identical to the original.
    fn clone(&self) -> (r: Value)
        ensures
            val_exact(r, *self),
        decreases *self,
    {
        match self {
            Value::Nothing => Value::Nothing,
            Value::Null => Value::Null,
            Value::False => Value::False,
            Value::True => Value::True,
            Value::Number(n) => Value::Number(*n),
            Value::Strand(s) => Value::Strand(s.clone()),
            Value::Duration(d) => Value::Duration(*d),
            Value::Datetime(t) => Value::Datetime(*t),
            Value::Regex(s) => Value::Regex(s.clone()),
            Value::Table(s) => Value::Table(s.clone()),
            Value::Thing(t) => Value::Thing(Thing { tb: t.tb.clone(), id: t.id.clone() }),
            Value::Array(a) => Value::Array(a.clone()),
            Value::Object(o) => Value::Object(o.clone()),
        }
    }
}

impl Clone for Array {
    /// Deep copy: the clone is structurally identical to the original.
    fn clone(&self) -> (r: Array)
        ensures
            val_exact(Value::Array(r), Value::Array(*self)),
        decreases *self,
    {
        let n = self.0.len();
        let mut out: Vec<Value> = Vec::new();
        let mut i: usize = 0;
        while i < n
            invariant
                0 <= i <= n,
                n == self.0.len(),
                out@.len() == i,
                forall|j: int| 0 <= j < i ==> val_exact(#[trigger] out@[j], self.0[j]),
            decreases n - i,
        {
            proof {
                vstd::std_specs::vec::axiom_vec_index_decreases(self.0, i as int);
            }
            out.push(self.0[i].clone());
            i = i + 1;
        }
        Array(out)
    }
}

impl Clone for Object {
    /// Deep copy: the clone is structurally identical to the original.
    fn clone(&self) -> (r: Object)
        ensures
            val_exact(Value::Object(r), Value::Object(*self)),
        decreases *self,
    {
        let n = self.0.len();
        let mut out: Vec<(String, Value)> = Vec::new();
        let mut i: usize = 0;
        while i < n
            invariant
                0 <= i <= n,
                n == self.0.len(),
                out@.len() == i,
                forall|j: int|
                    0 <= j < i ==> (#[trigger] out@[j]).0@ == self.0[j].0@ && val_exact(
                        out@[j].1,
                        self.0[j].1,
                    ),
            decreases n - i,
        {
            proof {
                vstd::std_specs::vec::axiom_vec_index_decreases(self.0, i as int);
            }
            let k = self.0[i].0.clone();
            let v = self.0[i].1.clone();
            out.push((k, v));
            i = i + 1;
        }
        Object(out)
    }
}

impl PartialEq for Value {
    fn eq(&self, other: &Value) -> (r: bool) {
        self.same_exact(other)
    }
}

impl vstd::std_specs::cmp::PartialEqSpecImpl for Value {
    open spec fn obeys_eq_spec() -> bool {
        true
    }

    open spec fn eq_spec(&self, other: &Value) -> bool {
        val_exact(*self, *other)
    }
}

impl PartialEq for Array {
    fn eq(&self, other: &Array) -> (r: bool) {
        let n = self.0.len();
        if n != other.0.len() {
            return false;
        }
        let mut i: usize = 0;
        while i < n
            invariant
                0 <= i <= n,
                n == self.0.len() == other.0.len(),
                forall|j: int| 0 <= j < i ==> val_exact(#[trigger] self.0[j], other.0[j]),
            decreases n - i,
        {
            proof {
                vstd::std_specs::vec::axiom_vec_index_decreases(self.0, i as int);
            }
            if !self.0[i].same_exact(&other.0[i]) {
                return false;
            }
            i = i + 1;
        }
        true
    }
}

impl vstd::std_specs::cmp::PartialEqSpecImpl for Array {
    open spec fn obeys_eq_spec() -> bool {
        true
    }

    open spec fn eq_spec(&self, other: &Array) -> bool {
        val_exact(Value::Array(*self), Value::Array(*other))
    }
}

impl PartialEq for Object {
    fn eq(&self, other: &Object) -> (r: bool) {
        let n = self.0.len();
        if n != other.0.len() {
            return false;
        }
        let mut i: usize = 0;
        while i < n
            invariant
                0 <= i <= n,
                n == self.0.len() == other.0.len(),
                forall|j: int|
                    0 <= j < i ==> (#[trigger] self.0[j]).0@ == other.0[j].0@ && val_exact(
                        self.0[j].1,
                        other.0[j].1,
                    ),
            decreases n - i,
        {
            proof {
                vstd::std_specs::vec::axiom_vec_index_decreases(self.0, i as int);
            }
            if !(self.0[i].0 == other.0[i].0) {
                return false;
            }
            if !self.0[i].1.same_exact(&other.0[i].1) {
                return false;
            }
            i = i + 1;
        }
        true
    }
}

impl vstd::std_specs::cmp::PartialEqSpecImpl for Object {
    open spec fn obeys_eq_spec() -> bool {
        true
    }

    open spec fn eq_spec(&self, other: &Object) -> bool {
        val_exact(Value::Object(*self), Value::Object(*other))
    }
}

/// Structural equality is reflexive.
pub proof fn lemma_val_exact_refl(v: Value)
    ensures
        val_exact(v, v),
    decreases v,
{
    match v {
        Value::Array(x) => {
            assert forall|i: int| 0 <= i < x.0.len() implies val_exact(
                #[trigger] x.0[i],
                x.0[i],
            ) by {
                vstd::std_specs::vec::axiom_vec_index_decreases(x.0, i);
                lemma_val_exact_refl(x.0[i]);
            }
        },
        Value::Object(x) => {
            assert forall|i: int| 0 <= i < x.0.len() implies (#[trigger] x.0[i]).0@ == x.0[i].0@
                && val_exact(x.0[i].1, x.0[i].1) by {
                vstd::std_specs::vec::axiom_vec_index_decreases(x.0, i);
                lemma_val_exact_refl(x.0[i].1);
            }
        },
        _ => {},
    }
}

/// What counts as true; see [`Value::is_truthy`].
pub open spec fn spec_truthy(v: Value) -> bool {
    match v {
        Value::Nothing => false,
        Value::Null => false,
        Value::False => false,
        Value::True => true,
        Value::Number(n) => micros(n) != 0,
        Value::Strand(s) => s@.len() > 0 && s@ != "false"@,
        Value::Duration(d) => d > 0,
        Value::Datetime(_) => true,
        Value::Regex(_) => true,
        Value::Table(_) => true,
        Value::Thing(_) => true,
        Value::Array(a) => a.0.len() > 0,
        Value::Object(o) => o.0.len() > 0,
    }
}

} // verus!
