//! A total ordering of values, for sorting.
//!
//! Values order first by kind, then within one kind by value: numbers by
//! their exact value, strings by character order, record pointers by table
//! and then identifier, containers by size.  The order is total and
//! transitive, which the sorting routines lean on.

use vstd::prelude::*;
use crate::sql::number::micros;
use crate::sql::ops::lex_lt_chars;
use crate::sql::value::{Id, Value};

verus! {

broadcast use vstd::std_specs::vec::group_vec_axioms, vstd::seq::group_seq_axioms;

/// The rank of a value's kind in the overall order.
pub open spec fn val_rank(v: Value) -> int {
    match v {
        Value::Nothing => 0,
        Value::Null => 1,
        Value::False => 2,
        Value::True => 3,
        Value::Number(_) => 4,
        Value::Strand(_) => 5,
        Value::Duration(_) => 6,
        Value::Datetime(_) => 7,
        Value::Regex(_) => 8,
        Value::Table(_) => 9,
        Value::Thing(_) => 10,
        Value::Array(_) => 11,
        Value::Object(_) => 12,
    }
}

/// Whether one string is at most another in character order.
pub open spec fn chars_le(a: Seq<char>, b: Seq<char>) -> bool {
    !lex_lt_chars(b, a)
}

/// Whether one identifier is at most another: numbers below strings,
/// otherwise by value.
pub open spec fn id_le(a: Id, b: Id) -> bool {
    match (a, b) {
        (Id::Number(x), Id::Number(y)) => x <= y,
        (Id::Number(_), Id::Text(_)) => true,
        (Id::Text(_), Id::Number(_)) => false,
        (Id::Text(x), Id::Text(y)) => chars_le(x@, y@),
    }
}

/// Whether one value is at most another; see the module doc.
pub open spec fn val_le(a: Value, b: Value) -> bool {
    if val_rank(a) != val_rank(b) {
        val_rank(a) < val_rank(b)
    } else {
        match (a, b) {
            (Value::Number(x), Value::Number(y)) => micros(x) <= micros(y),
            (Value::Strand(x), Value::Strand(y)) => chars_le(x@, y@),
            (Value::Duration(x), Value::Duration(y)) => x <= y,
            (Value::Datetime(x), Value::Datetime(y)) => x <= y,
            (Value::Regex(x), Value::Regex(y)) => chars_le(x@, y@),
            (Value::Table(x), Value::Table(y)) => chars_le(x@, y@),
            (Value::Thing(x), Value::Thing(y)) => lex_lt_chars(x.tb@, y.tb@) || (x.tb@ == y.tb@
                && id_le(x.id, y.id)),
            (Value::Array(x), Value::Array(y)) => x.0@.len() <= y.0@.len(),
            (Value::Object(x), Value::Object(y)) => x.0@.len() <= y.0@.len(),
            _ => true,
        }
    }
}

/// Lexicographic character order is asymmetric.
proof fn lemma_chars_lt_asym(a: Seq<char>, b: Seq<char>)
    requires
        lex_lt_chars(a, b),
    ensures
        !lex_lt_chars(b, a),
    decreases a.len() + b.len(),
{
    if b.len() == 0 {
    } else if a.len() == 0 {
    } else if a.first() == b.first() {
        lemma_chars_lt_asym(a.drop_first(), b.drop_first());
    }
}

/// Lexicographic character order is transitive.
proof fn lemma_chars_lt_trans(a: Seq<char>, b: Seq<char>, c: Seq<char>)
    requires
        lex_lt_chars(a, b),
        lex_lt_chars(b, c),
    ensures
        lex_lt_chars(a, c),
    decreases a.len() + b.len() + c.len(),
{
    if a.len() == 0 {
        assert(b.len() > 0);
        assert(c.len() > 0);
    } else if b.len() == 0 || c.len() == 0 {
    } else {
        if a.first() == b.first() && b.first() == c.first() {
            lemma_chars_lt_trans(a.drop_first(), b.drop_first(), c.drop_first());
        }
    }
}

/// Any two strings are equal or strictly ordered one way.
proof fn lemma_chars_trichotomy(a: Seq<char>, b: Seq<char>)
    ensures
        lex_lt_chars(a, b) || lex_lt_chars(b, a) || a == b,
    decreases a.len() + b.len(),
{
    if a.len() == 0 && b.len() == 0 {
        assert(a =~= b);
    } else if a.len() == 0 || b.len() == 0 {
    } else if a.first() == b.first() {
        lemma_chars_trichotomy(a.drop_first(), b.drop_first());
        if !lex_lt_chars(a, b) && !lex_lt_chars(b, a) {
            assert(a.drop_first() =~= b.drop_first());
            assert(a =~= seq![a.first()] + a.drop_first());
            assert(b =~= seq![b.first()] + b.drop_first());
        }
    }
}

/// String order is total.
proof fn lemma_chars_le_total(a: Seq<char>, b: Seq<char>)
    ensures
        chars_le(a, b) || chars_le(b, a),
{
    if lex_lt_chars(a, b) {
        lemma_chars_lt_asym(a, b);
    }
}

/// String order is transitive.
proof fn lemma_chars_le_trans(a: Seq<char>, b: Seq<char>, c: Seq<char>)
    requires
        chars_le(a, b),
        chars_le(b, c),
    ensures
        chars_le(a, c),
{
    if lex_lt_chars(c, a) {
        lemma_chars_trichotomy(a, b);
        if a == b {
            assert(false);
        } else if lex_lt_chars(a, b) {
            lemma_chars_lt_trans(c, a, b);
            assert(false);
        } else {
            assert(false);
        }
    }
}

/// The value order is total: of any two values, one is at most the other.
pub proof fn lemma_val_le_total(a: Value, b: Value)
    ensures
        val_le(a, b) || val_le(b, a),
{
    if val_rank(a) == val_rank(b) {
        match (a, b) {
            (Value::Strand(x), Value::Strand(y)) => lemma_chars_le_total(x@, y@),
            (Value::Regex(x), Value::Regex(y)) => lemma_chars_le_total(x@, y@),
            (Value::Table(x), Value::Table(y)) => lemma_chars_le_total(x@, y@),
            (Value::Thing(x), Value::Thing(y)) => {
                lemma_chars_trichotomy(x.tb@, y.tb@);
                if x.tb@ == y.tb@ {
                    match (x.id, y.id) {
                        (Id::Text(p), Id::Text(q)) => lemma_chars_le_total(p@, q@),
                        _ => {},
                    }
                }
            },
            _ => {},
        }
    }
}

/// The value order is transitive.
pub proof fn lemma_val_le_trans(a: Value, b: Value, c: Value)
    requires
        val_le(a, b),
        val_le(b, c),
    ensures
        val_le(a, c),
{
    if val_rank(a) == val_rank(b) && val_rank(b) == val_rank(c) {
        match (a, b, c) {
            (Value::Strand(x), Value::Strand(y), Value::Strand(z)) => lemma_chars_le_trans(
                x@,
                y@,
                z@,
            ),
            (Value::Regex(x), Value::Regex(y), Value::Regex(z)) => lemma_chars_le_trans(
                x@,
                y@,
                z@,
            ),
            (Value::Table(x), Value::Table(y), Value::Table(z)) => lemma_chars_le_trans(
                x@,
                y@,
                z@,
            ),
            (Value::Thing(x), Value::Thing(y), Value::Thing(z)) => {
                if lex_lt_chars(x.tb@, y.tb@) && lex_lt_chars(y.tb@, z.tb@) {
                    lemma_chars_lt_trans(x.tb@, y.tb@, z.tb@);
                } else if x.tb@ == y.tb@ && x.tb@ == z.tb@ {
                    match (x.id, y.id, z.id) {
                        (Id::Text(p), Id::Text(q), Id::Text(w)) => lemma_chars_le_trans(
                            p@,
                            q@,
                            w@,
                        ),
                        _ => {},
                    }
                }
            },
            _ => {},
        }
    }
}

/// Decides whether one value is at most another in the value order.
pub fn le_value(a: &Value, b: &Value) -> (r: bool)
    ensures
        r == val_le(*a, *b),
{
    let ra = rank_exec(a);
    let rb = rank_exec(b);
    if ra != rb {
        return ra < rb;
    }
    match (a, b) {
        (Value::Number(x), Value::Number(y)) => x.le(y),
        (Value::Strand(x), Value::Strand(y)) => !crate::sql::ops::str_lt(y.as_str(), x.as_str()),
        (Value::Duration(x), Value::Duration(y)) => *x <= *y,
        (Value::Datetime(x), Value::Datetime(y)) => *x <= *y,
        (Value::Regex(x), Value::Regex(y)) => !crate::sql::ops::str_lt(y.as_str(), x.as_str()),
        (Value::Table(x), Value::Table(y)) => !crate::sql::ops::str_lt(y.as_str(), x.as_str()),
        (Value::Thing(x), Value::Thing(y)) => {
            if crate::sql::ops::str_lt(x.tb.as_str(), y.tb.as_str()) {
                true
            } else if crate::text::str_eq(x.tb.as_str(), y.tb.as_str()) {
                match (&x.id, &y.id) {
                    (Id::Number(p), Id::Number(q)) => *p <= *q,
                    (Id::Number(_), Id::Text(_)) => true,
                    (Id::Text(_), Id::Number(_)) => false,
                    (Id::Text(p), Id::Text(q)) => !crate::sql::ops::str_lt(
                        q.as_str(),
                        p.as_str(),
                    ),
                }
            } else {
                false
            }
        },
        (Value::Array(x), Value::Array(y)) => x.0.len() <= y.0.len(),
        (Value::Object(x), Value::Object(y)) => x.0.len() <= y.0.len(),
        _ => true,
    }
}

/// The rank of a value's kind, for exec code.
fn rank_exec(v: &Value) -> (r: u32)
    ensures
        r as int == val_rank(*v),
{
    match v {
        Value::Nothing => 0,
        Value::Null => 1,
        Value::False => 2,
        Value::True => 3,
        Value::Number(_) => 4,
        Value::Strand(_) => 5,
        Value::Duration(_) => 6,
        Value::Datetime(_) => 7,
        Value::Regex(_) => 8,
        Value::Table(_) => 9,
        Value::Thing(_) => 10,
        Value::Array(_) => 11,
        Value::Object(_) => 12,
    }
}

} // verus!
