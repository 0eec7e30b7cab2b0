//! Text forms of values and durations.

use vstd::prelude::*;
use crate::sql::number::spec_num_text;
use crate::sql::value::{Array, Id, Object, Thing, Value};
use crate::text::{spec_int_text, spec_udigits, u64_text};

verus! {

broadcast use vstd::std_specs::vec::group_vec_axioms, vstd::seq::group_seq_axioms;

/// One unit part of a duration: the count followed by its unit letter,
/// nothing when the count is zero.
pub open spec fn spec_unit_part(q: nat, unit: char) -> Seq<char> {
    if q == 0 {
        Seq::empty()
    } else {
        spec_udigits(q).push(unit)
    }
}

/// The text of a duration in seconds: years, weeks, days, hours, minutes
/// and seconds, largest first, zero parts omitted; a zero duration reads
/// as zero seconds.
pub open spec fn spec_duration_text(s: nat) -> Seq<char> {
    if s == 0 {
        seq!['0', 's']
    } else {
        let y = s / 31536000;
        let ry = s % 31536000;
        let w = ry / 604800;
        let rw = ry % 604800;
        let d = rw / 86400;
        let rd = rw % 86400;
        let h = rd / 3600;
        let rh = rd % 3600;
        let m = rh / 60;
        let sec = rh % 60;
        spec_unit_part(y, 'y') + spec_unit_part(w, 'w') + spec_unit_part(d, 'd') + spec_unit_part(
            h,
            'h',
        ) + spec_unit_part(m, 'm') + spec_unit_part(sec, 's')
    }
}

/// Renders one unit part of a duration.
fn unit_part(q: u64, unit: &str) -> (r: String)
    requires
        unit@.len() == 1,
    ensures
        r@ == spec_unit_part(q as nat, unit@[0]),
{
    if q == 0 {
        let r = String::new();
        proof {
            assert(r@ =~= spec_unit_part(q as nat, unit@[0]));
        }
        r
    } else {
        let mut s = u64_text(q);
        s.append(unit);
        proof {
            assert(s@ =~= spec_udigits(q as nat).push(unit@[0]));
        }
        s
    }
}

/// The text of a duration counted in whole seconds.
pub fn duration_text(s: u64) -> (r: String)
    ensures
        r@ == spec_duration_text(s as nat),
{
    if s == 0 {
        proof {
            reveal_strlit("0s");
            assert("0s"@ =~= seq!['0', 's']);
        }
        return String::from_str("0s");
    }
    let y = s / 31536000;
    let ry = s % 31536000;
    let w = ry / 604800;
    let rw = ry % 604800;
    let d = rw / 86400;
    let rd = rw % 86400;
    let h = rd / 3600;
    let rh = rd % 3600;
    let m = rh / 60;
    let sec = rh % 60;
    proof {
        reveal_strlit("y");
        reveal_strlit("w");
        reveal_strlit("d");
        reveal_strlit("h");
        reveal_strlit("m");
        reveal_strlit("s");
    }
    let mut out = unit_part(y, "y");
    out.append(unit_part(w, "w").as_str());
    out.append(unit_part(d, "d").as_str());
    out.append(unit_part(h, "h").as_str());
    out.append(unit_part(m, "m").as_str());
    out.append(unit_part(sec, "s").as_str());
    out
}

/// The text of a record identifier: digits, or the raw string.
pub open spec fn spec_id_text(id: Id) -> Seq<char> {
    match id {
        Id::Number(n) => spec_int_text(n as int),
        Id::Text(s) => s@,
    }
}

/// The text of a value: statement-like words for the simple values, exact
/// decimal text for numbers, quoted strings, `table:id` for record
/// pointers, and bracketed, comma-separated containers.
pub open spec fn spec_val_text(v: Value) -> Seq<char>
    decreases v, 0int,
{
    match v {
        Value::Nothing => seq!['N', 'O', 'N', 'E'],
        Value::Null => seq!['N', 'U', 'L', 'L'],
        Value::False => seq!['f', 'a', 'l', 's', 'e'],
        Value::True => seq!['t', 'r', 'u', 'e'],
        Value::Number(n) => spec_num_text(n),
        Value::Strand(s) => seq!['"'] + s@ + seq!['"'],
        Value::Duration(d) => spec_duration_text(d as nat),
        Value::Datetime(t) => spec_int_text(t as int),
        Value::Regex(s) => seq!['/'] + s@ + seq!['/'],
        Value::Table(s) => s@,
        Value::Thing(t) => t.tb@ + seq![':'] + spec_id_text(t.id),
        Value::Array(a) => seq!['['] + spec_vals_text(a.0@) + seq![']'],
        Value::Object(o) => seq!['{', ' '] + spec_fields_text(o.0@) + seq![' ', '}'],
    }
}

/// The comma-separated texts of the values from position `i` on.
pub open spec fn spec_vals_from(s: Seq<Value>, i: int) -> Seq<char>
    decreases s, s.len() - i,
{
    if i < 0 || i >= s.len() {
        Seq::empty()
    } else if i == s.len() - 1 {
        spec_val_text(s[i])
    } else {
        spec_val_text(s[i]) + seq![',', ' '] + spec_vals_from(s, i + 1)
    }
}

/// The comma-separated texts of a list of values.
pub open spec fn spec_vals_text(s: Seq<Value>) -> Seq<char>
    decreases s, s.len() + 1,
{
    spec_vals_from(s, 0)
}

/// The comma-separated texts of the fields from position `i` on.
pub open spec fn spec_fields_from(s: Seq<(String, Value)>, i: int) -> Seq<char>
    decreases s, s.len() - i,
{
    if i < 0 || i >= s.len() {
        Seq::empty()
    } else if i == s.len() - 1 {
        s[i].0@ + seq![':', ' '] + spec_val_text(s[i].1)
    } else {
        s[i].0@ + seq![':', ' '] + spec_val_text(s[i].1) + seq![',', ' '] + spec_fields_from(
            s,
            i + 1,
        )
    }
}

/// The comma-separated texts of an object's fields.
pub open spec fn spec_fields_text(s: Seq<(String, Value)>) -> Seq<char>
    decreases s, s.len() + 1,
{
    spec_fields_from(s, 0)
}

impl Value {
    /// Renders the value as text; see [`spec_val_text`].
    #[verifier::loop_isolation(false)]
    pub fn text(&self) -> (r: String)
        ensures
            r@ == spec_val_text(*self),
        decreases *self,
    {
        match self {
            Value::Nothing => {
                proof {
                    reveal_strlit("NONE");
                    assert("NONE"@ =~= spec_val_text(*self));
                }
                String::from_str("NONE")
            },
            Value::Null => {
                proof {
                    reveal_strlit("NULL");
                    assert("NULL"@ =~= spec_val_text(*self));
                }
                String::from_str("NULL")
            },
            Value::False => {
                proof {
                    reveal_strlit("false");
                    assert("false"@ =~= spec_val_text(*self));
                }
                String::from_str("false")
            },
            Value::True => {
                proof {
                    reveal_strlit("true");
                    assert("true"@ =~= spec_val_text(*self));
                }
                String::from_str("true")
            },
            Value::Number(n) => n.text(),
            Value::Strand(s) => {
                proof {
                    reveal_strlit("\u{22}");
                }
                let mut out = String::from_str("\u{22}");
                out.append(s.as_str());
                out.append("\u{22}");
                proof {
                    assert(out@ =~= spec_val_text(*self));
                }
                out
            },
            Value::Duration(d) => duration_text(*d),
            Value::Datetime(t) => crate::text::i64_text(*t),
            Value::Regex(s) => {
                proof {
                    reveal_strlit("/");
                }
                let mut out = String::from_str("/");
                out.append(s.as_str());
                out.append("/");
                proof {
                    assert(out@ =~= spec_val_text(*self));
                }
                out
            },
            Value::Table(s) => s.clone(),
            Value::Thing(t) => {
                proof {
                    reveal_strlit(":");
                }
                let mut out = t.tb.clone();
                out.append(":");
                match &t.id {
                    Id::Number(n) => out.append(crate::text::i64_text(*n).as_str()),
                    Id::Text(s) => out.append(s.as_str()),
                }
                proof {
                    assert(out@ =~= spec_val_text(*self));
                }
                out
            },
            Value::Array(a) => {
                proof {
                    reveal_strlit("[");
                    reveal_strlit("]");
                    reveal_strlit(", ");
                }
                let mut out = String::from_str("[");
                let n = a.0.len();
                let mut i: usize = 0;
                while i < n
                    invariant
                        0 <= i <= n == a.0@.len(),
                        "["@ =~= seq!['['],
                        ", "@ =~= seq![',', ' '],
                        out@ == seq!['['] + spec_vals_prefix(a.0@, i as int),
                        *self == Value::Array(*a),
                    decreases n - i,
                {
                    if i > 0 {
                        out.append(", ");
                    }
                    proof {
                        vstd::std_specs::vec::axiom_vec_index_decreases(a.0, i as int);
                        assert(decreases_to!(*self => a.0[i as int]));
                    }
                    out.append(a.0[i].text().as_str());
                    proof {
                        lemma_vals_prefix_step(a.0@, i as int);
                    }
                    i = i + 1;
                }
                out.append("]");
                proof {
                    lemma_vals_prefix_full(a.0@);
                    assert(out@ =~= spec_val_text(*self));
                }
                out
            },
            Value::Object(o) => {
                proof {
                    reveal_strlit("{ ");
                    reveal_strlit(" }");
                    reveal_strlit(", ");
                    reveal_strlit(": ");
                }
                let mut out = String::from_str("{ ");
                let n = o.0.len();
                let mut i: usize = 0;
                while i < n
                    invariant
                        0 <= i <= n == o.0@.len(),
                        "{ "@ =~= seq!['{', ' '],
                        ", "@ =~= seq![',', ' '],
                        ": "@ =~= seq![':', ' '],
                        out@ == seq!['{', ' '] + spec_fields_prefix(o.0@, i as int),
                        *self == Value::Object(*o),
                    decreases n - i,
                {
                    if i > 0 {
                        out.append(", ");
                    }
                    out.append(o.0[i].0.as_str());
                    out.append(": ");
                    proof {
                        vstd::std_specs::vec::axiom_vec_index_decreases(o.0, i as int);
                        assert(decreases_to!(*self => o.0[i as int]));
                    }
                    out.append(o.0[i].1.text().as_str());
                    proof {
                        lemma_fields_prefix_step(o.0@, i as int);
                    }
                    i = i + 1;
                }
                out.append(" }");
                proof {
                    lemma_fields_prefix_full(o.0@);
                    assert(out@ =~= spec_val_text(*self));
                }
                out
            },
        }
    }
}

/// The rendered text of the first `i` values of a list.
pub open spec fn spec_vals_prefix(s: Seq<Value>, i: int) -> Seq<char>
    decreases i,
{
    if i <= 0 {
        Seq::empty()
    } else if i == 1 {
        spec_val_text(s[0])
    } else {
        spec_vals_prefix(s, i - 1) + seq![',', ' '] + spec_val_text(s[i - 1])
    }
}

/// Extending the prefix by one value appends a separator and its text.
proof fn lemma_vals_prefix_step(s: Seq<Value>, i: int)
    requires
        0 <= i < s.len(),
    ensures
        i == 0 ==> spec_vals_prefix(s, 1) == spec_val_text(s[0]),
        i > 0 ==> spec_vals_prefix(s, i + 1) == spec_vals_prefix(s, i) + seq![',', ' ']
            + spec_val_text(s[i]),
{
}

/// The rendered prefix and the remaining suffix make the whole rendering.
proof fn lemma_vals_split(s: Seq<Value>, i: int)
    requires
        1 <= i <= s.len(),
    ensures
        spec_vals_prefix(s, s.len() as int) == spec_vals_prefix(s, i) + (if i < s.len() {
            seq![',', ' '] + spec_vals_from(s, i)
        } else {
            Seq::empty()
        }),
    decreases s.len() - i,
{
    if i == s.len() {
        assert(spec_vals_prefix(s, s.len() as int) =~= spec_vals_prefix(s, i) + Seq::empty());
    } else {
        lemma_vals_split(s, i + 1);
        lemma_vals_prefix_step(s, i);
        if i + 1 < s.len() {
            assert(spec_vals_from(s, i) == spec_val_text(s[i]) + seq![',', ' ']
                + spec_vals_from(s, i + 1));
            assert(spec_vals_prefix(s, s.len() as int) =~= spec_vals_prefix(s, i) + (seq![
                ',',
                ' ',
            ] + spec_vals_from(s, i)));
        } else {
            assert(spec_vals_from(s, i) == spec_val_text(s[i]));
            assert(spec_vals_prefix(s, s.len() as int) =~= spec_vals_prefix(s, i) + (seq![
                ',',
                ' ',
            ] + spec_vals_from(s, i)));
        }
    }
}

/// The full prefix is the full rendering.
proof fn lemma_vals_prefix_full(s: Seq<Value>)
    ensures
        spec_vals_prefix(s, s.len() as int) == spec_vals_text(s),
{
    if s.len() == 0 {
        assert(spec_vals_prefix(s, 0) =~= spec_vals_from(s, 0));
    } else if s.len() == 1 {
        assert(spec_vals_prefix(s, 1) == spec_val_text(s[0]));
        assert(spec_vals_from(s, 0) == spec_val_text(s[0]));
    } else {
        lemma_vals_split(s, 1);
        assert(spec_vals_prefix(s, 1) == spec_val_text(s[0]));
        assert(spec_vals_from(s, 0) == spec_val_text(s[0]) + seq![',', ' '] + spec_vals_from(
            s,
            1,
        ));
        assert(spec_vals_prefix(s, s.len() as int) =~= spec_vals_from(s, 0));
    }
}

/// The rendered text of the first `i` fields of an object.
pub open spec fn spec_fields_prefix(s: Seq<(String, Value)>, i: int) -> Seq<char>
    decreases i,
{
    if i <= 0 {
        Seq::empty()
    } else if i == 1 {
        s[0].0@ + seq![':', ' '] + spec_val_text(s[0].1)
    } else {
        spec_fields_prefix(s, i - 1) + seq![',', ' '] + s[i - 1].0@ + seq![':', ' ']
            + spec_val_text(s[i - 1].1)
    }
}

/// Extending the field prefix by one appends a separator and that field.
proof fn lemma_fields_prefix_step(s: Seq<(String, Value)>, i: int)
    requires
        0 <= i < s.len(),
    ensures
        i == 0 ==> spec_fields_prefix(s, 1) == s[0].0@ + seq![':', ' '] + spec_val_text(s[0].1),
        i > 0 ==> spec_fields_prefix(s, i + 1) == spec_fields_prefix(s, i) + seq![',', ' ']
            + s[i].0@ + seq![':', ' '] + spec_val_text(s[i].1),
{
}

/// The rendered field prefix and remaining suffix make the whole rendering.
proof fn lemma_fields_split(s: Seq<(String, Value)>, i: int)
    requires
        1 <= i <= s.len(),
    ensures
        spec_fields_prefix(s, s.len() as int) == spec_fields_prefix(s, i) + (if i < s.len() {
            seq![',', ' '] + spec_fields_from(s, i)
        } else {
            Seq::empty()
        }),
    decreases s.len() - i,
{
    if i == s.len() {
        assert(spec_fields_prefix(s, s.len() as int) =~= spec_fields_prefix(s, i)
            + Seq::empty());
    } else {
        lemma_fields_split(s, i + 1);
        lemma_fields_prefix_step(s, i);
        if i + 1 < s.len() {
            assert(spec_fields_from(s, i) == s[i].0@ + seq![':', ' '] + spec_val_text(s[i].1)
                + seq![',', ' '] + spec_fields_from(s, i + 1));
            assert(spec_fields_prefix(s, s.len() as int) =~= spec_fields_prefix(s, i) + (seq![
                ',',
                ' ',
            ] + spec_fields_from(s, i)));
        } else {
            assert(spec_fields_from(s, i) == s[i].0@ + seq![':', ' '] + spec_val_text(s[i].1));
            assert(spec_fields_prefix(s, s.len() as int) =~= spec_fields_prefix(s, i) + (seq![
                ',',
                ' ',
            ] + spec_fields_from(s, i)));
        }
    }
}

/// The full field prefix is the full rendering.
proof fn lemma_fields_prefix_full(s: Seq<(String, Value)>)
    ensures
        spec_fields_prefix(s, s.len() as int) == spec_fields_text(s),
{
    if s.len() == 0 {
        assert(spec_fields_prefix(s, 0) =~= spec_fields_from(s, 0));
    } else if s.len() == 1 {
        assert(spec_fields_prefix(s, 1) == s[0].0@ + seq![':', ' '] + spec_val_text(s[0].1));
        assert(spec_fields_from(s, 0) == s[0].0@ + seq![':', ' '] + spec_val_text(s[0].1));
    } else {
        lemma_fields_split(s, 1);
        assert(spec_fields_prefix(s, 1) == s[0].0@ + seq![':', ' '] + spec_val_text(s[0].1));
        assert(spec_fields_from(s, 0) == s[0].0@ + seq![':', ' '] + spec_val_text(s[0].1) + seq![
            ',',
            ' ',
        ] + spec_fields_from(s, 1));
        assert(spec_fields_prefix(s, s.len() as int) =~= spec_fields_from(s, 0));
    }
}

} // verus!
