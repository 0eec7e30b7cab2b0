//! Path parts: one step of a path into a value tree.

use vstd::prelude::*;
use crate::sql::number::{clamp64, div_trunc, micros, Number};
use crate::sql::value::{val_exact, Thing, Value};

verus! {

broadcast use vstd::std_specs::vec::group_vec_axioms, vstd::seq::group_seq_axioms;

/// One step of a path.
#[derive(Clone, Debug)]
pub enum Part {
    /// Any element.
    Any,
    /// Every element.
    All,
    /// The last element.
    Last,
    /// The first element.
    First,
    /// A named field.
    Field(String),
    /// A numbered element.
    Index(Number),
    /// The elements a condition selects.
    Where(Value),
    /// A record pointer.
    Thing(Thing),
}

/// The index of a field in an object's field list, or -1 when absent.
pub open spec fn obj_find(s: Seq<(String, Value)>, name: Seq<char>) -> int
    decreases s.len(),
{
    if s.len() == 0 {
        -1
    } else if s.first().0@ == name {
        0
    } else {
        let r = obj_find(s.drop_first(), name);
        if r == -1 {
            -1
        } else {
            r + 1
        }
    }
}

/// The found field index is in range and carries the name.
pub proof fn lemma_obj_find(s: Seq<(String, Value)>, name: Seq<char>)
    ensures
        obj_find(s, name) == -1 ==> (forall|i: int|
            0 <= i < s.len() ==> (#[trigger] s[i]).0@ != name),
        obj_find(s, name) != -1 ==> 0 <= obj_find(s, name) < s.len() && s[obj_find(s, name)].0@
            == name,
    decreases s.len(),
{
    if s.len() > 0 {
        lemma_obj_find(s.drop_first(), name);
        assert(forall|i: int| 1 <= i < s.len() ==> #[trigger] s[i] == s.drop_first()[i - 1]);
    }
}

/// No field match can precede the found index.
pub proof fn lemma_obj_find_first(s: Seq<(String, Value)>, name: Seq<char>, i: int)
    requires
        0 <= i < s.len(),
        s[i].0@ == name,
    ensures
        0 <= obj_find(s, name) <= i,
    decreases s.len(),
{
    if s.first().0@ == name {
        assert(obj_find(s, name) == 0);
    } else {
        assert(s[0] == s.first());
        assert(i > 0);
        assert(s.drop_first()[i - 1] == s[i]);
        lemma_obj_find_first(s.drop_first(), name, i - 1);
        let r = obj_find(s.drop_first(), name);
        assert(obj_find(s, name) == r + 1);
    }
}

/// What one step of a path selects out of a value.
pub open spec fn spec_step(v: Value, p: Part) -> Value {
    match p {
        Part::Field(name) => match v {
            Value::Object(o) => {
                let j = obj_find(o.0@, name@);
                if j == -1 {
                    Value::Nothing
                } else {
                    o.0@[j].1
                }
            },
            _ => Value::Nothing,
        },
        Part::First => match v {
            Value::Array(a) => if a.0@.len() > 0 {
                a.0@[0]
            } else {
                Value::Nothing
            },
            _ => Value::Nothing,
        },
        Part::Last => match v {
            Value::Array(a) => if a.0@.len() > 0 {
                a.0@[a.0@.len() - 1]
            } else {
                Value::Nothing
            },
            _ => Value::Nothing,
        },
        Part::Index(n) => match v {
            Value::Array(a) => {
                let j = clamp64(div_trunc(micros(n), 1000000));
                if 0 <= j < a.0@.len() {
                    a.0@[j]
                } else {
                    Value::Nothing
                }
            },
            _ => Value::Nothing,
        },
        Part::All => match v {
            Value::Array(_) => v,
            Value::Object(_) => v,
            _ => Value::Nothing,
        },
        _ => Value::Nothing,
    }
}

/// What a whole path selects: the steps applied in order.
pub open spec fn spec_pick(v: Value, parts: Seq<Part>) -> Value
    decreases parts.len(),
{
    if parts.len() == 0 {
        v
    } else {
        spec_pick(spec_step(v, parts.first()), parts.drop_first())
    }
}

impl Value {
    /// Selects one step of a path; the result is a copy of the selected
    /// part.
    #[verifier::loop_isolation(false)]
    pub fn step(&self, p: &Part) -> (r: Value)
        ensures
            val_exact(r, spec_step(*self, *p)),
    {
        match p {
            Part::Field(name) => match self {
                Value::Object(o) => {
                    proof {
                        lemma_obj_find(o.0@, name@);
                    }
                    let n = o.0.len();
                    let mut i: usize = 0;
                    while i < n
                        invariant
                            0 <= i <= n == o.0@.len(),
                            forall|j: int| 0 <= j < i ==> (#[trigger] o.0@[j]).0@ != name@,
                        decreases n - i,
                    {
                        if crate::text::str_eq(o.0[i].0.as_str(), name.as_str()) {
                            proof {
                                let j = obj_find(o.0@, name@);
                                if j == -1 {
                                    assert(o.0@[i as int].0@ != name@);
                                    assert(false);
                                }
                                if j < i as int {
                                    assert(o.0@[j].0@ == name@);
                                    assert(false);
                                }
                                lemma_obj_find_first(o.0@, name@, i as int);
                            }
                            return o.0[i].1.clone();
                        }
                        i = i + 1;
                    }
                    Value::Nothing
                },
                _ => Value::Nothing,
            },
            Part::First => match self {
                Value::Array(a) => {
                    if a.0.len() > 0 {
                        a.0[0].clone()
                    } else {
                        Value::Nothing
                    }
                },
                _ => Value::Nothing,
            },
            Part::Last => match self {
                Value::Array(a) => {
                    if a.0.len() > 0 {
                        a.0[a.0.len() - 1].clone()
                    } else {
                        Value::Nothing
                    }
                },
                _ => Value::Nothing,
            },
            Part::Index(n) => match self {
                Value::Array(a) => {
                    let j = Value::Number(*n).as_int();
                    proof {
                        assert(crate::sql::convert::spec_as_number(Value::Number(*n)) == *n);
                        assert(j as int == clamp64(div_trunc(micros(*n), 1000000)));
                    }
                    if 0 <= j && (j as u64) < (a.0.len() as u64) {
                        let idx: usize = j as usize;
                        a.0[idx].clone()
                    } else {
                        Value::Nothing
                    }
                },
                _ => Value::Nothing,
            },
            Part::All => match self {
                Value::Array(_) => self.clone(),
                Value::Object(_) => self.clone(),
                _ => Value::Nothing,
            },
            _ => Value::Nothing,
        }
    }
}

/// A path into a value tree: the parts applied in order.
#[derive(Clone, Debug)]
pub struct Idiom(pub Vec<Part>);

/// The text of one path part in a rendered idiom: the first field stands
/// bare, later fields carry a leading dot, element selectors are
/// bracketed.
pub open spec fn spec_part_text(p: Part, first: bool) -> Seq<char> {
    match p {
        Part::Field(name) => if first {
            name@
        } else {
            seq!['.'] + name@
        },
        Part::All => seq!['[', '*', ']'],
        Part::Last => seq!['[', '$', ']'],
        Part::First => seq!['[', '0', ']'],
        Part::Index(n) => seq!['['] + crate::sql::number::spec_num_text(n) + seq![']'],
        _ => Seq::empty(),
    }
}

/// The text of an idiom: its parts in order.
pub open spec fn spec_idiom_parts(s: Seq<Part>, i: int) -> Seq<char>
    decreases s.len() - i,
{
    if i < 0 || i >= s.len() {
        Seq::empty()
    } else {
        spec_part_text(s[i], i == 0) + spec_idiom_parts(s, i + 1)
    }
}

/// The text of an idiom.
pub open spec fn spec_idiom_text(idiom: Idiom) -> Seq<char> {
    spec_idiom_parts(idiom.0@, 0)
}

impl Idiom {
    /// Renders the idiom as text.
    #[verifier::loop_isolation(false)]
    pub fn text(&self) -> (r: String)
        ensures
            r@ == spec_idiom_text(*self),
    {
        let mut out = String::new();
        let n = self.0.len();
        let mut i: usize = 0;
        proof {
            assert(out@ =~= spec_prefix_parts(self.0@, 0));
        }
        while i < n
            invariant
                0 <= i <= n == self.0@.len(),
                out@ == spec_prefix_parts(self.0@, i as int),
            decreases n - i,
        {
            let piece: String = match &self.0[i] {
                Part::Field(name) => {
                    if i == 0 {
                        name.clone()
                    } else {
                        proof {
                            reveal_strlit(".");
                        }
                        let mut t = String::from_str(".");
                        t.append(name.as_str());
                        t
                    }
                },
                Part::All => {
                    proof {
                        reveal_strlit("[*]");
                        assert("[*]"@ =~= seq!['[', '*', ']']);
                    }
                    String::from_str("[*]")
                },
                Part::Last => {
                    proof {
                        reveal_strlit("[$]");
                        assert("[$]"@ =~= seq!['[', '$', ']']);
                    }
                    String::from_str("[$]")
                },
                Part::First => {
                    proof {
                        reveal_strlit("[0]");
                        assert("[0]"@ =~= seq!['[', '0', ']']);
                    }
                    String::from_str("[0]")
                },
                Part::Index(nm) => {
                    proof {
                        reveal_strlit("[");
                        reveal_strlit("]");
                    }
                    let mut t = String::from_str("[");
                    t.append(nm.text().as_str());
                    t.append("]");
                    t
                },
                _ => String::new(),
            };
            proof {
                assert(piece@ =~= spec_part_text(self.0@[i as int], i == 0));
            }
            out.append(piece.as_str());
            proof {
                lemma_prefix_parts_step(self.0@, i as int);
            }
            i = i + 1;
        }
        proof {
            lemma_prefix_parts_full(self.0@);
        }
        out
    }
}

/// The rendered text of the first `i` parts.
pub open spec fn spec_prefix_parts(s: Seq<Part>, i: int) -> Seq<char>
    decreases i,
{
    if i <= 0 {
        Seq::empty()
    } else {
        spec_prefix_parts(s, i - 1) + spec_part_text(s[i - 1], i - 1 == 0)
    }
}

/// Extending the prefix appends the next part's text.
proof fn lemma_prefix_parts_step(s: Seq<Part>, i: int)
    requires
        0 <= i < s.len(),
    ensures
        spec_prefix_parts(s, i + 1) == spec_prefix_parts(s, i) + spec_part_text(s[i], i == 0),
{
}

/// The full prefix equals the full rendering.
proof fn lemma_prefix_parts_full(s: Seq<Part>)
    ensures
        spec_prefix_parts(s, s.len() as int) == spec_idiom_parts(s, 0),
{
    lemma_prefix_parts_split(s, 0);
    assert(spec_prefix_parts(s, 0) =~= Seq::<char>::empty());
    assert(spec_prefix_parts(s, s.len() as int) =~= Seq::<char>::empty() + spec_idiom_parts(
        s,
        0,
    ));
}

/// The prefix up to `i` and the parts from `i` make the whole rendering.
proof fn lemma_prefix_parts_split(s: Seq<Part>, i: int)
    requires
        0 <= i <= s.len(),
    ensures
        spec_prefix_parts(s, s.len() as int) == spec_prefix_parts(s, i) + spec_idiom_parts(s, i),
    decreases s.len() - i,
{
    if i == s.len() {
        assert(spec_prefix_parts(s, s.len() as int) =~= spec_prefix_parts(s, i) + Seq::empty());
    } else {
        lemma_prefix_parts_split(s, i + 1);
        lemma_prefix_parts_step(s, i);
        assert(spec_prefix_parts(s, s.len() as int) =~= spec_prefix_parts(s, i) + (
        spec_part_text(s[i], i == 0) + spec_idiom_parts(s, i + 1)));
    }
}

} // verus!
