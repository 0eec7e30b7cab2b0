//! Merging one value's fields into another.

use vstd::prelude::*;
use crate::sql::part::obj_find;
use crate::sql::value::{Object, Value};

verus! {

broadcast use vstd::std_specs::vec::group_vec_axioms, vstd::seq::group_seq_axioms;

/// One field written into a field list: an existing field of the same name
/// keeps its place and takes the new value, a new name is appended.
pub open spec fn spec_set_field(
    base: Seq<(String, Value)>,
    k: String,
    v: Value,
) -> Seq<(String, Value)> {
    let j = obj_find(base, k@);
    if j == -1 {
        base.push((k, v))
    } else {
        base.update(j, (base[j].0, v))
    }
}

/// A list of fields written into a field list, in order.
pub open spec fn spec_merge_fields(
    base: Seq<(String, Value)>,
    adds: Seq<(String, Value)>,
) -> Seq<(String, Value)>
    decreases adds.len(),
{
    if adds.len() == 0 {
        base
    } else {
        spec_merge_fields(
            spec_set_field(base, adds.first().0, adds.first().1),
            adds.drop_first(),
        )
    }
}

/// Writes one field into a field list.
#[verifier::loop_isolation(false)]
fn set_field(fields: &mut Vec<(String, Value)>, k: String, v: Value)
    ensures
        final(fields)@ == spec_set_field(old(fields)@, k, v),
{
    proof {
        crate::sql::part::lemma_obj_find(fields@, k@);
    }
    let n = fields.len();
    let mut i: usize = 0;
    while i < n
        invariant
            0 <= i <= n == fields@.len(),
            fields@ == old(fields)@,
            forall|j: int| 0 <= j < i ==> (#[trigger] fields@[j]).0@ != k@,
        decreases n - i,
    {
        if crate::text::str_eq(fields[i].0.as_str(), k.as_str()) {
            proof {
                let j = obj_find(fields@, k@);
                if j == -1 {
                    assert(fields@[i as int].0@ != k@);
                    assert(false);
                }
                if j < i as int {
                    assert(fields@[j].0@ == k@);
                    assert(false);
                }
                crate::sql::part::lemma_obj_find_first(fields@, k@, i as int);
            }
            let ghost pre = fields@;
            let (k0, _old_v) = fields.remove(i);
            fields.insert(i, (k0, v));
            proof {
                assert(fields@ =~= pre.update(i as int, (pre[i as int].0, fields@[i as int].1)));
            }
            return ;
        }
        i = i + 1;
    }
    proof {
        assert(obj_find(fields@, k@) == -1);
    }
    fields.push((k, v));
}

impl Value {
    /// Merges an object's fields into this object, in field order: an
    /// existing field keeps its place and takes the new value, a new field
    /// is appended.  Any other pairing leaves this value untouched.
    #[verifier::loop_isolation(false)]
    pub fn merge(&mut self, val: Value)
        ensures
            (*old(self) is Object && val is Object) ==> (*final(self) is Object
                && final(self)->Object_0.0@ == spec_merge_fields(
                old(self)->Object_0.0@,
                val->Object_0.0@,
            )),
            !(*old(self) is Object && val is Object) ==> *final(self) == *old(self),
    {
        let is_pair = matches!(self, Value::Object(_)) && matches!(&val, Value::Object(_));
        if !is_pair {
            return ;
        }
        match (self, val) {
            (Value::Object(base), Value::Object(adds)) => {
                let ghost base0 = base.0@;
                let ghost adds0 = adds.0@;
                let mut adds = adds.0;
                let n = adds.len();
                let mut i: usize = 0;
                proof {
                    assert(adds@ =~= adds0.subrange(0, n as int));
                }
                while i < n
                    invariant
                        0 <= i <= n == adds0.len(),
                        adds@ == adds0.subrange(i as int, n as int),
                        spec_merge_fields(base0, adds0) == spec_merge_fields(
                            base.0@,
                            adds0.subrange(i as int, n as int),
                        ),
                    decreases n - i,
                {
                    let ghost before = base.0@;
                    let (k, v) = adds.remove(0);
                    proof {
                        assert(adds0.subrange(i as int, n as int)[0] == adds0[i as int]);
                        assert(adds@ =~= adds0.subrange(i + 1, n as int));
                        assert((k, v) == adds0[i as int]);
                    }
                    set_field(&mut base.0, k, v);
                    proof {
                        assert(spec_merge_fields(before, adds0.subrange(i as int, n as int))
                            == spec_merge_fields(
                            spec_set_field(before, adds0[i as int].0, adds0[i as int].1),
                            adds0.subrange(i as int, n as int).drop_first(),
                        ));
                        assert(adds0.subrange(i as int, n as int).drop_first() =~= adds0.subrange(
                            i + 1,
                            n as int,
                        ));
                    }
                    i = i + 1;
                }
                proof {
                    assert(adds0.subrange(n as int, n as int) =~= Seq::<(String, Value)>::empty());
                }
            },
            _ => {},
        }
    }
}

} // verus!
