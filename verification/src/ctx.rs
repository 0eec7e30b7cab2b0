//! The evaluation context: named values visible to functions.

use vstd::prelude::*;
use crate::sql::value::Value;

verus! {

/// A set of named values, looked up by name; later additions shadow
/// earlier ones.
pub struct Context {
    /// The named values, most recent last.
    pub values: Vec<(String, Value)>,
}

/// The value a context serves for a name: the most recently added binding.
pub open spec fn ctx_lookup(values: Seq<(String, Value)>, name: Seq<char>) -> Option<Value>
    decreases values.len(),
{
    if values.len() == 0 {
        Option::None
    } else if values.last().0@ == name {
        Option::Some(values.last().1)
    } else {
        ctx_lookup(values.drop_last(), name)
    }
}

impl Context {
    /// An empty context.
    pub fn new() -> (r: Context)
        ensures
            r.values@.len() == 0,
    {
        Context { values: Vec::new() }
    }

    /// Adds a named value; it shadows earlier values of the same name.
    pub fn add_value(&mut self, key: String, val: Value)
        ensures
            final(self).values@ == old(self).values@.push((key, val)),
    {
        self.values.push((key, val));
    }

    /// Looks a name up; the most recently added binding wins.
    pub fn value(&self, name: &str) -> (r: Option<&Value>)
        ensures
            match r {
                Option::Some(v) => ctx_lookup(self.values@, name@) == Option::Some(*v),
                Option::None => ctx_lookup(self.values@, name@) is None,
            },
    {
        let n = self.values.len();
        let mut i: usize = n;
        proof {
            assert(self.values@.subrange(0, n as int) =~= self.values@);
        }
        while i > 0
            invariant
                0 <= i <= n == self.values@.len(),
                ctx_lookup(self.values@, name@) == ctx_lookup(
                    self.values@.subrange(0, i as int),
                    name@,
                ),
            decreases i,
        {
            proof {
                assert(self.values@.subrange(0, i as int).last() == self.values@[i - 1]);
                assert(self.values@.subrange(0, i as int).drop_last() =~= self.values@.subrange(
                    0,
                    i - 1,
                ));
            }
            if crate::text::str_eq(self.values[i - 1].0.as_str(), name) {
                return Some(&self.values[i - 1].1);
            }
            i = i - 1;
        }
        proof {
            assert(self.values@.subrange(0, 0) =~= Seq::<(String, Value)>::empty());
        }
        None
    }
}

} // verus!
