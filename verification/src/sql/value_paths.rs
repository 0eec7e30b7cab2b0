//! Shorthand selections over value trees.

use vstd::prelude::*;
use crate::sql::part::{spec_step, Part};
use crate::sql::value::{val_exact, Value};

verus! {

impl Value {
    /// Every element of a container: the container itself; anything else
    /// selects nothing.
    pub fn all(&self) -> (r: Value)
        ensures
            val_exact(r, spec_step(*self, Part::All)),
    {
        self.step(&Part::All)
    }

    /// The first element of an array; anything else selects nothing.
    pub fn first(&self) -> (r: Value)
        ensures
            val_exact(r, spec_step(*self, Part::First)),
    {
        self.step(&Part::First)
    }

    /// The last element of an array; anything else selects nothing.
    pub fn last(&self) -> (r: Value)
        ensures
            val_exact(r, spec_step(*self, Part::Last)),
    {
        self.step(&Part::Last)
    }

    /// An array's first element, the absent value for an empty array, and
    /// any other value itself.
    pub fn single(&self) -> (r: Value)
        ensures
            self is Array ==> val_exact(r, spec_step(*self, Part::First)),
            !(self is Array) ==> val_exact(r, *self),
    {
        match self {
            Value::Array(_) => self.step(&Part::First),
            _ => {
                let r = self.clone();
                proof {
                    crate::sql::value::lemma_val_exact_refl(*self);
                }
                r
            },
        }
    }
}

} // verus!
