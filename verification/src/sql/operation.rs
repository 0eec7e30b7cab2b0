//! Patch operations on records.

use vstd::prelude::*;
use crate::sql::value::Value;

verus! {

/// What a patch step does.
#[derive(Clone, Copy, Debug, PartialEq, Eq, Structural)]
pub enum Op {
    /// No operation.
    Nothing,
    /// Adds a value at the path.
    Add,
    /// Removes the value at the path.
    Remove,
    /// Replaces the value at the path.
    Replace,
    /// Changes the value at the path.
    Change,
}

/// One patch step: an operation, the path it acts on, and its value.
#[derive(Clone, Debug)]
pub struct Operation {
    /// What to do.
    pub op: Op,
    /// The path, as field names.
    pub path: Vec<String>,
    /// The value the operation carries.
    pub value: Value,
}

impl Default for Op {
    /// The default operation adds.
    fn default() -> (r: Op)
        ensures
            r == Op::Add,
    {
        Op::Add
    }
}

impl Op {
    /// Reads an operation from its name; unknown names mean no operation.
    pub fn from_name(v: &str) -> (r: Op)
        ensures
            v@ == "add"@ ==> r == Op::Add,
            v@ == "remove"@ ==> r == Op::Remove,
            v@ == "replace"@ ==> r == Op::Replace,
            v@ == "change"@ ==> r == Op::Change,
            v@ != "add"@ && v@ != "remove"@ && v@ != "replace"@ && v@ != "change"@ ==> r
                == Op::Nothing,
    {
        proof {
            reveal_strlit("add");
            reveal_strlit("remove");
            reveal_strlit("replace");
            reveal_strlit("change");
            assert("add"@.len() == 3);
            assert("remove"@.len() == 6);
            assert("replace"@.len() == 7);
            assert("change"@.len() == 6);
            assert("remove"@[0] == 'r' && "change"@[0] == 'c');
        }
        if crate::text::str_eq(v, "add") {
            Op::Add
        } else if crate::text::str_eq(v, "remove") {
            Op::Remove
        } else if crate::text::str_eq(v, "replace") {
            Op::Replace
        } else if crate::text::str_eq(v, "change") {
            Op::Change
        } else {
            Op::Nothing
        }
    }
}

} // verus!
