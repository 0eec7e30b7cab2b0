//! Deferred expressions: evaluating one returns the expression's value.

use vstd::prelude::*;
use crate::ctx::Context;
use crate::err::Error;
use crate::sql::value::Value;

verus! {

/// Evaluates a deferred expression: the already-computed value is handed
/// back unchanged.
pub fn run(_ctx: &Context, expr: Value) -> (r: Result<Value, Error>)
    ensures
        r is Ok && r->Ok_0 == expr,
{
    Ok(expr)
}

} // verus!
