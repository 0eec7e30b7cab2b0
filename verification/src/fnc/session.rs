//! Readings from the session object of the evaluation context.

use vstd::prelude::*;
use crate::ctx::{ctx_lookup, Context};
use crate::err::Error;
use crate::sql::part::{spec_step, Part};
use crate::sql::value::{val_exact, Value};

verus! {

/// Reads one field of the context's session object.
fn session_field(ctx: &Context, name: &str) -> (r: Value)
    ensures
        ({
            match ctx_lookup(ctx.values@, "session"@) {
                Some(v) => exists|p: Part|
                    p is Field && p->Field_0@ == name@ && val_exact(r, #[trigger] spec_step(v, p)),
                None => r is Nothing,
            }
        }),
{
    match ctx.value("session") {
        Some(v) => {
            let p = Part::Field(name.to_owned());
            let out = v.step(&p);
            proof {
                assert(p is Field && p->Field_0@ == name@ && val_exact(
                    out,
                    spec_step(*v, p),
                ));
            }
            out
        },
        None => Value::Nothing,
    }
}

/// The session's database.
pub fn db(ctx: &Context, _args: Vec<Value>) -> (r: Result<Value, Error>)
    ensures
        r is Ok,
        ctx_lookup(ctx.values@, "session"@) is None ==> r->Ok_0 is Nothing,
{
    Ok(session_field(ctx, "db"))
}

/// The session's identifier.
pub fn id(ctx: &Context, _args: Vec<Value>) -> (r: Result<Value, Error>)
    ensures
        r is Ok,
        ctx_lookup(ctx.values@, "session"@) is None ==> r->Ok_0 is Nothing,
{
    Ok(session_field(ctx, "id"))
}

/// The session's client address.
pub fn ip(ctx: &Context, _args: Vec<Value>) -> (r: Result<Value, Error>)
    ensures
        r is Ok,
        ctx_lookup(ctx.values@, "session"@) is None ==> r->Ok_0 is Nothing,
{
    Ok(session_field(ctx, "ip"))
}

/// The session's namespace.
pub fn ns(ctx: &Context, _args: Vec<Value>) -> (r: Result<Value, Error>)
    ensures
        r is Ok,
        ctx_lookup(ctx.values@, "session"@) is None ==> r->Ok_0 is Nothing,
{
    Ok(session_field(ctx, "ns"))
}

/// The session's origin.
pub fn origin(ctx: &Context, _args: Vec<Value>) -> (r: Result<Value, Error>)
    ensures
        r is Ok,
        ctx_lookup(ctx.values@, "session"@) is None ==> r->Ok_0 is Nothing,
{
    Ok(session_field(ctx, "or"))
}

/// The session's scope.
pub fn sc(ctx: &Context, _args: Vec<Value>) -> (r: Result<Value, Error>)
    ensures
        r is Ok,
        ctx_lookup(ctx.values@, "session"@) is None ==> r->Ok_0 is Nothing,
{
    Ok(session_field(ctx, "sc"))
}

} // verus!
