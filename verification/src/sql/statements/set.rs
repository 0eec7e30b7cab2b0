//! The statement that binds a value to a name.

use vstd::prelude::*;
use crate::err::Error;
use crate::sql::fmt::spec_val_text;
use crate::sql::number::Number;
use crate::sql::parse::{eat_tag_nc, parse_ident, parse_u64, require_ws, skip_ws};
use crate::sql::value::Value;

verus! {

/// A binding of a value to a name.
#[derive(Clone, Debug)]
pub struct SetStatement {
    /// The name bound.
    pub name: String,
    /// The value bound to it.
    pub what: Value,
}

impl SetStatement {
    /// Whether computing the bound value writes anything: plain values
    /// never do.
    pub fn writeable(&self) -> (r: bool)
        ensures
            !r,
    {
        false
    }

    /// The text of the statement.
    pub fn text(&self) -> (r: String)
        ensures
            r@ == seq!['L', 'E', 'T', ' ', '$'] + self.name@ + seq![' ', '=', ' ']
                + spec_val_text(self.what),
    {
        proof {
            reveal_strlit("LET $");
            reveal_strlit(" = ");
        }
        let mut out = String::from_str("LET $");
        out.append(self.name.as_str());
        out.append(" = ");
        out.append(self.what.text().as_str());
        proof {
            assert(out@ =~= seq!['L', 'E', 'T', ' ', '$'] + self.name@ + seq![' ', '=', ' ']
                + spec_val_text(self.what));
        }
        out
    }
}

/// Reads a plain literal value: the simple keywords or a whole number.
/// The full expression grammar belongs to the statement layer outside
/// this library.
pub fn plain_value(i: &str, pos: usize) -> (r: Option<(Value, usize)>)
    requires
        pos <= i@.len(),
    ensures
        match r {
            Some(v) => pos < v.1 <= i@.len(),
            None => true,
        },
{
    proof {
        reveal_strlit("null");
        reveal_strlit("none");
        reveal_strlit("true");
        reveal_strlit("false");
    }
    match eat_tag_nc(i, pos, "null") {
        Some(p) => {
            return Some((Value::Null, p));
        },
        None => {},
    }
    match eat_tag_nc(i, pos, "none") {
        Some(p) => {
            return Some((Value::Nothing, p));
        },
        None => {},
    }
    match eat_tag_nc(i, pos, "true") {
        Some(p) => {
            return Some((Value::True, p));
        },
        None => {},
    }
    match eat_tag_nc(i, pos, "false") {
        Some(p) => {
            return Some((Value::False, p));
        },
        None => {},
    }
    match parse_u64(i, pos) {
        Some((v, p)) => {
            if v <= i64::MAX as u64 {
                return Some((Value::Number(Number::Int(v as i64)), p));
            }
            return None;
        },
        None => {},
    }
    None
}

/// Reads a binding statement: `LET`, a `$`-prefixed name, `=`, and a plain
/// value.  Hands back what follows it.
pub fn set(i: &str) -> (r: Result<(String, SetStatement), Error>)
    ensures
        r is Err ==> r->Err_0 == Error::Encoding,
{
    let n = i.unicode_len();
    let p0 = match eat_tag_nc(i, 0, "let") {
        Some(p) => p,
        None => {
            return Err(Error::Encoding);
        },
    };
    let p1 = match require_ws(i, p0) {
        Some(p) => p,
        None => {
            return Err(Error::Encoding);
        },
    };
    if p1 >= n {
        return Err(Error::Encoding);
    }
    let c = i.get_char(p1);
    if !(c == '$') {
        return Err(Error::Encoding);
    }
    let (name, p2) = match parse_ident(i, p1 + 1) {
        Some(v) => v,
        None => {
            return Err(Error::Encoding);
        },
    };
    let p3 = skip_ws(i, p2);
    if p3 >= n {
        return Err(Error::Encoding);
    }
    let eq = i.get_char(p3);
    if !(eq == '=') {
        return Err(Error::Encoding);
    }
    let p4 = skip_ws(i, p3 + 1);
    let (what, p5) = match plain_value(i, p4) {
        Some(v) => v,
        None => {
            return Err(Error::Encoding);
        },
    };
    let rest = i.substring_char(p5, n);
    Ok((rest.to_owned(), SetStatement { name, what }))
}

} // verus!
