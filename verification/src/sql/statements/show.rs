//! The statement that reads the change feed: what scope to read, from
//! which versionstamp, and how many raw entries at most.

use vstd::prelude::*;
use crate::err::Error;
use crate::sql::parse::{digits_value, eat_tag_nc, parse_ident, parse_u64, require_ws, skip_ws};
use crate::text::{spec_udigits, u64_text};

verus! {

broadcast use vstd::std_specs::vec::group_vec_axioms, vstd::seq::group_seq_axioms;

/// A request to show changes: of one table or the whole database, from an
/// optional versionstamp floor, bounded by an optional limit.
#[derive(Clone, Debug, PartialEq, Eq)]
pub struct ShowStatement {
    /// The table to show, or the whole database.
    pub table: Option<String>,
    /// The versionstamp floor.
    pub since: Option<u64>,
    /// The raw-entry bound of the read.
    pub limit: Option<u32>,
}

/// The text of a show statement, in its canonical keyword form.
pub open spec fn spec_show_text(s: ShowStatement) -> Seq<char> {
    let head = seq![
        'S', 'H', 'O', 'W', ' ', 'C', 'H', 'A', 'N', 'G', 'E', 'S', ' ', 'F', 'O', 'R',
    ];
    let scope: Seq<char> = match s.table {
        Some(t) => seq![' ', 'T', 'A', 'B', 'L', 'E', ' '] + t@,
        None => seq![' ', 'D', 'A', 'T', 'A', 'B', 'A', 'S', 'E'],
    };
    let since: Seq<char> = match s.since {
        Some(v) => seq![' ', 'S', 'I', 'N', 'C', 'E', ' '] + spec_udigits(v as nat),
        None => Seq::empty(),
    };
    let limit: Seq<char> = match s.limit {
        Some(v) => seq![' ', 'L', 'I', 'M', 'I', 'T', ' '] + spec_udigits(v as nat),
        None => Seq::empty(),
    };
    head + scope + since + limit
}

impl ShowStatement {
    /// Renders the statement in its canonical form.
    pub fn text(&self) -> (r: String)
        ensures
            r@ == spec_show_text(*self),
    {
        proof {
            reveal_strlit("SHOW CHANGES FOR");
            reveal_strlit(" TABLE ");
            reveal_strlit(" DATABASE");
            reveal_strlit(" SINCE ");
            reveal_strlit(" LIMIT ");
        }
        let mut out = String::from_str("SHOW CHANGES FOR");
        match &self.table {
            Some(t) => {
                out.append(" TABLE ");
                out.append(t.as_str());
            },
            None => {
                out.append(" DATABASE");
            },
        }
        match &self.since {
            Some(v) => {
                out.append(" SINCE ");
                out.append(u64_text(*v).as_str());
            },
            None => {},
        }
        match &self.limit {
            Some(v) => {
                out.append(" LIMIT ");
                out.append(u64_text(*v as u64).as_str());
            },
            None => {},
        }
        proof {
            assert(out@ =~= spec_show_text(*self));
        }
        out
    }
}

/// Reads the scope of a show statement: a named table, or the whole
/// database.
pub fn table_or_database(i: &str, pos: usize) -> (r: Option<(Option<String>, usize)>)
    requires
        pos <= i@.len(),
    ensures
        match r {
            Some(v) => pos < v.1 <= i@.len(),
            None => true,
        },
{
    proof {
        reveal_strlit("table");
        reveal_strlit("database");
    }
    match eat_tag_nc(i, pos, "table") {
        Some(p) => {
            let p2 = match require_ws(i, p) {
                Some(p2) => p2,
                None => {
                    return None;
                },
            };
            match parse_ident(i, p2) {
                Some((name, p3)) => Some((Some(name), p3)),
                None => None,
            }
        },
        None => {
            match eat_tag_nc(i, pos, "database") {
                Some(p) => Some((None, p)),
                None => None,
            }
        },
    }
}

/// Reads a `SINCE` clause: the keyword and a versionstamp floor.
pub fn since(i: &str, pos: usize) -> (r: Option<(u64, usize)>)
    requires
        pos <= i@.len(),
    ensures
        match r {
            Some(v) => pos < v.1 <= i@.len(),
            None => true,
        },
{
    let p = match eat_tag_nc(i, pos, "since") {
        Some(p) => p,
        None => {
            return None;
        },
    };
    let p2 = match require_ws(i, p) {
        Some(p2) => p2,
        None => {
            return None;
        },
    };
    parse_u64(i, p2)
}

/// Reads a `LIMIT` clause: the keyword and a raw-entry bound.
pub fn limit(i: &str, pos: usize) -> (r: Option<(u32, usize)>)
    requires
        pos <= i@.len(),
    ensures
        match r {
            Some(v) => pos < v.1 <= i@.len(),
            None => true,
        },
{
    let p = match eat_tag_nc(i, pos, "limit") {
        Some(p) => p,
        None => {
            return None;
        },
    };
    let p2 = match require_ws(i, p) {
        Some(p2) => p2,
        None => {
            return None;
        },
    };
    match parse_u64(i, p2) {
        Some((v, p3)) => {
            if v > u32::MAX as u64 {
                None
            } else {
                Some((v as u32, p3))
            }
        },
        None => None,
    }
}

/// Reads a whole show statement.  Hands back what follows it.
pub fn show(i: &str) -> (r: Result<(String, ShowStatement), Error>)
    ensures
        r is Err ==> r->Err_0 == Error::Encoding,
{
    let n = i.unicode_len();
    let p0 = match eat_tag_nc(i, 0, "show changes") {
        Some(p) => p,
        None => {
            return Err(Error::Encoding);
        },
    };
    let p1 = match require_ws(i, p0) {
        Some(p) => p,
        None => {
            return Err(Error::Encoding);
        },
    };
    let p2 = match eat_tag_nc(i, p1, "for") {
        Some(p) => p,
        None => {
            return Err(Error::Encoding);
        },
    };
    let p3 = match require_ws(i, p2) {
        Some(p) => p,
        None => {
            return Err(Error::Encoding);
        },
    };
    let (table, mut q) = match table_or_database(i, p3) {
        Some(v) => v,
        None => {
            return Err(Error::Encoding);
        },
    };
    let mut since_v: Option<u64> = None;
    match require_ws(i, q) {
        Some(p4) => {
            match since(i, p4) {
                Some((v, p5)) => {
                    since_v = Some(v);
                    q = p5;
                },
                None => {},
            }
        },
        None => {},
    }
    let mut limit_v: Option<u32> = None;
    match require_ws(i, q) {
        Some(p6) => {
            match limit(i, p6) {
                Some((v, p7)) => {
                    limit_v = Some(v);
                    q = p7;
                },
                None => {},
            }
        },
        None => {},
    }
    let rest = i.substring_char(q, n);
    Ok((rest.to_owned(), ShowStatement { table, since: since_v, limit: limit_v }))
}

} // verus!
