//! The fetch clause: the paths a statement's results are fetched by.

use vstd::prelude::*;
use crate::err::Error;
use crate::sql::parse::{eat_tag_nc, require_ws, skip_ws};
use crate::sql::part::{spec_idiom_text, Idiom};
use crate::sql::split::basic;

verus! {

broadcast use vstd::std_specs::vec::group_vec_axioms, vstd::seq::group_seq_axioms;

/// One path to fetch.
#[derive(Clone, Debug)]
pub struct Fetch(pub Idiom);

/// The fetch clause: one or more paths.
#[derive(Clone, Debug)]
pub struct Fetchs(pub Vec<Fetch>);

/// The rendered text of the fetches from position `i` on.
pub open spec fn spec_fetchs_from(s: Seq<Fetch>, i: int) -> Seq<char>
    decreases s.len() - i,
{
    if i < 0 || i >= s.len() {
        Seq::empty()
    } else if i == s.len() - 1 {
        spec_idiom_text(s[i].0)
    } else {
        spec_idiom_text(s[i].0) + seq![',', ' '] + spec_fetchs_from(s, i + 1)
    }
}

/// The text of a fetch clause.
pub open spec fn spec_fetchs_text(s: Fetchs) -> Seq<char> {
    seq!['F', 'E', 'T', 'C', 'H', ' '] + spec_fetchs_from(s.0@, 0)
}

impl Fetchs {
    /// Renders the clause.
    #[verifier::loop_isolation(false)]
    pub fn text(&self) -> (r: String)
        ensures
            r@ == spec_fetchs_text(*self),
    {
        proof {
            reveal_strlit("FETCH ");
            reveal_strlit(", ");
        }
        let mut out = String::from_str("FETCH ");
        let n = self.0.len();
        let mut i: usize = 0;
        proof {
            assert(out@ =~= seq!['F', 'E', 'T', 'C', 'H', ' '] + spec_fetchs_prefix(self.0@, 0));
        }
        while i < n
            invariant
                0 <= i <= n == self.0@.len(),
                out@ == seq!['F', 'E', 'T', 'C', 'H', ' '] + spec_fetchs_prefix(
                    self.0@,
                    i as int,
                ),
            decreases n - i,
        {
            if i > 0 {
                out.append(", ");
            }
            out.append(self.0[i].0.text().as_str());
            proof {
                assert(out@ =~= seq!['F', 'E', 'T', 'C', 'H', ' '] + spec_fetchs_prefix(
                    self.0@,
                    i + 1,
                ));
            }
            i = i + 1;
        }
        proof {
            lemma_fetchs_prefix_full(self.0@);
        }
        out
    }
}

/// The rendered text of the first `i` fetches.
pub open spec fn spec_fetchs_prefix(s: Seq<Fetch>, i: int) -> Seq<char>
    decreases i,
{
    if i <= 0 {
        Seq::empty()
    } else if i == 1 {
        spec_idiom_text(s[0].0)
    } else {
        spec_fetchs_prefix(s, i - 1) + seq![',', ' '] + spec_idiom_text(s[i - 1].0)
    }
}

/// The prefix up to `i` and the fetches from `i` make the whole rendering.
proof fn lemma_fetchs_split(s: Seq<Fetch>, i: int)
    requires
        1 <= i <= s.len(),
    ensures
        spec_fetchs_prefix(s, s.len() as int) == spec_fetchs_prefix(s, i) + (if i < s.len() {
            seq![',', ' '] + spec_fetchs_from(s, i)
        } else {
            Seq::empty()
        }),
    decreases s.len() - i,
{
    if i == s.len() {
        assert(spec_fetchs_prefix(s, s.len() as int) =~= spec_fetchs_prefix(s, i)
            + Seq::empty());
    } else {
        lemma_fetchs_split(s, i + 1);
        assert(spec_fetchs_prefix(s, s.len() as int) =~= spec_fetchs_prefix(s, i) + (seq![
            ',',
            ' ',
        ] + spec_fetchs_from(s, i)));
    }
}

/// The full prefix equals the full rendering.
proof fn lemma_fetchs_prefix_full(s: Seq<Fetch>)
    ensures
        spec_fetchs_prefix(s, s.len() as int) == spec_fetchs_from(s, 0),
{
    if s.len() == 0 {
        assert(spec_fetchs_prefix(s, 0) =~= spec_fetchs_from(s, 0));
    } else if s.len() == 1 {
        assert(spec_fetchs_prefix(s, 1) == spec_idiom_text(s[0].0));
    } else {
        lemma_fetchs_split(s, 1);
        assert(spec_fetchs_prefix(s, s.len() as int) =~= spec_fetchs_from(s, 0));
    }
}

/// Reads a fetch clause: the keyword and one or more comma-separated
/// paths.  Hands back what follows the clause.
pub fn fetch(i: &str) -> (r: Result<(String, Fetchs), Error>)
    ensures
        match r {
            Ok(v) => v.1.0@.len() >= 1,
            Err(e) => e == Error::Encoding,
        },
{
    let n = i.unicode_len();
    let p0 = match eat_tag_nc(i, 0, "fetch") {
        Some(p) => p,
        None => {
            return Err(Error::Encoding);
        },
    };
    let p = match require_ws(i, p0) {
        Some(p) => p,
        None => {
            return Err(Error::Encoding);
        },
    };
    let mut items: Vec<Fetch> = Vec::new();
    let (idm, mut q) = match basic(i, p) {
        Some(v) => v,
        None => {
            return Err(Error::Encoding);
        },
    };
    items.push(Fetch(idm));
    loop
        invariant
            q <= n == i@.len(),
            items@.len() >= 1,
        decreases i@.len() - q,
    {
        let ws = skip_ws(i, q);
        if ws >= n {
            break ;
        }
        let c = i.get_char(ws);
        if !(c == ',') {
            break ;
        }
        let after = skip_ws(i, ws + 1);
        match basic(i, after) {
            Some((idm2, q2)) => {
                items.push(Fetch(idm2));
                if q2 <= q {
                    break ;
                }
                q = q2;
            },
            None => {
                return Err(Error::Encoding);
            },
        }
    }
    let rest = i.substring_char(q, n);
    Ok((rest.to_owned(), Fetchs(items)))
}

} // verus!
