//! The split clause: the paths a statement's results are split on.

use vstd::prelude::*;
use crate::err::Error;
use crate::sql::parse::{eat_tag_nc, is_ident_char, parse_ident, require_ws, skip_ws};
use crate::sql::part::{spec_idiom_text, Idiom, Part};

verus! {

broadcast use vstd::std_specs::vec::group_vec_axioms, vstd::seq::group_seq_axioms;

/// One path to split on.
#[derive(Clone, Debug)]
pub struct Split(pub Idiom);

/// The split clause: one or more paths.
#[derive(Clone, Debug)]
pub struct Splits(pub Vec<Split>);

/// The rendered text of the splits from position `i` on.
pub open spec fn spec_splits_from(s: Seq<Split>, i: int) -> Seq<char>
    decreases s.len() - i,
{
    if i < 0 || i >= s.len() {
        Seq::empty()
    } else if i == s.len() - 1 {
        spec_idiom_text(s[i].0)
    } else {
        spec_idiom_text(s[i].0) + seq![',', ' '] + spec_splits_from(s, i + 1)
    }
}

/// The text of a split clause, always in its canonical keyword form.
pub open spec fn spec_splits_text(s: Splits) -> Seq<char> {
    seq!['S', 'P', 'L', 'I', 'T', ' ', 'O', 'N', ' '] + spec_splits_from(s.0@, 0)
}

impl Splits {
    /// Renders the clause in its canonical form.
    #[verifier::loop_isolation(false)]
    pub fn text(&self) -> (r: String)
        ensures
            r@ == spec_splits_text(*self),
    {
        proof {
            reveal_strlit("SPLIT ON ");
            reveal_strlit(", ");
        }
        let mut out = String::from_str("SPLIT ON ");
        let n = self.0.len();
        let mut i: usize = 0;
        proof {
            assert(out@ =~= seq!['S', 'P', 'L', 'I', 'T', ' ', 'O', 'N', ' ']
                + spec_splits_prefix(self.0@, 0));
        }
        while i < n
            invariant
                0 <= i <= n == self.0@.len(),
                out@ == seq!['S', 'P', 'L', 'I', 'T', ' ', 'O', 'N', ' '] + spec_splits_prefix(
                    self.0@,
                    i as int,
                ),
            decreases n - i,
        {
            if i > 0 {
                out.append(", ");
            }
            out.append(self.0[i].0.text().as_str());
            proof {
                assert(out@ =~= seq!['S', 'P', 'L', 'I', 'T', ' ', 'O', 'N', ' ']
                    + spec_splits_prefix(self.0@, i + 1));
            }
            i = i + 1;
        }
        proof {
            lemma_splits_prefix_full(self.0@);
        }
        out
    }
}

/// The rendered text of the first `i` splits.
pub open spec fn spec_splits_prefix(s: Seq<Split>, i: int) -> Seq<char>
    decreases i,
{
    if i <= 0 {
        Seq::empty()
    } else if i == 1 {
        spec_idiom_text(s[0].0)
    } else {
        spec_splits_prefix(s, i - 1) + seq![',', ' '] + spec_idiom_text(s[i - 1].0)
    }
}

/// The prefix up to `i` and the splits from `i` make the whole rendering.
proof fn lemma_splits_split(s: Seq<Split>, i: int)
    requires
        1 <= i <= s.len(),
    ensures
        spec_splits_prefix(s, s.len() as int) == spec_splits_prefix(s, i) + (if i < s.len() {
            seq![',', ' '] + spec_splits_from(s, i)
        } else {
            Seq::empty()
        }),
    decreases s.len() - i,
{
    if i == s.len() {
        assert(spec_splits_prefix(s, s.len() as int) =~= spec_splits_prefix(s, i)
            + Seq::empty());
    } else {
        lemma_splits_split(s, i + 1);
        if i + 1 < s.len() {
            assert(spec_splits_prefix(s, s.len() as int) =~= spec_splits_prefix(s, i) + (seq![
                ',',
                ' ',
            ] + spec_splits_from(s, i)));
        } else {
            assert(spec_splits_prefix(s, s.len() as int) =~= spec_splits_prefix(s, i) + (seq![
                ',',
                ' ',
            ] + spec_splits_from(s, i)));
        }
    }
}

/// The full prefix equals the full rendering.
proof fn lemma_splits_prefix_full(s: Seq<Split>)
    ensures
        spec_splits_prefix(s, s.len() as int) == spec_splits_from(s, 0),
{
    if s.len() == 0 {
        assert(spec_splits_prefix(s, 0) =~= spec_splits_from(s, 0));
    } else if s.len() == 1 {
        assert(spec_splits_prefix(s, 1) == spec_idiom_text(s[0].0));
    } else {
        lemma_splits_split(s, 1);
        assert(spec_splits_prefix(s, s.len() as int) =~= spec_splits_from(s, 0));
    }
}

/// Reads a dotted path of field names.
pub fn basic(i: &str, pos: usize) -> (r: Option<(Idiom, usize)>)
    requires
        pos <= i@.len(),
    ensures
        match r {
            Some(v) => pos < v.1 <= i@.len() && v.0.0@.len() >= 1 && (forall|k: int|
                0 <= k < v.0.0@.len() ==> (#[trigger] v.0.0@[k]) is Field),
            None => pos == i@.len() || !is_ident_char(i@[pos as int]),
        },
{
    let n = i.unicode_len();
    let (first, mut p) = match parse_ident(i, pos) {
        Some(v) => v,
        None => {
            return None;
        },
    };
    let mut parts: Vec<Part> = Vec::new();
    parts.push(Part::Field(first));
    while p < n
        invariant
            pos < p <= n == i@.len(),
            parts@.len() >= 1,
            forall|k: int| 0 <= k < parts@.len() ==> (#[trigger] parts@[k]) is Field,
        decreases n - p,
    {
        let c = i.get_char(p);
        if !(c == '.') {
            return Some((Idiom(parts), p));
        }
        match parse_ident(i, p + 1) {
            Some((name, np)) => {
                parts.push(Part::Field(name));
                p = np;
            },
            None => {
                return Some((Idiom(parts), p));
            },
        }
    }
    Some((Idiom(parts), p))
}

/// Reads a split clause: the keyword, an optional `ON`, and one or more
/// comma-separated paths.  Hands back what follows the clause.
pub fn split(i: &str) -> (r: Result<(String, Splits), Error>)
    ensures
        match r {
            Ok(v) => v.1.0@.len() >= 1,
            Err(e) => e == Error::Encoding,
        },
{
    let n = i.unicode_len();
    let p0 = match eat_tag_nc(i, 0, "split") {
        Some(p) => p,
        None => {
            return Err(Error::Encoding);
        },
    };
    let mut p = match require_ws(i, p0) {
        Some(p) => p,
        None => {
            return Err(Error::Encoding);
        },
    };
    match eat_tag_nc(i, p, "on") {
        Some(p2) => {
            match require_ws(i, p2) {
                Some(p3) => {
                    p = p3;
                },
                None => {},
            }
        },
        None => {},
    }
    let mut items: Vec<Split> = Vec::new();
    let (idm, mut q) = match basic(i, p) {
        Some(v) => v,
        None => {
            return Err(Error::Encoding);
        },
    };
    items.push(Split(idm));
    loop
        invariant
            q <= n == i@.len(),
            items@.len() >= 1,
        decreases i@.len() - q,
    {
        let ws = skip_ws(i, q);
        if ws >= n {
            break ;
        }
        let c = i.get_char(ws);
        if !(c == ',') {
            break ;
        }
        let after = skip_ws(i, ws + 1);
        match basic(i, after) {
            Some((idm2, q2)) => {
                items.push(Split(idm2));
                if q2 <= q {
                    break ;
                }
                q = q2;
            },
            None => {
                return Err(Error::Encoding);
            },
        }
    }
    let rest = i.substring_char(q, n);
    Ok((rest.to_owned(), Splits(items)))
}

} // verus!
