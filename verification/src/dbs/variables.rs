//! Named variables attached to an evaluation context.

use vstd::prelude::*;
use crate::ctx::Context;
use crate::sql::value::Value;

verus! {

broadcast use vstd::std_specs::vec::group_vec_axioms, vstd::seq::group_seq_axioms;

/// The variables of one request: absent, or a list of named values.
pub type Variables = Option<Vec<(String, Value)>>;

/// What can be attached to a context.
pub trait Attach {
    /// Adds these values to the context, in order.
    fn attach(self, ctx: Context) -> Context;
}

impl Attach for Variables {
    /// Adds every named value to the context; an absent set leaves the
    /// context as it is.
    fn attach(self, ctx: Context) -> (r: Context)
        ensures
            self is Some ==> r.values@ == ctx.values@ + self->0@,
            self is None ==> r == ctx,
    {
        match self {
            Some(m) => {
                let mut out = ctx;
                let n = m.len();
                let mut m = m;
                let ghost all = m@;
                let mut i: usize = 0;
                proof {
                    assert(out.values@ =~= ctx.values@ + all.subrange(0, 0));
                }
                while i < n
                    invariant
                        0 <= i <= n == all.len(),
                        m@ == all.subrange(i as int, n as int),
                        out.values@ == ctx.values@ + all.subrange(0, i as int),
                    decreases n - i,
                {
                    let (key, val) = m.remove(0);
                    proof {
                        assert(all.subrange(i as int, n as int)[0] == all[i as int]);
                        assert(m@ =~= all.subrange(i + 1, n as int));
                    }
                    out.add_value(key, val);
                    proof {
                        assert(out.values@ =~= ctx.values@ + all.subrange(0, i + 1));
                    }
                    i = i + 1;
                }
                proof {
                    assert(all.subrange(0, n as int) =~= all);
                }
                out
            },
            None => ctx,
        }
    }
}

} // verus!
