//! The write buffer: the per-transaction accumulator of record-level
//! mutations.  It is owned by one in-flight transaction, appends and never
//! merges, and is drained exactly once at commit.

use vstd::prelude::*;
use crate::err::Error;
use crate::key::valid_seg_chars;
use crate::key::cf::{spec_cf_root, versionstamped_key_prefix, versionstamped_key_suffix};
use crate::key::tt::spec_tt_key;
use crate::sql::changefeed::{tm_eq, tms_eq, TableMutation, TableMutations};
use crate::sql::value::{Thing, Value};
use crate::text::bytes_of_chars;

verus! {

broadcast use vstd::std_specs::vec::group_vec_axioms, vstd::seq::group_seq_axioms;

/// The index of the mutation list of a table, or -1 when the table has no
/// list yet.
pub open spec fn find_tb(s: Seq<TableMutations>, tb: Seq<char>) -> int
    decreases s.len(),
{
    if s.len() == 0 {
        -1
    } else if s.first().0@ == tb {
        0
    } else {
        let r = find_tb(s.drop_first(), tb);
        if r == -1 {
            -1
        } else {
            r + 1
        }
    }
}

/// The found index is in range and names the table, and no earlier entry
/// does.
pub proof fn lemma_find_tb(s: Seq<TableMutations>, tb: Seq<char>)
    ensures
        find_tb(s, tb) == -1 ==> (forall|i: int| 0 <= i < s.len() ==> (#[trigger] s[i]).0@ != tb),
        find_tb(s, tb) != -1 ==> 0 <= find_tb(s, tb) < s.len() && s[find_tb(s, tb)].0@ == tb && (
        forall|i: int| 0 <= i < find_tb(s, tb) ==> (#[trigger] s[i]).0@ != tb),
    decreases s.len(),
{
    if s.len() > 0 {
        lemma_find_tb(s.drop_first(), tb);
        assert(forall|i: int|
            1 <= i < s.len() ==> #[trigger] s[i] == s.drop_first()[i - 1]);
    }
}

/// The per-transaction buffer of table mutations, keyed by table name.
pub struct Buffer {
    /// One mutation list per touched table, in first-touch order.
    pub b: Vec<TableMutations>,
}

impl Buffer {
    /// Every table has at most one mutation list.
    pub open spec fn wf(self) -> bool {
        forall|i: int, j: int|
            0 <= i < j < self.b@.len() ==> (#[trigger] self.b@[i]).0@ != (
            #[trigger] self.b@[j]).0@
    }

    /// An empty buffer.
    pub fn new() -> (r: Buffer)
        ensures
            r.b@.len() == 0,
            r.wf(),
    {
        Buffer { b: Vec::new() }
    }

    /// Appends one mutation to the table's list, creating the list on the
    /// table's first touch.  Prior entries are never overwritten or merged.
    #[verifier::loop_isolation(false)]
    pub fn push(&mut self, tb: String, m: TableMutation)
        requires
            old(self).wf(),
        ensures
            final(self).wf(),
            ({
                let j = find_tb(old(self).b@, tb@);
                if j == -1 {
                    &&& final(self).b@.len() == old(self).b@.len() + 1
                    &&& (forall|k: int|
                        0 <= k < old(self).b@.len() ==> final(self).b@[k] == old(self).b@[k])
                    &&& final(self).b@.last().0@ == tb@
                    &&& final(self).b@.last().1@.len() == 1
                    &&& tm_eq(final(self).b@.last().1@[0], m)
                } else {
                    &&& final(self).b@.len() == old(self).b@.len()
                    &&& (forall|k: int|
                        0 <= k < old(self).b@.len() && k != j ==> final(self).b@[k] == old(
                            self,
                        ).b@[k])
                    &&& final(self).b@[j].0 == old(self).b@[j].0
                    &&& final(self).b@[j].1@ == old(self).b@[j].1@.push(m)
                }
            }),
    {
        proof {
            lemma_find_tb(self.b@, tb@);
        }
        let n = self.b.len();
        let mut i: usize = 0;
        while i < n
            invariant
                self.b@ == old(self).b@,
                0 <= i <= n == self.b@.len(),
                forall|k: int| 0 <= k < i ==> (#[trigger] self.b@[k]).0@ != tb@,
            decreases n - i,
        {
            if crate::text::str_eq(self.b[i].0.as_str(), tb.as_str()) {
                proof {
                    assert(self.b@[i as int].0@ == tb@);
                    let j = find_tb(self.b@, tb@);
                    if j == -1 {
                        assert(self.b@[i as int].0@ != tb@);
                        assert(false);
                    }
                    if j < i as int {
                        assert(self.b@[j].0@ == tb@);
                        assert(false);
                    }
                    if j > i as int {
                        assert(self.b@[i as int].0@ != tb@);
                        assert(false);
                    }
                }
                let ghost old_b = self.b@;
                let mut tms = self.b.remove(i);
                proof {
                    assert(tms == old_b[i as int]);
                }
                tms.1.push(m);
                self.b.insert(i, tms);
                proof {
                    assert(self.b@ =~= old_b.update(i as int, self.b@[i as int]));
                    assert(self.b@[i as int].0 == old_b[i as int].0);
                    assert(forall|k: int|
                        0 <= k < old_b.len() && k != i ==> #[trigger] self.b@[k] == old_b[k]);
                    assert(find_tb(old_b, tb@) == i as int);
                }
                return ;
            }
            i = i + 1;
        }
        proof {
            assert(find_tb(self.b@, tb@) == -1);
            match &m {
                TableMutation::Put(_t, v) => {
                    crate::sql::value::lemma_val_exact_refl(*v);
                },
                TableMutation::Del(_t) => {},
            }
            assert(tm_eq(m, m));
        }
        let mut tms = TableMutations::new(tb);
        tms.1.push(m);
        self.b.push(tms);
    }
}

/// The helper that buffers table mutations for one transaction and hands
/// them out as durable write requests at commit time.
pub struct Writer {
    /// The mutation buffer.
    pub buf: Buffer,
}

impl Writer {
    /// A writer with an empty buffer.
    pub fn new() -> (r: Writer)
        ensures
            r.buf.b@.len() == 0,
            r.buf.wf(),
    {
        Writer { buf: Buffer::new() }
    }

    /// Records one record-level change: a present value appends a put, an
    /// absent one appends a delete.
    pub fn update(&mut self, tb: String, id: Thing, v: Value)
        requires
            old(self).buf.wf(),
        ensures
            final(self).buf.wf(),
            ({
                let m = if v is Nothing {
                    TableMutation::Del(id)
                } else {
                    TableMutation::Put(id, v)
                };
                let j = find_tb(old(self).buf.b@, tb@);
                if j == -1 {
                    &&& final(self).buf.b@.len() == old(self).buf.b@.len() + 1
                    &&& (forall|k: int|
                        0 <= k < old(self).buf.b@.len() ==> final(self).buf.b@[k] == old(
                            self,
                        ).buf.b@[k])
                    &&& final(self).buf.b@.last().0@ == tb@
                    &&& final(self).buf.b@.last().1@.len() == 1
                    &&& tm_eq(final(self).buf.b@.last().1@[0], m)
                } else {
                    &&& final(self).buf.b@.len() == old(self).buf.b@.len()
                    &&& (forall|k: int|
                        0 <= k < old(self).buf.b@.len() && k != j ==> final(self).buf.b@[k]
                            == old(self).buf.b@[k])
                    &&& final(self).buf.b@[j].0 == old(self).buf.b@[j].0
                    &&& final(self).buf.b@[j].1@ == old(self).buf.b@[j].1@.push(m)
                }
            }),
    {
        if v.is_some() {
            self.buf.push(tb, TableMutation::Put(id, v));
        } else {
            self.buf.push(tb, TableMutation::Del(id));
        }
    }

    /// Whether a flush of this buffer can encode all its keys: the scope
    /// segments and every buffered table name are valid key segments.
    pub open spec fn flushable(self, ns: Seq<char>, db: Seq<char>) -> bool {
        &&& valid_seg_chars(ns)
        &&& valid_seg_chars(db)
        &&& (forall|b: int|
            0 <= b < self.buf.b@.len() ==> valid_seg_chars((#[trigger] self.buf.b@[b]).0@))
    }

    /// Hands out the buffered mutations as one durable write request per
    /// touched table: the scope's timestamp-handle key, the versionstamped
    /// key prefix, the table-specific key suffix, and the mutations.  The
    /// versionstamp segment itself is resolved by the backing store at
    /// commit time.  Fails exactly when the buffer is non-empty and a
    /// segment cannot stand in a key; an empty buffer always flushes to an
    /// empty request list.
    #[verifier::loop_isolation(false)]
    pub fn get(&self, ns: &str, db: &str) -> (r: Result<
        Vec<(Vec<u8>, Vec<u8>, Vec<u8>, TableMutations)>,
        Error,
    >)
        ensures
            match r {
                Ok(out) => {
                    &&& out@.len() == self.buf.b@.len()
                    &&& (self.buf.b@.len() > 0 ==> self.flushable(ns@, db@))
                    &&& (forall|i: int|
                        0 <= i < out@.len() ==> {
                            let e = #[trigger] out@[i];
                            &&& e.0@ == spec_tt_key(bytes_of_chars(ns@), bytes_of_chars(db@))
                            &&& e.1@ == spec_cf_root(bytes_of_chars(ns@), bytes_of_chars(db@))
                            &&& valid_seg_chars(self.buf.b@[i].0@)
                            &&& e.2@ == seq![42u8] + bytes_of_chars(self.buf.b@[i].0@) + seq![
                                0u8,
                            ]
                            &&& tms_eq(e.3, self.buf.b@[i])
                        })
                },
                Err(e) => {
                    &&& e == Error::Encoding
                    &&& self.buf.b@.len() > 0
                    &&& !self.flushable(ns@, db@)
                },
            },
    {
        let mut r: Vec<(Vec<u8>, Vec<u8>, Vec<u8>, TableMutations)> = Vec::new();
        let n = self.buf.b.len();
        let mut i: usize = 0;
        while i < n
            invariant
                0 <= i <= n == self.buf.b@.len(),
                r@.len() == i,
                i > 0 ==> valid_seg_chars(ns@) && valid_seg_chars(db@),
                forall|k: int|
                    0 <= k < i ==> {
                        let e = #[trigger] r@[k];
                        &&& e.0@ == spec_tt_key(bytes_of_chars(ns@), bytes_of_chars(db@))
                        &&& e.1@ == spec_cf_root(bytes_of_chars(ns@), bytes_of_chars(db@))
                        &&& valid_seg_chars(self.buf.b@[k].0@)
                        &&& e.2@ == seq![42u8] + bytes_of_chars(self.buf.b@[k].0@) + seq![0u8]
                        &&& tms_eq(e.3, self.buf.b@[k])
                    },
            decreases n - i,
        {
            let tt = crate::key::tt::Tt::new(ns.to_owned(), db.to_owned());
            let ts_key = match tt.encode() {
                Ok(k) => k,
                Err(e) => {
                    return Err(e);
                },
            };
            let prefix = match versionstamped_key_prefix(ns, db) {
                Ok(k) => k,
                Err(e) => {
                    return Err(e);
                },
            };
            let suffix = match versionstamped_key_suffix(self.buf.b[i].0.as_str()) {
                Ok(k) => k,
                Err(e) => {
                    proof {
                        assert(!valid_seg_chars(self.buf.b@[i as int].0@));
                    }
                    return Err(e);
                },
            };
            let muts = self.buf.b[i].clone();
            let ghost g0 = ts_key@;
            let ghost g1 = prefix@;
            let ghost g2 = suffix@;
            let ghost gm = muts;
            proof {
                assert(g0 == spec_tt_key(bytes_of_chars(ns@), bytes_of_chars(db@)));
                assert(g1 == spec_cf_root(bytes_of_chars(ns@), bytes_of_chars(db@)));
                assert(valid_seg_chars(self.buf.b@[i as int].0@));
                assert(g2 == seq![42u8] + bytes_of_chars(self.buf.b@[i as int].0@) + seq![0u8]);
                assert(tms_eq(gm, self.buf.b@[i as int]));
            }
            r.push((ts_key, prefix, suffix, muts));
            proof {
                assert(r@[i as int].0@ == g0);
                assert(r@[i as int].1@ == g1);
                assert(r@[i as int].2@ == g2);
                assert(r@[i as int].3 == gm);
            }
            i = i + 1;
        }
        proof {
            if n > 0 {
                assert forall|b: int| 0 <= b < self.buf.b@.len() implies valid_seg_chars(
                    (#[trigger] self.buf.b@[b]).0@,
                ) by {
                    assert(r@[b].0@ == spec_tt_key(bytes_of_chars(ns@), bytes_of_chars(db@)));
                }
            }
        }
        Ok(r)
    }
}

} // verus!
