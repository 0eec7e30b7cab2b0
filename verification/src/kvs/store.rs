//! An ordered, transactional key-value store model for the change feed.
//!
//! Entries are kept strictly sorted by key.  Each (namespace, database)
//! scope carries a commit counter; completing a transaction's changes
//! stamps the buffered mutations with the next counter value, so one
//! commit produces exactly one versionstamp.

use vstd::prelude::*;
use crate::cf::writer::{find_tb, Writer};
use crate::err::Error;
use crate::key::cf::{cf_encodable, is_cf_key, spec_cf_fields, spec_cf_key};
use crate::key::valid_seg_chars;
use crate::sql::changefeed::{tms_eq, ChangeFeed, TableMutations};
use crate::sql::value::{Thing, Value};
use crate::text::bytes_of_chars;
use crate::vs::{be_num, lex_lt, u64_to_versionstamp, Versionstamp};

verus! {

broadcast use vstd::std_specs::vec::group_vec_axioms, vstd::seq::group_seq_axioms;

/// What the change feed needs to know of a table definition: its name and
/// its change-feed option.
#[derive(Clone, Debug)]
pub struct TableDefinition {
    /// The table name.
    pub name: String,
    /// The change-feed option.
    pub changefeed: ChangeFeed,
}

/// One stored entry: an encoded change-feed key and the mutations of one
/// table in one commit.
pub type Entry = (Vec<u8>, TableMutations);

/// Whether a key lies in the half-open range `[beg, end)`.
pub open spec fn in_range(k: Seq<u8>, beg: Seq<u8>, end: Seq<u8>) -> bool {
    !lex_lt(k, beg) && lex_lt(k, end)
}

/// The first `lim` entries whose keys lie in `[beg, end)`, in order.
pub open spec fn spec_scan(s: Seq<Entry>, beg: Seq<u8>, end: Seq<u8>, lim: nat) -> Seq<Entry>
    decreases s.len(),
{
    if s.len() == 0 || lim == 0 {
        Seq::empty()
    } else if in_range(s.first().0@, beg, end) {
        seq![s.first()] + spec_scan(s.drop_first(), beg, end, (lim - 1) as nat)
    } else {
        spec_scan(s.drop_first(), beg, end, lim)
    }
}

/// What remains after deleting the first `lim` entries in `[beg, end)`.
pub open spec fn spec_delr(s: Seq<Entry>, beg: Seq<u8>, end: Seq<u8>, lim: nat) -> Seq<Entry>
    decreases s.len(),
{
    if s.len() == 0 {
        Seq::empty()
    } else if lim != 0 && in_range(s.first().0@, beg, end) {
        spec_delr(s.drop_first(), beg, end, (lim - 1) as nat)
    } else {
        seq![s.first()] + spec_delr(s.drop_first(), beg, end, lim)
    }
}

/// The counter of a scope, or -1 when the scope is unknown.
pub open spec fn find_scope(s: Seq<(String, String, u64)>, ns: Seq<char>, db: Seq<char>) -> int
    decreases s.len(),
{
    if s.len() == 0 {
        -1
    } else if s.first().0@ == ns && s.first().1@ == db {
        0
    } else {
        let r = find_scope(s.drop_first(), ns, db);
        if r == -1 {
            -1
        } else {
            r + 1
        }
    }
}

/// The found scope index is in range and names the scope, and no earlier
/// entry does.
pub proof fn lemma_find_scope(s: Seq<(String, String, u64)>, ns: Seq<char>, db: Seq<char>)
    ensures
        find_scope(s, ns, db) == -1 ==> (forall|i: int|
            0 <= i < s.len() ==> !((#[trigger] s[i]).0@ == ns && s[i].1@ == db)),
        find_scope(s, ns, db) != -1 ==> 0 <= find_scope(s, ns, db) < s.len() && s[find_scope(
            s,
            ns,
            db,
        )].0@ == ns && s[find_scope(s, ns, db)].1@ == db,
    decreases s.len(),
{
    if s.len() > 0 {
        lemma_find_scope(s.drop_first(), ns, db);
        assert(forall|i: int| 1 <= i < s.len() ==> #[trigger] s[i] == s.drop_first()[i - 1]);
    }
}

/// Whether an entry is a well-formed change-feed entry of a registered
/// scope whose versionstamp does not pass the scope's counter.
pub open spec fn entry_wf(e: Entry, counters: Seq<(String, String, u64)>) -> bool {
    &&& is_cf_key(e.0@)
    &&& exists|j: int|
        0 <= j < counters.len() && {
            let f = spec_cf_fields(e.0@);
            &&& f.0 == bytes_of_chars((#[trigger] counters[j]).0@)
            &&& f.1 == bytes_of_chars(counters[j].1@)
            &&& be_num(f.2) <= counters[j].2 * 0x10000
        }
}

/// Whether the entry list holds this exact entry.
pub open spec fn has_entry(es: Seq<Entry>, x: Entry) -> bool {
    exists|f: int| 0 <= f < es.len() && #[trigger] es[f] == x
}

/// Whether the entry list holds an entry with this key whose value equals
/// the given mutations.
pub open spec fn has_committed(es: Seq<Entry>, k: Seq<u8>, m: TableMutations) -> bool {
    exists|f: int| 0 <= f < es.len() && (#[trigger] es[f]).0@ == k && tms_eq(es[f].1, m)
}

/// Whether an entry is an old one or carries one of this commit's keys.
pub open spec fn old_or_committed(
    x: Entry,
    olds: Seq<Entry>,
    buf: Seq<TableMutations>,
    upto: int,
    nsb: Seq<u8>,
    dbb: Seq<u8>,
    vs: Seq<u8>,
) -> bool {
    has_entry(olds, x) || exists|b: int|
        0 <= b < upto && x.0@ == spec_cf_key(nsb, dbb, vs, bytes_of_chars(
            (#[trigger] buf[b]).0@,
        ))
}

/// A transaction view of the store: the committed change-log entries, the
/// per-scope commit counters, and this transaction's write buffer.
pub struct Transaction {
    /// The change-log entries, strictly sorted by key.
    pub entries: Vec<Entry>,
    /// One commit counter per (namespace, database) scope.
    pub counters: Vec<(String, String, u64)>,
    /// The change-feed write buffer of this transaction.
    pub cf: Writer,
}

impl Transaction {
    /// Well-formedness: keys strictly sorted; scopes distinct and valid;
    /// every entry belongs to a registered scope and is stamped at or
    /// below the scope's counter.
    pub open spec fn wf(self) -> bool {
        &&& (forall|i: int, j: int|
            0 <= i < j < self.entries@.len() ==> lex_lt(
                (#[trigger] self.entries@[i]).0@,
                (#[trigger] self.entries@[j]).0@,
            ))
        &&& (forall|i: int, j: int|
            0 <= i < j < self.counters@.len() ==> !((#[trigger] self.counters@[i]).0@ == (
            #[trigger] self.counters@[j]).0@ && self.counters@[i].1@ == self.counters@[j].1@))
        &&& (forall|i: int|
            0 <= i < self.counters@.len() ==> valid_seg_chars(
                (#[trigger] self.counters@[i]).0@,
            ) && valid_seg_chars(self.counters@[i].1@))
        &&& (forall|i: int|
            0 <= i < self.entries@.len() ==> entry_wf(
                #[trigger] self.entries@[i],
                self.counters@,
            ))
        &&& self.cf.buf.wf()
    }

    /// An empty transaction view over an empty store.
    pub fn new() -> (r: Transaction)
        ensures
            r.wf(),
            r.entries@.len() == 0,
            r.counters@.len() == 0,
            r.cf.buf.b@.len() == 0,
    {
        Transaction { entries: Vec::new(), counters: Vec::new(), cf: Writer::new() }
    }

    /// Buffers one record-level change if the table's change feed is on;
    /// otherwise leaves the transaction untouched.
    pub fn record_change(&mut self, tb: &TableDefinition, id: Thing, v: Value)
        requires
            old(self).wf(),
        ensures
            final(self).wf(),
            final(self).entries@ == old(self).entries@,
            final(self).counters@ == old(self).counters@,
            !tb.changefeed.enabled ==> final(self).cf.buf.b@ == old(self).cf.buf.b@,
            tb.changefeed.enabled ==> ({
                let m = if v is Nothing {
                    crate::sql::changefeed::TableMutation::Del(id)
                } else {
                    crate::sql::changefeed::TableMutation::Put(id, v)
                };
                let j = find_tb(old(self).cf.buf.b@, tb.name@);
                if j == -1 {
                    &&& final(self).cf.buf.b@.len() == old(self).cf.buf.b@.len() + 1
                    &&& (forall|k: int|
                        0 <= k < old(self).cf.buf.b@.len() ==> final(self).cf.buf.b@[k] == old(self).cf.buf.b@[k])
                    &&& final(self).cf.buf.b@.last().0@ == tb.name@
                    &&& final(self).cf.buf.b@.last().1@.len() == 1
                    &&& crate::sql::changefeed::tm_eq(final(self).cf.buf.b@.last().1@[0], m)
                } else {
                    &&& final(self).cf.buf.b@.len() == old(self).cf.buf.b@.len()
                    &&& (forall|k: int|
                        0 <= k < old(self).cf.buf.b@.len() && k != j ==> final(self).cf.buf.b@[k] == old(self).cf.buf.b@[k])
                    &&& final(self).cf.buf.b@[j].0 == old(self).cf.buf.b@[j].0
                    &&& final(self).cf.buf.b@[j].1@ == old(self).cf.buf.b@[j].1@.push(m)
                }
            }),
    {
        if tb.changefeed.enabled {
            self.cf.update(tb.name.clone(), id, v);
        }
    }

    /// The scope's current timestamp cursor: its counter as a
    /// versionstamp, zero for an unknown scope.
    #[verifier::loop_isolation(false)]
    pub fn get_timestamp(&self, ns: &str, db: &str) -> (r: Versionstamp)
        ensures
            ({
                let j = find_scope(self.counters@, ns@, db@);
                if j == -1 {
                    be_num(r@) == 0
                } else {
                    be_num(r@) == self.counters@[j].2 * 0x10000
                }
            }),
    {
        proof {
            lemma_find_scope(self.counters@, ns@, db@);
        }
        let n = self.counters.len();
        let mut i: usize = 0;
        while i < n
            invariant
                0 <= i <= n == self.counters@.len(),
                forall|k: int|
                    0 <= k < i ==> !((#[trigger] self.counters@[k]).0@ == ns@
                        && self.counters@[k].1@ == db@),
            decreases n - i,
        {
            if crate::text::str_eq(self.counters[i].0.as_str(), ns) && crate::text::str_eq(
                self.counters[i].1.as_str(),
                db,
            ) {
                proof {
                    let j = find_scope(self.counters@, ns@, db@);
                    if j == -1 {
                        assert(!(self.counters@[i as int].0@ == ns@ && self.counters@[i as int].1@
                            == db@));
                        assert(false);
                    }
                    lemma_find_scope_at(self.counters@, ns@, db@, i as int);
                }
                return u64_to_versionstamp(self.counters[i].2);
            }
            i = i + 1;
        }
        u64_to_versionstamp(0)
    }

    /// Scans the first `limit` entries of `[beg, end)`, in key order; the
    /// returned entries are copies of the stored ones.
    #[verifier::loop_isolation(false)]
    pub fn scan(&self, beg: &Vec<u8>, end: &Vec<u8>, limit: u32) -> (r: Vec<Entry>)
        ensures
            ({
                let picked = spec_scan(self.entries@, beg@, end@, limit as nat);
                &&& r@.len() == picked.len()
                &&& (forall|i: int|
                    0 <= i < r@.len() ==> (#[trigger] r@[i]).0@ == picked[i].0@ && tms_eq(
                        r@[i].1,
                        picked[i].1,
                    ))
            }),
    {
        let mut r: Vec<Entry> = Vec::new();
        let n = self.entries.len();
        let mut i: usize = 0;
        let mut taken: u32 = 0;
        proof {
            assert(self.entries@.subrange(0, 0) =~= Seq::<Entry>::empty());
            assert(self.entries@.subrange(0, n as int) =~= self.entries@);
        }
        while i < n
            invariant
                0 <= i <= n,
                taken <= limit,
                r@.len() == spec_scan(
                    self.entries@.subrange(0, i as int),
                    beg@,
                    end@,
                    limit as nat,
                ).len(),
                taken as int == r@.len(),
                spec_scan(self.entries@, beg@, end@, limit as nat) == spec_scan(
                    self.entries@.subrange(0, i as int),
                    beg@,
                    end@,
                    limit as nat,
                ) + spec_scan(
                    self.entries@.subrange(i as int, n as int),
                    beg@,
                    end@,
                    (limit - taken) as nat,
                ),
                (forall|k: int|
                    0 <= k < r@.len() ==> (#[trigger] r@[k]).0@ == spec_scan(
                        self.entries@.subrange(0, i as int),
                        beg@,
                        end@,
                        limit as nat,
                    )[k].0@ && tms_eq(
                        r@[k].1,
                        spec_scan(
                            self.entries@.subrange(0, i as int),
                            beg@,
                            end@,
                            limit as nat,
                        )[k].1,
                    )),
            decreases n - i,
        {
            if taken == limit {
                break ;
            }
            let ghost pre = self.entries@.subrange(0, i as int);
            let ghost post = self.entries@.subrange(i as int, n as int);
            let in_lo = !crate::key::key_lt(&self.entries[i].0, beg);
            let in_hi = crate::key::key_lt(&self.entries[i].0, end);
            proof {
                lemma_scan_step(self.entries@, beg@, end@, limit as nat, taken as nat, i as int);
            }
            if in_lo && in_hi {
                let k = clone_bytes(&self.entries[i].0);
                let v = self.entries[i].1.clone();
                r.push((k, v));
                taken = taken + 1;
            }
            i = i + 1;
        }
        proof {
            if i == n {
                assert(self.entries@.subrange(0, n as int) =~= self.entries@);
                assert(self.entries@.subrange(i as int, n as int).len() == 0);
                assert(spec_scan(
                    self.entries@.subrange(i as int, n as int),
                    beg@,
                    end@,
                    (limit - taken) as nat,
                ) =~= Seq::<Entry>::empty());
                assert(spec_scan(self.entries@, beg@, end@, limit as nat) =~= spec_scan(
                    self.entries@.subrange(0, i as int),
                    beg@,
                    end@,
                    limit as nat,
                ));
            } else {
                assert(taken == limit);
                lemma_scan_zero(self.entries@.subrange(i as int, n as int), beg@, end@);
                assert(spec_scan(self.entries@, beg@, end@, limit as nat) =~= spec_scan(
                    self.entries@.subrange(0, i as int),
                    beg@,
                    end@,
                    limit as nat,
                ));
            }
        }
        r
    }

    /// Deletes the first `limit` entries of `[beg, end)`; the rest keep
    /// their order.
    #[verifier::loop_isolation(false)]
    #[verifier::rlimit(100)]
    pub fn delr(&mut self, beg: &Vec<u8>, end: &Vec<u8>, limit: u32)
        requires
            old(self).wf(),
        ensures
            final(self).wf(),
            final(self).entries@ == spec_delr(old(self).entries@, beg@, end@, limit as nat),
            final(self).counters@ == old(self).counters@,
            final(self).cf.buf.b@ == old(self).cf.buf.b@,
    {
        let ghost all = self.entries@;
        let n = self.entries.len();
        let mut i: usize = 0;
        let mut deleted: u32 = 0;
        proof {
            assert(all.subrange(0, 0) =~= Seq::<Entry>::empty());
            assert(all.subrange(0, n as int) =~= all);
        }
        while i + (deleted as usize) < n
            invariant
                self.counters@ == old(self).counters@,
                self.cf.buf.b@ == old(self).cf.buf.b@,
                self.cf.buf.wf(),
                0 <= i,
                deleted <= limit,
                i + deleted <= n == all.len(),
                self.entries@.len() == all.len() - deleted,
                self.entries@ == spec_delr(
                    all.subrange(0, i + deleted as int),
                    beg@,
                    end@,
                    limit as nat,
                ) + all.subrange(i + deleted as int, n as int),
                spec_delr(all.subrange(0, i + deleted as int), beg@, end@, limit as nat).len()
                    == i,
            decreases n - i - deleted,
        {
            let ghost processed = i + deleted as int;
            let ghost kept = spec_delr(all.subrange(0, processed), beg@, end@, limit as nat);
            let ghost post = all.subrange(processed, n as int);
            proof {
                assert(post.first() == all[processed]);
                assert(post.drop_first() =~= all.subrange(processed + 1, n as int));
                assert(self.entries@[i as int] == (kept + post)[i as int]);
                assert((kept + post)[i as int] == post[0]);
                lemma_delr_snoc(
                    all.subrange(0, processed),
                    all[processed],
                    beg@,
                    end@,
                    limit as nat,
                    deleted as nat,
                );
                assert(all.subrange(0, processed).push(all[processed]) =~= all.subrange(
                    0,
                    processed + 1,
                ));
            }
            let in_lo = !crate::key::key_lt(&self.entries[i].0, beg);
            let in_hi = crate::key::key_lt(&self.entries[i].0, end);
            if deleted < limit && in_lo && in_hi {
                self.entries.remove(i);
                deleted = deleted + 1;
                proof {
                    assert(self.entries@ =~= spec_delr(
                        all.subrange(0, i + deleted as int),
                        beg@,
                        end@,
                        limit as nat,
                    ) + all.subrange(i + deleted as int, n as int));
                }
            } else {
                i = i + 1;
                proof {
                    assert(spec_delr(all.subrange(0, i + deleted as int), beg@, end@, limit as nat)
                        =~= kept.push(all[processed]));
                    assert(self.entries@ =~= spec_delr(
                        all.subrange(0, i + deleted as int),
                        beg@,
                        end@,
                        limit as nat,
                    ) + all.subrange(i + deleted as int, n as int));
                }
            }
        }
        proof {
            assert(all.subrange(0, i + deleted as int) =~= all);
            assert(all.subrange(i + deleted as int, n as int).len() == 0);
            assert(self.entries@ =~= spec_delr(all, beg@, end@, limit as nat));
            lemma_delr_keeps(all, beg@, end@, limit as nat);
            assert forall|a: int, b: int|
                0 <= a < b < self.entries@.len() implies lex_lt(
                (#[trigger] self.entries@[a]).0@,
                (#[trigger] self.entries@[b]).0@,
            ) by {
                lemma_delr_order(all, beg@, end@, limit as nat, a, b);
            }
            assert forall|a: int| 0 <= a < self.entries@.len() implies entry_wf(
                #[trigger] self.entries@[a],
                self.counters@,
            ) by {
                let d = spec_delr(all, beg@, end@, limit as nat);
                assert(d[a] == self.entries@[a]);
                let m = choose|m: int| 0 <= m < all.len() && #[trigger] d[a] == all[m];
                assert(all[m] == old(self).entries@[m]);
                assert(entry_wf(old(self).entries@[m], old(self).counters@));
            }
        }
    }
}

/// Every kept entry comes from the scanned string.
proof fn lemma_delr_keeps(s: Seq<Entry>, beg: Seq<u8>, end: Seq<u8>, lim: nat)
    ensures
        forall|k: int|
            0 <= k < spec_delr(s, beg, end, lim).len() ==> exists|m: int|
                0 <= m < s.len() && #[trigger] spec_delr(s, beg, end, lim)[k] == s[m],
    decreases s.len(),
{
    if s.len() > 0 {
        let d = spec_delr(s, beg, end, lim);
        if lim != 0 && in_range(s.first().0@, beg, end) {
            lemma_delr_keeps(s.drop_first(), beg, end, (lim - 1) as nat);
            assert forall|k: int| 0 <= k < d.len() implies exists|m: int|
                0 <= m < s.len() && #[trigger] d[k] == s[m] by {
                let dd = spec_delr(s.drop_first(), beg, end, (lim - 1) as nat);
                assert(d[k] == dd[k]);
                let m0 = choose|m: int| 0 <= m < s.drop_first().len() && dd[k] == s.drop_first()[m];
                assert(d[k] == s[m0 + 1]);
            }
        } else {
            lemma_delr_keeps(s.drop_first(), beg, end, lim);
            assert forall|k: int| 0 <= k < d.len() implies exists|m: int|
                0 <= m < s.len() && #[trigger] d[k] == s[m] by {
                if k == 0 {
                    assert(d[0] == s[0]);
                } else {
                    let dd = spec_delr(s.drop_first(), beg, end, lim);
                    assert(d[k] == dd[k - 1]);
                    let m0 = choose|m: int|
                        0 <= m < s.drop_first().len() && dd[k - 1] == s.drop_first()[m];
                    assert(d[k] == s[m0 + 1]);
                }
            }
        }
    }
}

/// Deleting a range keeps the remaining entries sorted.
proof fn lemma_delr_order(s: Seq<Entry>, beg: Seq<u8>, end: Seq<u8>, lim: nat, a: int, b: int)
    requires
        forall|i: int, j: int|
            0 <= i < j < s.len() ==> lex_lt((#[trigger] s[i]).0@, (#[trigger] s[j]).0@),
        0 <= a < b < spec_delr(s, beg, end, lim).len(),
    ensures
        lex_lt(spec_delr(s, beg, end, lim)[a].0@, spec_delr(s, beg, end, lim)[b].0@),
    decreases s.len(),
{
    let d = spec_delr(s, beg, end, lim);
    if s.len() > 0 {
        if lim != 0 && in_range(s.first().0@, beg, end) {
            assert(forall|i: int, j: int|
                0 <= i < j < s.drop_first().len() ==> lex_lt(
                    (#[trigger] s.drop_first()[i]).0@,
                    (#[trigger] s.drop_first()[j]).0@,
                )) by {
                assert(forall|i: int|
                    0 <= i < s.drop_first().len() ==> #[trigger] s.drop_first()[i] == s[i + 1]);
            }
            lemma_delr_order(s.drop_first(), beg, end, (lim - 1) as nat, a, b);
        } else {
            assert(forall|i: int, j: int|
                0 <= i < j < s.drop_first().len() ==> lex_lt(
                    (#[trigger] s.drop_first()[i]).0@,
                    (#[trigger] s.drop_first()[j]).0@,
                )) by {
                assert(forall|i: int|
                    0 <= i < s.drop_first().len() ==> #[trigger] s.drop_first()[i] == s[i + 1]);
            }
            if a == 0 {
                let dd = spec_delr(s.drop_first(), beg, end, lim);
                assert(d[b] == dd[b - 1]);
                lemma_delr_keeps(s.drop_first(), beg, end, lim);
                let m = choose|m: int|
                    0 <= m < s.drop_first().len() && #[trigger] dd[b - 1] == s.drop_first()[m];
                assert(s.drop_first()[m] == s[m + 1]);
                assert(lex_lt(s[0].0@, s[m + 1].0@));
            } else {
                lemma_delr_order(s.drop_first(), beg, end, lim, a - 1, b - 1);
            }
        }
    }
}

/// How many entries of the string lie in the range.
pub open spec fn range_count(s: Seq<Entry>, beg: Seq<u8>, end: Seq<u8>) -> nat
    decreases s.len(),
{
    if s.len() == 0 {
        0
    } else if in_range(s.first().0@, beg, end) {
        1 + range_count(s.drop_first(), beg, end)
    } else {
        range_count(s.drop_first(), beg, end)
    }
}

/// Every kept entry is still an element of the scanned string.
pub proof fn lemma_delr_keeps_all(s: Seq<Entry>, beg: Seq<u8>, end: Seq<u8>, lim: nat)
    ensures
        forall|k: int|
            0 <= k < spec_delr(s, beg, end, lim).len() ==> has_entry(
                s,
                #[trigger] spec_delr(s, beg, end, lim)[k],
            ),
{
    lemma_delr_keeps(s, beg, end, lim);
    assert forall|k: int| 0 <= k < spec_delr(s, beg, end, lim).len() implies has_entry(
        s,
        #[trigger] spec_delr(s, beg, end, lim)[k],
    ) by {
        let m = choose|m: int|
            0 <= m < s.len() && #[trigger] spec_delr(s, beg, end, lim)[k] == s[m];
        assert(s[m] == spec_delr(s, beg, end, lim)[k]);
    }
}

/// An entry outside the range survives the deletion.
pub proof fn lemma_delr_keeps_out(s: Seq<Entry>, beg: Seq<u8>, end: Seq<u8>, lim: nat, e: int)
    requires
        0 <= e < s.len(),
        !in_range(s[e].0@, beg, end),
    ensures
        has_entry(spec_delr(s, beg, end, lim), s[e]),
    decreases s.len(),
{
    let d = spec_delr(s, beg, end, lim);
    if e == 0 {
        assert(d[0] == s[0]);
        assert(has_entry(d, s[0]));
    } else {
        assert(s.drop_first()[e - 1] == s[e]);
        if lim != 0 && in_range(s.first().0@, beg, end) {
            lemma_delr_keeps_out(s.drop_first(), beg, end, (lim - 1) as nat, e - 1);
            let dd = spec_delr(s.drop_first(), beg, end, (lim - 1) as nat);
            let f = choose|f: int| 0 <= f < dd.len() && #[trigger] dd[f] == s[e];
            assert(d[f] == s[e]);
            assert(has_entry(d, s[e]));
        } else {
            lemma_delr_keeps_out(s.drop_first(), beg, end, lim, e - 1);
            let dd = spec_delr(s.drop_first(), beg, end, lim);
            let f = choose|f: int| 0 <= f < dd.len() && #[trigger] dd[f] == s[e];
            assert(d[f + 1] == s[e]);
            assert(has_entry(d, s[e]));
        }
    }
}

/// A pass whose limit covers every matching entry leaves none in range.
pub proof fn lemma_delr_complete(s: Seq<Entry>, beg: Seq<u8>, end: Seq<u8>, lim: nat)
    requires
        range_count(s, beg, end) <= lim,
    ensures
        forall|e: int|
            0 <= e < spec_delr(s, beg, end, lim).len() ==> !in_range(
                (#[trigger] spec_delr(s, beg, end, lim)[e]).0@,
                beg,
                end,
            ),
    decreases s.len(),
{
    let d = spec_delr(s, beg, end, lim);
    if s.len() > 0 {
        if lim != 0 && in_range(s.first().0@, beg, end) {
            lemma_delr_complete(s.drop_first(), beg, end, (lim - 1) as nat);
            let dd = spec_delr(s.drop_first(), beg, end, (lim - 1) as nat);
            assert forall|e: int| 0 <= e < d.len() implies !in_range(
                (#[trigger] d[e]).0@,
                beg,
                end,
            ) by {
                assert(d[e] == dd[e]);
            }
        } else {
            lemma_delr_complete(s.drop_first(), beg, end, lim);
            let dd = spec_delr(s.drop_first(), beg, end, lim);
            assert forall|e: int| 0 <= e < d.len() implies !in_range(
                (#[trigger] d[e]).0@,
                beg,
                end,
            ) by {
                if e > 0 {
                    assert(d[e] == dd[e - 1]);
                }
            }
        }
    }
}

/// A bounded scan never returns more than its limit of raw entries,
/// whatever the store holds.
pub proof fn lemma_scan_bounded(s: Seq<Entry>, beg: Seq<u8>, end: Seq<u8>, lim: nat)
    ensures
        spec_scan(s, beg, end, lim).len() <= lim,
    decreases s.len(),
{
    if s.len() > 0 && lim > 0 {
        if in_range(s.first().0@, beg, end) {
            lemma_scan_bounded(s.drop_first(), beg, end, (lim - 1) as nat);
        } else {
            lemma_scan_bounded(s.drop_first(), beg, end, lim);
        }
    }
}

/// Deleting never lengthens the string.
proof fn lemma_delr_len(s: Seq<Entry>, beg: Seq<u8>, end: Seq<u8>, lim: nat)
    ensures
        spec_delr(s, beg, end, lim).len() <= s.len(),
    decreases s.len(),
{
    if s.len() > 0 {
        if lim != 0 && in_range(s.first().0@, beg, end) {
            lemma_delr_len(s.drop_first(), beg, end, (lim - 1) as nat);
        } else {
            lemma_delr_len(s.drop_first(), beg, end, lim);
        }
    }
}

/// Appending one entry to a processed prefix extends the deletion result
/// by either nothing (the entry is doomed) or that entry.
proof fn lemma_delr_snoc(
    s: Seq<Entry>,
    x: Entry,
    beg: Seq<u8>,
    end: Seq<u8>,
    lim: nat,
    deleted: nat,
)
    requires
        spec_delr(s, beg, end, lim).len() == s.len() - deleted,
        deleted <= lim,
    ensures
        deleted < lim && in_range(x.0@, beg, end) ==> spec_delr(s.push(x), beg, end, lim)
            == spec_delr(s, beg, end, lim),
        !(deleted < lim && in_range(x.0@, beg, end)) ==> spec_delr(s.push(x), beg, end, lim)
            == spec_delr(s, beg, end, lim).push(x),
    decreases s.len(),
{
    if s.len() == 0 {
        assert(s.push(x).first() == x);
        assert(s.push(x).drop_first() =~= Seq::<Entry>::empty());
        if lim != 0 && in_range(x.0@, beg, end) {
            assert(spec_delr(s.push(x), beg, end, lim) == spec_delr(
                Seq::<Entry>::empty(),
                beg,
                end,
                (lim - 1) as nat,
            ));
            assert(spec_delr(s.push(x), beg, end, lim) =~= Seq::<Entry>::empty());
            assert(spec_delr(s, beg, end, lim) =~= Seq::<Entry>::empty());
        } else {
            assert(spec_delr(s.push(x), beg, end, lim) == seq![s.push(x).first()] + spec_delr(
                Seq::<Entry>::empty(),
                beg,
                end,
                lim,
            ));
            assert(spec_delr(s.push(x), beg, end, lim) =~= seq![x]);
            assert(spec_delr(s, beg, end, lim).push(x) =~= seq![x]);
        }
    } else {
        assert(s.push(x).first() == s.first());
        assert(s.push(x).drop_first() =~= s.drop_first().push(x));
        if lim != 0 && in_range(s.first().0@, beg, end) {
            lemma_delr_len(s.drop_first(), beg, end, (lim - 1) as nat);
            assert(deleted >= 1);
            lemma_delr_snoc(s.drop_first(), x, beg, end, (lim - 1) as nat, (deleted - 1) as nat);
            if deleted < lim && in_range(x.0@, beg, end) {
                assert(spec_delr(s.push(x), beg, end, lim) =~= spec_delr(s, beg, end, lim));
            } else {
                assert(spec_delr(s.push(x), beg, end, lim) =~= spec_delr(
                    s,
                    beg,
                    end,
                    lim,
                ).push(x));
            }
        } else {
            lemma_delr_snoc(s.drop_first(), x, beg, end, lim, deleted);
            if deleted < lim && in_range(x.0@, beg, end) {
                assert(spec_delr(s.push(x), beg, end, lim) =~= spec_delr(s, beg, end, lim));
            } else {
                assert(spec_delr(s.push(x), beg, end, lim) =~= spec_delr(
                    s,
                    beg,
                    end,
                    lim,
                ).push(x));
            }
        }
    }
}

/// Inserts an entry with a fresh key into a sorted entry list, keeping it
/// sorted.
#[verifier::loop_isolation(false)]
fn insert_entry(entries: &mut Vec<Entry>, key: Vec<u8>, val: TableMutations)
    requires
        forall|i: int, j: int|
            0 <= i < j < old(entries)@.len() ==> lex_lt(
                (#[trigger] old(entries)@[i]).0@,
                (#[trigger] old(entries)@[j]).0@,
            ),
        forall|i: int| 0 <= i < old(entries)@.len() ==> (#[trigger] old(entries)@[i]).0@ != key@,
    ensures
        final(entries)@.len() == old(entries)@.len() + 1,
        forall|i: int, j: int|
            0 <= i < j < final(entries)@.len() ==> lex_lt(
                (#[trigger] final(entries)@[i]).0@,
                (#[trigger] final(entries)@[j]).0@,
            ),
        exists|p: int|
            0 <= p <= old(entries)@.len() && final(entries)@ == old(entries)@.insert(
                p,
                #[trigger] final(entries)@[p],
            ) && final(entries)@[p].0@ == key@ && final(entries)@[p].1 == val,
{
    let n = entries.len();
    let mut p: usize = 0;
    while p < n
        invariant
            0 <= p <= n == entries@.len(),
            entries@ == old(entries)@,
            forall|m: int| 0 <= m < p ==> lex_lt((#[trigger] entries@[m]).0@, key@),
        decreases n - p,
    {
        if crate::key::key_lt(&key, &entries[p].0) {
            break ;
        }
        proof {
            crate::vs::lemma_lex_trichotomy(entries@[p as int].0@, key@);
        }
        p = p + 1;
    }
    let ghost pos = p as int;
    let ghost ekey = key@;
    proof {
        if pos < old(entries)@.len() {
            assert(lex_lt(ekey, old(entries)@[pos].0@));
        }
    }
    entries.insert(p, (key, val));
    proof {
        assert(entries@ == old(entries)@.insert(pos, entries@[pos]));
        assert(entries@[pos].0@ == ekey);
        assert forall|i: int, j: int|
            0 <= i < j < entries@.len() implies lex_lt(
            (#[trigger] entries@[i]).0@,
            (#[trigger] entries@[j]).0@,
        ) by {
            if i < pos && j == pos {
                assert(entries@[i] == old(entries)@[i]);
            } else if i == pos && j > pos {
                assert(entries@[j] == old(entries)@[j - 1]);
                if pos < old(entries)@.len() {
                    if j - 1 > pos {
                        crate::vs::lemma_lex_trans(
                            ekey,
                            old(entries)@[pos].0@,
                            old(entries)@[j - 1].0@,
                        );
                    }
                }
            } else if i < pos && j > pos {
                assert(entries@[i] == old(entries)@[i]);
                assert(entries@[j] == old(entries)@[j - 1]);
                if i < j - 1 {
                } else {
                    assert(i == j - 1);
                    assert(lex_lt(entries@[i].0@, ekey));
                    assert(lex_lt(ekey, old(entries)@[pos].0@));
                }
                if pos <= j - 1 && pos < old(entries)@.len() && i >= pos {
                }
            } else if i < pos && j < pos {
                assert(entries@[i] == old(entries)@[i]);
                assert(entries@[j] == old(entries)@[j]);
            } else if i > pos && j > pos {
                assert(entries@[i] == old(entries)@[i - 1]);
                assert(entries@[j] == old(entries)@[j - 1]);
            }
        }
    }
}

impl Transaction {
    /// Commits this transaction's buffered changes: the buffer is drained
    /// into one durable entry per touched table, all stamped with the next
    /// versionstamp of the scope.  One commit yields one versionstamp.
    /// Commit fails exactly when a segment cannot stand in a key (an
    /// encoding error) or when the scope's counter is exhausted (a store
    /// error); a failed commit changes nothing.
    #[verifier::loop_isolation(false)]
    #[verifier::rlimit(100)]
    pub fn complete_changes(&mut self, ns: &str, db: &str) -> (r: Result<Versionstamp, Error>)
        requires
            old(self).wf(),
        ensures
            match r {
                Ok(vs) => {
                    let j = find_scope(old(self).counters@, ns@, db@);
                    let c: int = if j == -1 {
                        1
                    } else {
                        old(self).counters@[j].2 + 1
                    };
                    let buf = old(self).cf.buf.b@;
                    &&& final(self).wf()
                    &&& old(self).cf.flushable(ns@, db@)
                    &&& (j != -1 ==> old(self).counters@[j].2 < u64::MAX)
                    &&& valid_seg_chars(ns@) && valid_seg_chars(db@)
                    &&& be_num(vs@) == c * 0x10000
                    &&& final(self).cf.buf.b@.len() == 0
                    &&& final(self).entries@.len() == old(self).entries@.len() + buf.len()
                    &&& (forall|e: int|
                        0 <= e < old(self).entries@.len() ==> has_entry(
                            final(self).entries@,
                            #[trigger] old(self).entries@[e],
                        ))
                    &&& (forall|b: int|
                        0 <= b < buf.len() ==> has_committed(
                            final(self).entries@,
                            spec_cf_key(
                                bytes_of_chars(ns@),
                                bytes_of_chars(db@),
                                vs@,
                                bytes_of_chars((#[trigger] buf[b]).0@),
                            ),
                            buf[b],
                        ))
                    &&& (forall|f: int|
                        0 <= f < final(self).entries@.len() ==> old_or_committed(
                            #[trigger] final(self).entries@[f],
                            old(self).entries@,
                            buf,
                            buf.len() as int,
                            bytes_of_chars(ns@),
                            bytes_of_chars(db@),
                            vs@,
                        ))
                    &&& ({
                        if j == -1 {
                            &&& final(self).counters@.len() == old(self).counters@.len() + 1
                            &&& (forall|k: int|
                                0 <= k < old(self).counters@.len() ==> final(self).counters@[k]
                                    == old(self).counters@[k])
                            &&& final(self).counters@.last().0@ == ns@
                            &&& final(self).counters@.last().1@ == db@
                            &&& final(self).counters@.last().2 == 1
                        } else {
                            &&& final(self).counters@.len() == old(self).counters@.len()
                            &&& (forall|k: int|
                                0 <= k < old(self).counters@.len() && k != j ==> final(self).counters@[k] == old(self).counters@[k])
                            &&& final(self).counters@[j].0 == old(self).counters@[j].0
                            &&& final(self).counters@[j].1 == old(self).counters@[j].1
                            &&& final(self).counters@[j].2 == old(self).counters@[j].2 + 1
                        }
                    })
                },
                Err(e) => {
                    let j = find_scope(old(self).counters@, ns@, db@);
                    &&& *final(self) == *old(self)
                    &&& (e == Error::Encoding <==> !old(self).cf.flushable(ns@, db@))
                    &&& (e == Error::Store <==> (old(self).cf.flushable(ns@, db@) && j != -1
                        && old(self).counters@[j].2 == u64::MAX))
                    &&& (e == Error::Encoding || e == Error::Store)
                },
            },
    {
        if !crate::key::check_seg(ns) || !crate::key::check_seg(db) {
            return Err(Error::Encoding);
        }
        let reqs = match self.cf.get(ns, db) {
            Ok(v) => v,
            Err(e) => {
                return Err(e);
            },
        };
        proof {
            assert forall|b: int| 0 <= b < self.cf.buf.b@.len() implies valid_seg_chars(
                (#[trigger] self.cf.buf.b@[b]).0@,
            ) by {
                assert(reqs@[b].2@ == seq![42u8] + bytes_of_chars(self.cf.buf.b@[b].0@) + seq![
                    0u8,
                ]);
            }
        }
        // Resolve the scope's next counter value.
        proof {
            lemma_find_scope(self.counters@, ns@, db@);
        }
        let nsc = self.counters.len();
        let mut sidx: usize = 0;
        let mut found = false;
        while sidx < nsc
            invariant
                0 <= sidx <= nsc == self.counters@.len(),
                !found,
                forall|k: int|
                    0 <= k < sidx ==> !((#[trigger] self.counters@[k]).0@ == ns@
                        && self.counters@[k].1@ == db@),
            decreases nsc - sidx,
        {
            if crate::text::str_eq(self.counters[sidx].0.as_str(), ns) && crate::text::str_eq(
                self.counters[sidx].1.as_str(),
                db,
            ) {
                found = true;
                break ;
            }
            sidx = sidx + 1;
        }
        let ghost j = find_scope(old(self).counters@, ns@, db@);
        proof {
            if found {
                lemma_find_scope_at(self.counters@, ns@, db@, sidx as int);
                assert(j == sidx as int);
            } else {
                assert(j == -1);
            }
        }
        let c_new: u64 = if found {
            let c_old = self.counters[sidx].2;
            if c_old == u64::MAX {
                return Err(Error::Store);
            }
            c_old + 1
        } else {
            1
        };
        let vs = u64_to_versionstamp(c_new);
        // Update the scope counter.
        if found {
            let mut sc = self.counters.remove(sidx);
            sc.2 = c_new;
            self.counters.insert(sidx, sc);
            proof {
                assert(self.counters@ =~= old(self).counters@.update(
                    sidx as int,
                    self.counters@[sidx as int],
                ));
            }
        } else {
            self.counters.push((ns.to_owned(), db.to_owned(), 1));
        }
        let ghost new_counters = self.counters@;
        proof {
            assert forall|a: int, b: int|
                0 <= a < b < new_counters.len() implies !((#[trigger] new_counters[a]).0@ == (
            #[trigger] new_counters[b]).0@ && new_counters[a].1@ == new_counters[b].1@) by {
                if found {
                } else {
                    if b == new_counters.len() - 1 {
                        lemma_find_scope(old(self).counters@, ns@, db@);
                        assert(!(old(self).counters@[a].0@ == ns@ && old(self).counters@[a].1@
                            == db@));
                    }
                }
            }
            assert forall|e: int| 0 <= e < self.entries@.len() implies entry_wf(
                #[trigger] self.entries@[e],
                new_counters,
            ) by {
                assert(entry_wf(old(self).entries@[e], old(self).counters@));
                let oj = choose|oj: int|
                    0 <= oj < old(self).counters@.len() && {
                        let f = spec_cf_fields(old(self).entries@[e].0@);
                        &&& f.0 == bytes_of_chars((#[trigger] old(self).counters@[oj]).0@)
                        &&& f.1 == bytes_of_chars(old(self).counters@[oj].1@)
                        &&& be_num(f.2) <= old(self).counters@[oj].2 * 0x10000
                    };
                if found && oj == sidx as int {
                    assert(new_counters[oj].2 == old(self).counters@[oj].2 + 1);
                    assert(old(self).counters@[oj].2 * 0x10000 <= new_counters[oj].2 * 0x10000);
                } else {
                    assert(new_counters[oj] == old(self).counters@[oj]);
                }
            }
        }
        // Write one entry per touched table at the new versionstamp.
        let nb = reqs.len();
        let mut reqs = reqs;
        let ghost reqs0 = reqs@;
        let mut i: usize = 0;
        let ghost old_entries = self.entries@;
        let ghost buf = old(self).cf.buf.b@;
        let ghost nsb = bytes_of_chars(ns@);
        let ghost dbb = bytes_of_chars(db@);
        while i < nb
            invariant
                reqs@ == reqs0.subrange(i as int, nb as int),
                0 <= i <= nb == buf.len() == reqs0.len(),
                self.counters@ == new_counters,
                self.cf.buf.b@ == buf,
                self.entries@.len() == old_entries.len() + i,
                forall|a: int, b: int|
                    0 <= a < b < self.entries@.len() ==> lex_lt(
                        (#[trigger] self.entries@[a]).0@,
                        (#[trigger] self.entries@[b]).0@,
                    ),
                forall|e: int|
                    0 <= e < old_entries.len() ==> has_entry(
                        self.entries@,
                        #[trigger] old_entries[e],
                    ),
                forall|b: int|
                    0 <= b < i ==> has_committed(
                        self.entries@,
                        spec_cf_key(nsb, dbb, vs@, bytes_of_chars((#[trigger] buf[b]).0@)),
                        buf[b],
                    ),
                forall|f: int|
                    0 <= f < self.entries@.len() ==> old_or_committed(
                        #[trigger] self.entries@[f],
                        old_entries,
                        buf,
                        i as int,
                        nsb,
                        dbb,
                        vs@,
                    ),
            decreases nb - i,
        {
            let mut req = reqs.remove(0);
            proof {
                assert(reqs0.subrange(i as int, nb as int)[0] == reqs0[i as int]);
                assert(reqs@ =~= reqs0.subrange(i + 1, nb as int));
            }
            let mut key = req.1;
            let mut vsb: Vec<u8> = Vec::new();
            let mut t: usize = 0;
            while t < 10
                invariant
                    0 <= t <= 10,
                    vsb@ == vs@.subrange(0, t as int),
                decreases 10 - t,
            {
                vsb.push(vs[t]);
                proof {
                    assert(vs@.subrange(0, t as int).push(vs@[t as int]) =~= vs@.subrange(
                        0,
                        t + 1,
                    ));
                }
                t = t + 1;
            }
            proof {
                assert(vs@.subrange(0, 10) =~= vs@);
            }
            key.append(&mut vsb);
            key.append(&mut req.2);
            let ghost tbb = bytes_of_chars(buf[i as int].0@);
            proof {
                assert(key@ =~= spec_cf_key(nsb, dbb, vs@, tbb));
                crate::key::lemma_valid_seg_to_bytes(ns@);
                crate::key::lemma_valid_seg_to_bytes(db@);
                crate::key::lemma_valid_seg_to_bytes(buf[i as int].0@);
                assert(cf_encodable(nsb, dbb, vs@, tbb));
                assert forall|m: int| 0 <= m < self.entries@.len() implies (
                #[trigger] self.entries@[m]).0@ != key@ by {
                    assert(old_or_committed(self.entries@[m], old_entries, buf, i as int, nsb, dbb, vs@));
                    lemma_fresh_key(
                        self.entries@[m],
                        old_entries,
                        old(self).counters@,
                        new_counters,
                        buf,
                        i as int,
                        nsb,
                        dbb,
                        vs@,
                        ns@,
                        db@,
                        c_new as int,
                        j,
                    );
                }
            }
            let val = req.3;
            let ghost pre_entries = self.entries@;
            insert_entry(&mut self.entries, key, val);
            proof {
                let p = choose|p: int|
                    0 <= p <= pre_entries.len() && self.entries@ == pre_entries.insert(
                        p,
                        #[trigger] self.entries@[p],
                    ) && self.entries@[p].0@ == spec_cf_key(nsb, dbb, vs@, tbb)
                        && self.entries@[p].1 == val;
                assert(tms_eq(val, buf[i as int]));
                lemma_insert_step(
                    pre_entries,
                    self.entries@,
                    p,
                    old_entries,
                    buf,
                    i as int,
                    nsb,
                    dbb,
                    vs@,
                );
            }
            i = i + 1;
        }
        // Drain the buffer: it is consumed exactly once per transaction.
        self.cf = Writer::new();
        proof {
            assert forall|e: int| 0 <= e < self.entries@.len() implies entry_wf(
                #[trigger] self.entries@[e],
                new_counters,
            ) by {
                if has_entry(old_entries, self.entries@[e]) {
                    let f0 = choose|f0: int|
                        0 <= f0 < old_entries.len() && #[trigger] old_entries[f0]
                            == self.entries@[e];
                    assert(entry_wf(old_entries[f0], new_counters));
                }
                lemma_committed_entry_wf(
                    self.entries@[e],
                    old_entries,
                    new_counters,
                    buf,
                    nb as int,
                    nsb,
                    dbb,
                    vs@,
                    ns@,
                    db@,
                    c_new as int,
                    if found {
                        sidx as int
                    } else {
                        new_counters.len() - 1
                    },
                );
            }
        }
        Ok(vs)
    }
}

/// One insertion step of a commit preserves the commit bookkeeping: old
/// entries stay present, every already-written table stays present, and
/// every entry is an old one or one of this commit's writes.
proof fn lemma_insert_step(
    pre: Seq<Entry>,
    cur: Seq<Entry>,
    p: int,
    old_entries: Seq<Entry>,
    buf: Seq<TableMutations>,
    i: int,
    nsb: Seq<u8>,
    dbb: Seq<u8>,
    vs: Seq<u8>,
)
    requires
        0 <= p <= pre.len(),
        cur == pre.insert(p, cur[p]),
        0 <= i < buf.len(),
        cur[p].0@ == spec_cf_key(nsb, dbb, vs, bytes_of_chars(buf[i].0@)),
        tms_eq(cur[p].1, buf[i]),
        forall|e: int| 0 <= e < old_entries.len() ==> has_entry(pre, #[trigger] old_entries[e]),
        forall|b: int|
            0 <= b < i ==> has_committed(
                pre,
                spec_cf_key(nsb, dbb, vs, bytes_of_chars((#[trigger] buf[b]).0@)),
                buf[b],
            ),
        forall|f: int|
            0 <= f < pre.len() ==> old_or_committed(
                #[trigger] pre[f],
                old_entries,
                buf,
                i,
                nsb,
                dbb,
                vs,
            ),
    ensures
        forall|e: int| 0 <= e < old_entries.len() ==> has_entry(cur, #[trigger] old_entries[e]),
        forall|b: int|
            0 <= b < i + 1 ==> has_committed(
                cur,
                spec_cf_key(nsb, dbb, vs, bytes_of_chars((#[trigger] buf[b]).0@)),
                buf[b],
            ),
        forall|f: int|
            0 <= f < cur.len() ==> old_or_committed(
                #[trigger] cur[f],
                old_entries,
                buf,
                i + 1,
                nsb,
                dbb,
                vs,
            ),
{
    assert forall|e: int| 0 <= e < old_entries.len() implies has_entry(
        cur,
        #[trigger] old_entries[e],
    ) by {
        assert(has_entry(pre, old_entries[e]));
        let f0 = choose|f0: int| 0 <= f0 < pre.len() && #[trigger] pre[f0] == old_entries[e];
        if f0 < p {
            assert(cur[f0] == old_entries[e]);
        } else {
            assert(cur[f0 + 1] == old_entries[e]);
        }
    }
    assert forall|b: int| 0 <= b < i + 1 implies has_committed(
        cur,
        spec_cf_key(nsb, dbb, vs, bytes_of_chars((#[trigger] buf[b]).0@)),
        buf[b],
    ) by {
        if b == i {
            assert((cur[p]).0@ == spec_cf_key(nsb, dbb, vs, bytes_of_chars(buf[b].0@)) && tms_eq(
                cur[p].1,
                buf[b],
            ));
        } else {
            assert(has_committed(
                pre,
                spec_cf_key(nsb, dbb, vs, bytes_of_chars(buf[b].0@)),
                buf[b],
            ));
            let f0 = choose|f0: int|
                0 <= f0 < pre.len() && (#[trigger] pre[f0]).0@ == spec_cf_key(
                    nsb,
                    dbb,
                    vs,
                    bytes_of_chars(buf[b].0@),
                ) && tms_eq(pre[f0].1, buf[b]);
            if f0 < p {
                assert((cur[f0]).0@ == spec_cf_key(nsb, dbb, vs, bytes_of_chars(buf[b].0@))
                    && tms_eq(cur[f0].1, buf[b]));
            } else {
                assert((cur[f0 + 1]).0@ == spec_cf_key(nsb, dbb, vs, bytes_of_chars(buf[b].0@))
                    && tms_eq(cur[f0 + 1].1, buf[b]));
            }
        }
    }
    assert forall|f: int| 0 <= f < cur.len() implies old_or_committed(
        #[trigger] cur[f],
        old_entries,
        buf,
        i + 1,
        nsb,
        dbb,
        vs,
    ) by {
        if f < p {
            assert(cur[f] == pre[f]);
            assert(old_or_committed(pre[f], old_entries, buf, i, nsb, dbb, vs));
        } else if f == p {
            assert(cur[p].0@ == spec_cf_key(nsb, dbb, vs, bytes_of_chars(buf[i].0@)));
        } else {
            assert(cur[f] == pre[f - 1]);
            assert(old_or_committed(pre[f - 1], old_entries, buf, i, nsb, dbb, vs));
        }
    }
}

/// A key stamped with a fresh counter value cannot already stand in the
/// store: older entries of the scope have smaller versionstamps, entries
/// of other scopes differ in their scope segments, and entries of this
/// commit differ in their table segment.
#[verifier::rlimit(100)]
proof fn lemma_fresh_key(
    entry: Entry,
    old_entries: Seq<Entry>,
    old_counters: Seq<(String, String, u64)>,
    new_counters: Seq<(String, String, u64)>,
    buf: Seq<TableMutations>,
    i: int,
    nsb: Seq<u8>,
    dbb: Seq<u8>,
    vs: Seq<u8>,
    ns: Seq<char>,
    db: Seq<char>,
    c_new: int,
    j: int,
)
    requires
        cf_encodable(nsb, dbb, vs, bytes_of_chars(buf[i].0@)),
        nsb == bytes_of_chars(ns),
        dbb == bytes_of_chars(db),
        valid_seg_chars(ns),
        valid_seg_chars(db),
        be_num(vs) == c_new * 0x10000,
        j == find_scope(old_counters, ns, db),
        j == -1 ==> c_new == 1,
        j != -1 ==> 0 <= j < old_counters.len() && c_new == old_counters[j].2 + 1,
        0 <= i < buf.len(),
        // the buffer names tables at most once
        forall|a: int, b: int|
            0 <= a < b < buf.len() ==> (#[trigger] buf[a]).0@ != (#[trigger] buf[b]).0@,
        forall|b: int| 0 <= b < buf.len() ==> valid_seg_chars((#[trigger] buf[b]).0@),
        // the entry is either an old one or one of this commit's earlier writes
        old_or_committed(entry, old_entries, buf, i, nsb, dbb, vs),
        forall|e: int|
            0 <= e < old_entries.len() ==> entry_wf(#[trigger] old_entries[e], old_counters),
        forall|k: int|
            0 <= k < old_counters.len() ==> valid_seg_chars((#[trigger] old_counters[k]).0@)
                && valid_seg_chars(old_counters[k].1@),
        forall|a: int, b: int|
            0 <= a < b < old_counters.len() ==> !((#[trigger] old_counters[a]).0@ == (
            #[trigger] old_counters[b]).0@ && old_counters[a].1@ == old_counters[b].1@),
    ensures
        entry.0@ != spec_cf_key(nsb, dbb, vs, bytes_of_chars(buf[i].0@)),
{
    let tbb = bytes_of_chars(buf[i].0@);
    let key = spec_cf_key(nsb, dbb, vs, tbb);
    if entry.0@ == key {
        if has_entry(old_entries, entry) {
            let e = choose|e: int| 0 <= e < old_entries.len() && #[trigger] old_entries[e] == entry;
            assert(entry_wf(entry, old_counters));
            let oj = choose|oj: int|
                0 <= oj < old_counters.len() && {
                    let f = spec_cf_fields(entry.0@);
                    &&& f.0 == bytes_of_chars((#[trigger] old_counters[oj]).0@)
                    &&& f.1 == bytes_of_chars(old_counters[oj].1@)
                    &&& be_num(f.2) <= old_counters[oj].2 * 0x10000
                };
            let f = spec_cf_fields(entry.0@);
            assert(cf_encodable(f.0, f.1, f.2, f.3) && entry.0@ == spec_cf_key(
                f.0,
                f.1,
                f.2,
                f.3,
            )) by {
                let (a, b, c, d) = choose|a: Seq<u8>, b: Seq<u8>, c: Seq<u8>, d: Seq<u8>|
                    cf_encodable(a, b, c, d) && entry.0@ == #[trigger] spec_cf_key(a, b, c, d);
                assert(cf_encodable(a, b, c, d) && entry.0@ == spec_cf_key(a, b, c, d));
                let w = (a, b, c, d);
                assert(cf_encodable(w.0, w.1, w.2, w.3) && entry.0@ == spec_cf_key(
                    w.0,
                    w.1,
                    w.2,
                    w.3,
                ));
            }
            crate::key::cf::lemma_cf_key_injective(
                f.0,
                f.1,
                f.2,
                f.3,
                nsb,
                dbb,
                vs,
                tbb,
            );
            assert(f.0 == nsb && f.1 == dbb && f.2 == vs);
            // the entry's scope is this scope
            crate::text::lemma_bytes_of_chars_inj(old_counters[oj].0@, ns);
            crate::text::lemma_bytes_of_chars_inj(old_counters[oj].1@, db);
            lemma_find_scope_first(old_counters, ns, db, oj);
            lemma_find_scope(old_counters, ns, db);
            assert(j != -1);
            assert(old_counters[j].0@ == ns && old_counters[j].1@ == db);
            if oj != j {
                if oj < j {
                    assert(!(old_counters[oj].0@ == old_counters[j].0@ && old_counters[oj].1@
                        == old_counters[j].1@));
                } else {
                    assert(!(old_counters[j].0@ == old_counters[oj].0@ && old_counters[j].1@
                        == old_counters[oj].1@));
                }
                assert(false);
            }
            assert(be_num(vs) <= old_counters[j].2 * 0x10000);
            assert(c_new * 0x10000 <= (c_new - 1) * 0x10000);
            assert(false);
        } else {
            let b = choose|b: int|
                0 <= b < i && entry.0@ == spec_cf_key(nsb, dbb, vs, bytes_of_chars(
                    (#[trigger] buf[b]).0@,
                ));
            crate::key::lemma_valid_seg_to_bytes(buf[b].0@);
            crate::key::cf::lemma_cf_key_injective(
                nsb,
                dbb,
                vs,
                bytes_of_chars(buf[b].0@),
                nsb,
                dbb,
                vs,
                tbb,
            );
            crate::text::lemma_bytes_of_chars_inj(buf[b].0@, buf[i].0@);
            assert(false);
        }
    }
}

/// Every entry after a commit is well-formed for the updated counters.
proof fn lemma_committed_entry_wf(
    entry: Entry,
    old_entries: Seq<Entry>,
    new_counters: Seq<(String, String, u64)>,
    buf: Seq<TableMutations>,
    nb: int,
    nsb: Seq<u8>,
    dbb: Seq<u8>,
    vs: Seq<u8>,
    ns: Seq<char>,
    db: Seq<char>,
    c_new: int,
    jn: int,
)
    requires
        nsb == bytes_of_chars(ns),
        dbb == bytes_of_chars(db),
        valid_seg_chars(ns),
        valid_seg_chars(db),
        be_num(vs) == c_new * 0x10000,
        vs.len() == 10,
        0 <= jn < new_counters.len(),
        new_counters[jn].0@ == ns,
        new_counters[jn].1@ == db,
        new_counters[jn].2 == c_new,
        nb == buf.len(),
        forall|b: int| 0 <= b < buf.len() ==> valid_seg_chars((#[trigger] buf[b]).0@),
        has_entry(old_entries, entry) ==> entry_wf(entry, new_counters),
        old_or_committed(entry, old_entries, buf, nb, nsb, dbb, vs),
    ensures
        entry_wf(entry, new_counters),
{
    if has_entry(old_entries, entry) {
    } else {
        let b = choose|b: int|
            0 <= b < nb && entry.0@ == spec_cf_key(nsb, dbb, vs, bytes_of_chars(
                (#[trigger] buf[b]).0@,
            ));
        let tbb = bytes_of_chars(buf[b].0@);
        crate::key::lemma_valid_seg_to_bytes(ns);
        crate::key::lemma_valid_seg_to_bytes(db);
        crate::key::lemma_valid_seg_to_bytes(buf[b].0@);
        assert(cf_encodable(nsb, dbb, vs, tbb));
        assert(is_cf_key(entry.0@));
        let f = spec_cf_fields(entry.0@);
        assert(cf_encodable(f.0, f.1, f.2, f.3) && entry.0@ == spec_cf_key(f.0, f.1, f.2, f.3))
            by {
            let (a2, b2, c2, d2) = choose|a2: Seq<u8>, b2: Seq<u8>, c2: Seq<u8>, d2: Seq<u8>|
                cf_encodable(a2, b2, c2, d2) && entry.0@ == #[trigger] spec_cf_key(
                    a2,
                    b2,
                    c2,
                    d2,
                );
            assert(cf_encodable(a2, b2, c2, d2) && entry.0@ == spec_cf_key(a2, b2, c2, d2));
            let w = (a2, b2, c2, d2);
            assert(cf_encodable(w.0, w.1, w.2, w.3) && entry.0@ == spec_cf_key(
                w.0,
                w.1,
                w.2,
                w.3,
            ));
        }
        crate::key::cf::lemma_cf_key_injective(f.0, f.1, f.2, f.3, nsb, dbb, vs, tbb);
        assert(f.0 == nsb && f.1 == dbb && f.2 == vs);
        assert(be_num(f.2) <= new_counters[jn].2 * 0x10000);
    }
}

/// The scope at a found index is the only one with those names.
pub proof fn lemma_find_scope_at(
    s: Seq<(String, String, u64)>,
    ns: Seq<char>,
    db: Seq<char>,
    i: int,
)
    requires
        0 <= i < s.len(),
        s[i].0@ == ns && s[i].1@ == db,
        find_scope(s, ns, db) != -1,
        forall|k: int| 0 <= k < i ==> !((#[trigger] s[k]).0@ == ns && s[k].1@ == db),
    ensures
        find_scope(s, ns, db) == i,
    decreases s.len(),
{
    lemma_find_scope(s, ns, db);
    let j = find_scope(s, ns, db);
    if j < i {
        assert(s[j].0@ == ns && s[j].1@ == db);
        assert(false);
    }
    if j > i {
        lemma_find_scope_first(s, ns, db, i);
    }
}

/// No match can precede the found index.
proof fn lemma_find_scope_first(
    s: Seq<(String, String, u64)>,
    ns: Seq<char>,
    db: Seq<char>,
    i: int,
)
    requires
        0 <= i < s.len(),
        s[i].0@ == ns && s[i].1@ == db,
    ensures
        0 <= find_scope(s, ns, db) <= i,
    decreases s.len(),
{
    if s.first().0@ == ns && s.first().1@ == db {
        assert(find_scope(s, ns, db) == 0);
    } else {
        assert(s[0] == s.first());
        assert(i > 0);
        assert(s.drop_first()[i - 1] == s[i]);
        lemma_find_scope_first(s.drop_first(), ns, db, i - 1);
        let r = find_scope(s.drop_first(), ns, db);
        assert(find_scope(s, ns, db) == r + 1);
    }
}

/// Copies a byte vector.
pub fn clone_bytes(v: &Vec<u8>) -> (r: Vec<u8>)
    ensures
        r@ == v@,
{
    let mut r: Vec<u8> = Vec::new();
    let n = v.len();
    let mut i: usize = 0;
    while i < n
        invariant
            0 <= i <= n == v@.len(),
            r@ == v@.subrange(0, i as int),
        decreases n - i,
    {
        r.push(v[i]);
        proof {
            assert(v@.subrange(0, i as int).push(v@[i as int]) =~= v@.subrange(0, i + 1));
        }
        i = i + 1;
    }
    proof {
        assert(v@.subrange(0, n as int) =~= v@);
    }
    r
}

/// One scan step: how the remaining scan relates across one entry.
proof fn lemma_scan_step(
    s: Seq<Entry>,
    beg: Seq<u8>,
    end: Seq<u8>,
    limit: nat,
    taken: nat,
    i: int,
)
    requires
        0 <= i < s.len(),
        taken < limit,
        spec_scan(s, beg, end, limit) == spec_scan(s.subrange(0, i), beg, end, limit)
            + spec_scan(s.subrange(i, s.len() as int), beg, end, (limit - taken) as nat),
        spec_scan(s.subrange(0, i), beg, end, limit).len() == taken,
    ensures
        in_range(s[i].0@, beg, end) ==> spec_scan(s, beg, end, limit) == spec_scan(
            s.subrange(0, i + 1),
            beg,
            end,
            limit,
        ) + spec_scan(s.subrange(i + 1, s.len() as int), beg, end, (limit - taken - 1) as nat)
            && spec_scan(s.subrange(0, i + 1), beg, end, limit) == spec_scan(
            s.subrange(0, i),
            beg,
            end,
            limit,
        ).push(s[i]),
        !in_range(s[i].0@, beg, end) ==> spec_scan(s, beg, end, limit) == spec_scan(
            s.subrange(0, i + 1),
            beg,
            end,
            limit,
        ) + spec_scan(s.subrange(i + 1, s.len() as int), beg, end, (limit - taken) as nat)
            && spec_scan(s.subrange(0, i + 1), beg, end, limit) == spec_scan(
            s.subrange(0, i),
            beg,
            end,
            limit,
        ),
{
    let post = s.subrange(i, s.len() as int);
    assert(post.first() == s[i]);
    assert(post.drop_first() =~= s.subrange(i + 1, s.len() as int));
    lemma_scan_snoc(s.subrange(0, i), s[i], beg, end, limit, taken);
    assert(s.subrange(0, i).push(s[i]) =~= s.subrange(0, i + 1));
}

/// Appending one entry to a scanned prefix extends the scan by at most
/// that entry.
proof fn lemma_scan_snoc(s: Seq<Entry>, x: Entry, beg: Seq<u8>, end: Seq<u8>, limit: nat, taken: nat)
    requires
        spec_scan(s, beg, end, limit).len() == taken,
        taken < limit,
    ensures
        in_range(x.0@, beg, end) ==> spec_scan(s.push(x), beg, end, limit) == spec_scan(
            s,
            beg,
            end,
            limit,
        ).push(x),
        !in_range(x.0@, beg, end) ==> spec_scan(s.push(x), beg, end, limit) == spec_scan(
            s,
            beg,
            end,
            limit,
        ),
    decreases s.len(),
{
    if s.len() == 0 {
        assert(s.push(x).first() == x);
        assert(s.push(x).drop_first() =~= Seq::<Entry>::empty());
        if in_range(x.0@, beg, end) {
            assert(spec_scan(s.push(x), beg, end, limit) == seq![s.push(x).first()] + spec_scan(
                s.push(x).drop_first(),
                beg,
                end,
                (limit - 1) as nat,
            ));
            assert(spec_scan(Seq::<Entry>::empty(), beg, end, (limit - 1) as nat)
                == Seq::<Entry>::empty());
            assert(spec_scan(s.push(x), beg, end, limit) =~= seq![x]);
            assert(spec_scan(s, beg, end, limit).push(x) =~= seq![x]);
        } else {
            assert(spec_scan(s.push(x), beg, end, limit) == spec_scan(
                s.push(x).drop_first(),
                beg,
                end,
                limit,
            ));
            assert(spec_scan(s.push(x), beg, end, limit) =~= spec_scan(s, beg, end, limit));
        }
    } else {
        assert(s.push(x).first() == s.first());
        assert(s.push(x).drop_first() =~= s.drop_first().push(x));
        if in_range(s.first().0@, beg, end) {
            assert(spec_scan(s, beg, end, limit) == seq![s.first()] + spec_scan(
                s.drop_first(),
                beg,
                end,
                (limit - 1) as nat,
            ));
            assert(taken >= 1);
            lemma_scan_snoc(s.drop_first(), x, beg, end, (limit - 1) as nat, (taken - 1) as nat);
            if in_range(x.0@, beg, end) {
                assert(spec_scan(s.push(x), beg, end, limit) =~= spec_scan(
                    s,
                    beg,
                    end,
                    limit,
                ).push(x));
            } else {
                assert(spec_scan(s.push(x), beg, end, limit) =~= spec_scan(s, beg, end, limit));
            }
        } else {
            lemma_scan_snoc(s.drop_first(), x, beg, end, limit, taken);
            if in_range(x.0@, beg, end) {
                assert(spec_scan(s.push(x), beg, end, limit) =~= spec_scan(
                    s,
                    beg,
                    end,
                    limit,
                ).push(x));
            } else {
                assert(spec_scan(s.push(x), beg, end, limit) =~= spec_scan(s, beg, end, limit));
            }
        }
    }
}

/// A scan with no budget returns nothing.
proof fn lemma_scan_zero(s: Seq<Entry>, beg: Seq<u8>, end: Seq<u8>)
    ensures
        spec_scan(s, beg, end, 0) =~= Seq::<Entry>::empty(),
{
}

} // verus!
