//! The change-feed key: scope prefix, a `!cf` marker, a 10-byte
//! versionstamp, then the table name and its terminator.  Lexicographic
//! byte order of encoded keys equals tuple order of
//! (namespace, database, versionstamp, table).

use vstd::prelude::*;
use crate::err::Error;
use crate::key::{spec_db_key, valid_seg_bytes, valid_seg_chars, check_seg, push_seg, scan_seg};
use crate::text::{ascii_to_string, bytes_of_chars};
use crate::vs::{Versionstamp, be_num, lex_lt, u64_to_versionstamp};

verus! {

/// The scope prefix followed by the `!cf` marker: what every change-feed
/// key of one (namespace, database) pair starts with.
pub open spec fn spec_cf_root(ns: Seq<u8>, db: Seq<u8>) -> Seq<u8> {
    spec_db_key(ns, db) + seq![33u8, 99u8, 102u8]
}

/// The full change-feed key layout.
pub open spec fn spec_cf_key(ns: Seq<u8>, db: Seq<u8>, ts: Seq<u8>, tb: Seq<u8>) -> Seq<u8> {
    spec_cf_root(ns, db) + ts + seq![42u8] + tb + seq![0u8]
}

/// When four byte segments can stand in a change-feed key.
pub open spec fn cf_encodable(ns: Seq<u8>, db: Seq<u8>, ts: Seq<u8>, tb: Seq<u8>) -> bool {
    valid_seg_bytes(ns) && valid_seg_bytes(db) && ts.len() == 10 && valid_seg_bytes(tb)
}

/// Whether a byte string is a well-formed change-feed key.
pub open spec fn is_cf_key(k: Seq<u8>) -> bool {
    exists|ns: Seq<u8>, db: Seq<u8>, ts: Seq<u8>, tb: Seq<u8>|
        cf_encodable(ns, db, ts, tb) && k == #[trigger] spec_cf_key(ns, db, ts, tb)
}

/// The segments of a well-formed change-feed key; meaningful only when
/// [`is_cf_key`] holds, and then unique by [`lemma_cf_key_injective`].
pub open spec fn spec_cf_fields(k: Seq<u8>) -> (Seq<u8>, Seq<u8>, Seq<u8>, Seq<u8>) {
    choose|f: (Seq<u8>, Seq<u8>, Seq<u8>, Seq<u8>)|
        cf_encodable(f.0, f.1, f.2, f.3) && k == #[trigger] spec_cf_key(f.0, f.1, f.2, f.3)
}

/// Where each region of the encoded key lies.
pub proof fn lemma_cf_layout(ns: Seq<u8>, db: Seq<u8>, ts: Seq<u8>, tb: Seq<u8>)
    requires
        cf_encodable(ns, db, ts, tb),
    ensures
        ({
            let k = spec_cf_key(ns, db, ts, tb);
            let a = 2 + ns.len() as int;
            let b = a + 2 + db.len() as int;
            &&& k.len() == ns.len() + db.len() + tb.len() + 20
            &&& k[0] == 47 && k[1] == 42
            &&& (forall|j: int| 2 <= j < a ==> #[trigger] k[j] == ns[j - 2])
            &&& k[a] == 0 && k[a + 1] == 42
            &&& (forall|j: int| a + 2 <= j < b ==> #[trigger] k[j] == db[j - (a + 2)])
            &&& k[b] == 0 && k[b + 1] == 33 && k[b + 2] == 99 && k[b + 3] == 102
            &&& (forall|j: int| b + 4 <= j < b + 14 ==> #[trigger] k[j] == ts[j - (b + 4)])
            &&& k[b + 14] == 42
            &&& (forall|j: int|
                b + 15 <= j < k.len() - 1 ==> #[trigger] k[j] == tb[j - (b + 15)])
            &&& k[k.len() - 1] == 0
        }),
{
    let k = spec_cf_key(ns, db, ts, tb);
    let a = 2 + ns.len() as int;
    let b = a + 2 + db.len() as int;
    assert(k.len() == ns.len() + db.len() + tb.len() + 20);
    assert forall|j: int| 0 <= j < k.len() implies #[trigger] k[j] == ({
        if j < 2 {
            seq![47u8, 42u8][j]
        } else if j < a {
            ns[j - 2]
        } else if j < a + 2 {
            seq![0u8, 42u8][j - a]
        } else if j < b {
            db[j - (a + 2)]
        } else if j < b + 4 {
            seq![0u8, 33u8, 99u8, 102u8][j - b]
        } else if j < b + 14 {
            ts[j - (b + 4)]
        } else if j == b + 14 {
            42u8
        } else if j < k.len() - 1 {
            tb[j - (b + 15)]
        } else {
            0u8
        }
    }) by {}
}

/// Two well-formed keys built from the same bytes name the same segments:
/// together with the contracts of `encode` and `decode` this says that
/// decoding an encoded key returns exactly the namespace, database,
/// versionstamp and table that went in.
pub proof fn lemma_cf_key_injective(
    ns1: Seq<u8>, db1: Seq<u8>, ts1: Seq<u8>, tb1: Seq<u8>,
    ns2: Seq<u8>, db2: Seq<u8>, ts2: Seq<u8>, tb2: Seq<u8>,
)
    requires
        cf_encodable(ns1, db1, ts1, tb1),
        cf_encodable(ns2, db2, ts2, tb2),
        spec_cf_key(ns1, db1, ts1, tb1) == spec_cf_key(ns2, db2, ts2, tb2),
    ensures
        ns1 == ns2,
        db1 == db2,
        ts1 == ts2,
        tb1 == tb2,
{
    let k = spec_cf_key(ns1, db1, ts1, tb1);
    lemma_cf_layout(ns1, db1, ts1, tb1);
    lemma_cf_layout(ns2, db2, ts2, tb2);
    let a1 = 2 + ns1.len() as int;
    let a2 = 2 + ns2.len() as int;
    // The first zero byte pins the namespace length.
    if a1 < a2 {
        assert(k[a1] == ns2[a1 - 2]);
        assert(0 < ns2[a1 - 2] < 128);
        assert(false);
    }
    if a2 < a1 {
        assert(k[a2] == ns1[a2 - 2]);
        assert(false);
    }
    assert forall|i: int| 0 <= i < ns1.len() implies ns1[i] == ns2[i] by {
        assert(k[i + 2] == ns1[i]);
        assert(k[i + 2] == ns2[i]);
    }
    assert(ns1 =~= ns2);
    let b1 = a1 + 2 + db1.len() as int;
    let b2 = a2 + 2 + db2.len() as int;
    // The second zero byte pins the database length.
    if b1 < b2 {
        assert(k[b1] == db2[b1 - (a2 + 2)]);
        assert(false);
    }
    if b2 < b1 {
        assert(k[b2] == db1[b2 - (a1 + 2)]);
        assert(false);
    }
    assert forall|i: int| 0 <= i < db1.len() implies db1[i] == db2[i] by {
        assert(k[a1 + 2 + i] == db1[i]);
        assert(k[a2 + 2 + i] == db2[i]);
    }
    assert(db1 =~= db2);
    assert forall|i: int| 0 <= i < 10 implies ts1[i] == ts2[i] by {
        assert(k[b1 + 4 + i] == ts1[i]);
        assert(k[b2 + 4 + i] == ts2[i]);
    }
    assert(ts1 =~= ts2);
    assert(tb1.len() == tb2.len());
    assert forall|i: int| 0 <= i < tb1.len() implies tb1[i] == tb2[i] by {
        assert(k[b1 + 15 + i] == tb1[i]);
        assert(k[b2 + 15 + i] == tb2[i]);
    }
    assert(tb1 =~= tb2);
}

/// A change-feed key: one entry of the durable change log.
#[derive(Clone, Debug, PartialEq, Eq)]
pub struct Cf {
    /// Namespace segment.
    pub ns: String,
    /// Database segment.
    pub db: String,
    /// The versionstamp assigned at commit.
    pub ts: Versionstamp,
    /// Table segment.
    pub tb: String,
}

impl Cf {
    /// When the key can be encoded: all string segments are ASCII and free
    /// of NUL bytes.
    pub open spec fn wf(self) -> bool {
        valid_seg_chars(self.ns@) && valid_seg_chars(self.db@) && valid_seg_chars(self.tb@)
    }

    /// The encoded bytes this key stands for.
    pub open spec fn key_bytes(self) -> Seq<u8> {
        spec_cf_key(
            bytes_of_chars(self.ns@),
            bytes_of_chars(self.db@),
            self.ts@,
            bytes_of_chars(self.tb@),
        )
    }

    /// Builds a key from its four segments.
    pub fn new(ns: String, db: String, ts: Versionstamp, tb: String) -> (r: Cf)
        ensures
            r.ns@ == ns@,
            r.db@ == db@,
            r.ts@ == ts@,
            r.tb@ == tb@,
    {
        Cf { ns, db, ts, tb }
    }

    /// Encodes the key into its byte form; fails exactly when a segment
    /// holds a NUL or non-ASCII character.
    pub fn encode(&self) -> (r: Result<Vec<u8>, Error>)
        ensures
            match r {
                Ok(k) => self.wf() && k@ == self.key_bytes(),
                Err(e) => !self.wf() && e == Error::Encoding,
            },
    {
        if !check_seg(self.ns.as_str()) || !check_seg(self.db.as_str()) || !check_seg(
            self.tb.as_str(),
        ) {
            return Err(Error::Encoding);
        }
        let mut k: Vec<u8> = Vec::new();
        k.push(47u8);
        k.push(42u8);
        push_seg(&mut k, self.ns.as_str());
        k.push(0u8);
        k.push(42u8);
        push_seg(&mut k, self.db.as_str());
        k.push(0u8);
        k.push(33u8);
        k.push(99u8);
        k.push(102u8);
        let mut i: usize = 0;
        let ghost mid = k@;
        while i < 10
            invariant
                0 <= i <= 10,
                k@ == mid + self.ts@.subrange(0, i as int),
            decreases 10 - i,
        {
            k.push(self.ts[i]);
            proof {
                assert(mid + self.ts@.subrange(0, i as int) + seq![self.ts@[i as int]] =~= mid
                    + self.ts@.subrange(0, i + 1));
            }
            i = i + 1;
        }
        proof {
            assert(self.ts@.subrange(0, 10) =~= self.ts@);
        }
        k.push(42u8);
        push_seg(&mut k, self.tb.as_str());
        k.push(0u8);
        proof {
            assert(k@ =~= self.key_bytes());
        }
        Ok(k)
    }
}

impl Cf {
    /// Decodes an encoded change-feed key; structurally invalid input is
    /// rejected as a whole rather than decoded into a partial result.
    #[verifier::rlimit(100)]
    pub fn decode(k: &[u8]) -> (r: Result<Cf, Error>)
        ensures
            match r {
                Ok(c) => c.wf() && k@ == c.key_bytes() && is_cf_key(k@),
                Err(e) => e == Error::Encoding && !is_cf_key(k@),
            },
    {
        let n = k.len();
        if n < 20 {
            proof {
                lemma_reject_short(k@);
            }
            return Err(Error::Encoding);
        }
        if k[0] != 47 || k[1] != 42 {
            proof {
                lemma_reject_head(k@);
            }
            return Err(Error::Encoding);
        }
        let ns_end = match scan_seg(k, 2) {
            Some(p) => p,
            None => {
                proof {
                    lemma_reject_ns_scan(k@);
                }
                return Err(Error::Encoding);
            },
        };
        if ns_end + 1 == n || k[ns_end + 1] != 42 {
            proof {
                lemma_reject_ns_mark(k@, ns_end as int);
            }
            return Err(Error::Encoding);
        }
        let db_end = match scan_seg(k, ns_end + 2) {
            Some(p) => p,
            None => {
                proof {
                    lemma_reject_db_scan(k@, ns_end as int);
                }
                return Err(Error::Encoding);
            },
        };
        if n - db_end < 16 {
            proof {
                lemma_reject_tail_short(k@, ns_end as int, db_end as int);
            }
            return Err(Error::Encoding);
        }
        if k[db_end + 1] != 33 || k[db_end + 2] != 99 || k[db_end + 3] != 102 || k[db_end + 14]
            != 42 {
            proof {
                lemma_reject_marks(k@, ns_end as int, db_end as int);
            }
            return Err(Error::Encoding);
        }
        let ts: Versionstamp = [
            k[db_end + 4],
            k[db_end + 5],
            k[db_end + 6],
            k[db_end + 7],
            k[db_end + 8],
            k[db_end + 9],
            k[db_end + 10],
            k[db_end + 11],
            k[db_end + 12],
            k[db_end + 13],
        ];
        let tb_end = match scan_seg(k, db_end + 15) {
            Some(p) => p,
            None => {
                proof {
                    lemma_reject_tb_scan(k@, ns_end as int, db_end as int);
                }
                return Err(Error::Encoding);
            },
        };
        if tb_end != n - 1 {
            proof {
                lemma_reject_tb_end(k@, ns_end as int, db_end as int, tb_end as int);
            }
            return Err(Error::Encoding);
        }
        proof {
            lemma_assemble(k@, ns_end as int, db_end as int);
            assert(ts@ =~= k@.subrange(db_end + 4, db_end + 14));
        }
        let ns = ascii_to_string(&k[2..ns_end]);
        let db = ascii_to_string(&k[ns_end + 2..db_end]);
        let tb = ascii_to_string(&k[db_end + 15..n - 1]);
        let c = Cf { ns, db, ts, tb };
        proof {
            let ns_b = k@.subrange(2, ns_end as int);
            let db_b = k@.subrange(ns_end + 2, db_end as int);
            let tb_b = k@.subrange(db_end + 15, k@.len() - 1);
            crate::text::lemma_bytes_chars_round_trip(ns_b);
            crate::text::lemma_bytes_chars_round_trip(db_b);
            crate::text::lemma_bytes_chars_round_trip(tb_b);
            assert(valid_seg_chars(c.ns@)) by {
                assert(forall|i: int|
                    0 <= i < ns_b.len() ==> c.ns@[i] == (#[trigger] ns_b[i]) as char);
            }
            assert(valid_seg_chars(c.db@)) by {
                assert(forall|i: int|
                    0 <= i < db_b.len() ==> c.db@[i] == (#[trigger] db_b[i]) as char);
            }
            assert(valid_seg_chars(c.tb@)) by {
                assert(forall|i: int|
                    0 <= i < tb_b.len() ==> c.tb@[i] == (#[trigger] tb_b[i]) as char);
            }
            assert(bytes_of_chars(c.ns@) == ns_b);
            assert(bytes_of_chars(c.db@) == db_b);
            assert(bytes_of_chars(c.tb@) == tb_b);
            assert(c.key_bytes() == spec_cf_key(ns_b, db_b, ts@, tb_b));
        }
        Ok(c)
    }
}

/// The parse facts after the namespace scan: a first valid zero at `a`.
spec fn parsed_ns(k: Seq<u8>, a: int) -> bool {
    &&& 2 <= a < k.len()
    &&& k[a] == 0
    &&& forall|j: int| 2 <= j < a ==> 0 < #[trigger] k[j] < 128
}

/// The parse facts after the database scan: a first valid zero at `b` when
/// scanning from `a + 2`.
spec fn parsed_db(k: Seq<u8>, a: int, b: int) -> bool {
    &&& a + 2 <= b < k.len()
    &&& k[b] == 0
    &&& forall|j: int| a + 2 <= j < b ==> 0 < #[trigger] k[j] < 128
}

/// Obtains the segments that a well-formed key is built from.
proof fn lemma_cf_fields(k: Seq<u8>) -> (f: (Seq<u8>, Seq<u8>, Seq<u8>, Seq<u8>))
    requires
        is_cf_key(k),
    ensures
        f == spec_cf_fields(k),
        cf_encodable(f.0, f.1, f.2, f.3),
        k == spec_cf_key(f.0, f.1, f.2, f.3),
{
    let (ns, db, ts, tb) = choose|ns: Seq<u8>, db: Seq<u8>, ts: Seq<u8>, tb: Seq<u8>|
        cf_encodable(ns, db, ts, tb) && k == #[trigger] spec_cf_key(ns, db, ts, tb);
    assert(cf_encodable(ns, db, ts, tb) && k == spec_cf_key(ns, db, ts, tb));
    let w = (ns, db, ts, tb);
    assert(cf_encodable(w.0, w.1, w.2, w.3) && k == spec_cf_key(w.0, w.1, w.2, w.3));
    let f = spec_cf_fields(k);
    assert(cf_encodable(f.0, f.1, f.2, f.3) && k == spec_cf_key(f.0, f.1, f.2, f.3));
    f
}

/// A key shorter than the empty-segment layout is no key.
proof fn lemma_reject_short(k: Seq<u8>)
    requires
        k.len() < 20,
    ensures
        !is_cf_key(k),
{
    if is_cf_key(k) {
        let f = lemma_cf_fields(k);
        lemma_cf_layout(f.0, f.1, f.2, f.3);
    }
}

/// A key that does not open with the scope markers is no key.
proof fn lemma_reject_head(k: Seq<u8>)
    requires
        k.len() >= 2,
        k[0] != 47 || k[1] != 42,
    ensures
        !is_cf_key(k),
{
    if is_cf_key(k) {
        let f = lemma_cf_fields(k);
        lemma_cf_layout(f.0, f.1, f.2, f.3);
    }
}

/// Without a cleanly terminated namespace segment there is no key.
proof fn lemma_reject_ns_scan(k: Seq<u8>)
    requires
        forall|p: int|
            2 <= p < k.len() && k[p] == 0 ==> exists|j: int|
                2 <= j < p && !(0 < #[trigger] k[j] < 128),
    ensures
        !is_cf_key(k),
{
    if is_cf_key(k) {
        let f = lemma_cf_fields(k);
        lemma_cf_layout(f.0, f.1, f.2, f.3);
        let a = 2 + f.0.len() as int;
        assert(k[a] == 0);
        let j = choose|j: int| 2 <= j < a && !(0 < #[trigger] k[j] < 128);
        assert(k[j] == f.0[j - 2]);
        assert(false);
    }
}

/// In a well-formed key, the first valid zero ends the namespace region.
proof fn lemma_ns_end_pinned(k: Seq<u8>, a: int)
    requires
        is_cf_key(k),
        parsed_ns(k, a),
    ensures
        a == 2 + spec_cf_fields(k).0.len(),
{
    let f = lemma_cf_fields(k);
    lemma_cf_layout(f.0, f.1, f.2, f.3);
    let a0 = 2 + f.0.len() as int;
    if a < a0 {
        assert(k[a] == f.0[a - 2]);
        assert(valid_seg_bytes(f.0));
        assert(false);
    }
    if a0 < a {
        assert(0 < k[a0] < 128);
        assert(false);
    }
}

/// Without the database marker after the namespace there is no key.
proof fn lemma_reject_ns_mark(k: Seq<u8>, a: int)
    requires
        parsed_ns(k, a),
        a + 1 == k.len() || k[a + 1] != 42,
    ensures
        !is_cf_key(k),
{
    if is_cf_key(k) {
        lemma_ns_end_pinned(k, a);
        let f = lemma_cf_fields(k);
        lemma_cf_layout(f.0, f.1, f.2, f.3);
    }
}

/// Without a cleanly terminated database segment there is no key.
proof fn lemma_reject_db_scan(k: Seq<u8>, a: int)
    requires
        parsed_ns(k, a),
        a + 2 <= k.len(),
        forall|p: int|
            a + 2 <= p < k.len() && k[p] == 0 ==> exists|j: int|
                a + 2 <= j < p && !(0 < #[trigger] k[j] < 128),
    ensures
        !is_cf_key(k),
{
    if is_cf_key(k) {
        lemma_ns_end_pinned(k, a);
        let f = lemma_cf_fields(k);
        lemma_cf_layout(f.0, f.1, f.2, f.3);
        let b = a + 2 + f.1.len() as int;
        assert(k[b] == 0);
        let j = choose|j: int| a + 2 <= j < b && !(0 < #[trigger] k[j] < 128);
        assert(k[j] == f.1[j - (a + 2)]);
        assert(false);
    }
}

/// In a well-formed key, the next valid zero ends the database region.
proof fn lemma_db_end_pinned(k: Seq<u8>, a: int, b: int)
    requires
        is_cf_key(k),
        parsed_ns(k, a),
        parsed_db(k, a, b),
    ensures
        b == a + 2 + spec_cf_fields(k).1.len(),
{
    lemma_ns_end_pinned(k, a);
    let f = lemma_cf_fields(k);
    lemma_cf_layout(f.0, f.1, f.2, f.3);
    let b0 = a + 2 + f.1.len() as int;
    if b < b0 {
        assert(k[b] == f.1[b - (a + 2)]);
        assert(valid_seg_bytes(f.1));
        assert(false);
    }
    if b0 < b {
        assert(0 < k[b0] < 128);
        assert(false);
    }
}

/// A key without room for marker, versionstamp, table and terminator after
/// the database region is no key.
proof fn lemma_reject_tail_short(k: Seq<u8>, a: int, b: int)
    requires
        parsed_ns(k, a),
        parsed_db(k, a, b),
        k.len() - b < 16,
    ensures
        !is_cf_key(k),
{
    if is_cf_key(k) {
        lemma_db_end_pinned(k, a, b);
        let f = lemma_cf_fields(k);
        lemma_cf_layout(f.0, f.1, f.2, f.3);
    }
}

/// A key with wrong change-feed or table markers is no key.
proof fn lemma_reject_marks(k: Seq<u8>, a: int, b: int)
    requires
        parsed_ns(k, a),
        parsed_db(k, a, b),
        k.len() - b >= 16,
        k[b + 1] != 33 || k[b + 2] != 99 || k[b + 3] != 102 || k[b + 14] != 42,
    ensures
        !is_cf_key(k),
{
    if is_cf_key(k) {
        lemma_db_end_pinned(k, a, b);
        let f = lemma_cf_fields(k);
        lemma_cf_layout(f.0, f.1, f.2, f.3);
    }
}

/// Without a cleanly terminated table segment there is no key.
proof fn lemma_reject_tb_scan(k: Seq<u8>, a: int, b: int)
    requires
        parsed_ns(k, a),
        parsed_db(k, a, b),
        k.len() - b >= 16,
        forall|p: int|
            b + 15 <= p < k.len() && k[p] == 0 ==> exists|j: int|
                b + 15 <= j < p && !(0 < #[trigger] k[j] < 128),
    ensures
        !is_cf_key(k),
{
    if is_cf_key(k) {
        lemma_db_end_pinned(k, a, b);
        let f = lemma_cf_fields(k);
        lemma_cf_layout(f.0, f.1, f.2, f.3);
        let z = k.len() - 1;
        assert(k[z] == 0);
        let j = choose|j: int| b + 15 <= j < z && !(0 < #[trigger] k[j] < 128);
        assert(k[j] == f.3[j - (b + 15)]);
        assert(false);
    }
}

/// A table terminator before the end of the key leaves trailing bytes, so
/// there is no key.
proof fn lemma_reject_tb_end(k: Seq<u8>, a: int, b: int, t: int)
    requires
        parsed_ns(k, a),
        parsed_db(k, a, b),
        k.len() - b >= 16,
        b + 15 <= t < k.len(),
        k[t] == 0,
        t != k.len() - 1,
    ensures
        !is_cf_key(k),
{
    if is_cf_key(k) {
        lemma_db_end_pinned(k, a, b);
        let f = lemma_cf_fields(k);
        lemma_cf_layout(f.0, f.1, f.2, f.3);
        assert(k[t] == f.3[t - (b + 15)]);
        assert(false);
    }
}

/// A fully parsed byte string is exactly the key of its own regions.
proof fn lemma_assemble(k: Seq<u8>, a: int, b: int)
    requires
        parsed_ns(k, a),
        parsed_db(k, a, b),
        k.len() - b >= 16,
        k[0] == 47 && k[1] == 42,
        k[a + 1] == 42,
        k[b + 1] == 33 && k[b + 2] == 99 && k[b + 3] == 102,
        k[b + 14] == 42,
        k[k.len() - 1] == 0,
        forall|j: int| b + 15 <= j < k.len() - 1 ==> 0 < #[trigger] k[j] < 128,
    ensures
        ({
            let ns = k.subrange(2, a);
            let db = k.subrange(a + 2, b);
            let ts = k.subrange(b + 4, b + 14);
            let tb = k.subrange(b + 15, k.len() - 1);
            &&& cf_encodable(ns, db, ts, tb)
            &&& k == spec_cf_key(ns, db, ts, tb)
            &&& is_cf_key(k)
        }),
{
    let ns = k.subrange(2, a);
    let db = k.subrange(a + 2, b);
    let ts = k.subrange(b + 4, b + 14);
    let tb = k.subrange(b + 15, k.len() - 1);
    assert(cf_encodable(ns, db, ts, tb));
    lemma_cf_layout(ns, db, ts, tb);
    let k2 = spec_cf_key(ns, db, ts, tb);
    assert(k2.len() == k.len());
    assert forall|j: int| 0 <= j < k.len() implies k[j] == k2[j] by {
        if 2 <= j < a {
            assert(k2[j] == ns[j - 2]);
        } else if a + 2 <= j < b {
            assert(k2[j] == db[j - (a + 2)]);
        } else if b + 4 <= j < b + 14 {
            assert(k2[j] == ts[j - (b + 4)]);
        } else if b + 15 <= j < k.len() - 1 {
            assert(k2[j] == tb[j - (b + 15)]);
        }
    }
    assert(k =~= k2);
}

/// The lowest byte string of one scope's change-feed range.
pub open spec fn spec_cf_prefix(ns: Seq<u8>, db: Seq<u8>) -> Seq<u8> {
    spec_cf_root(ns, db) + seq![0u8]
}

/// A byte string strictly above every change-feed key of one scope and
/// below every key of any later scope.
pub open spec fn spec_cf_suffix(ns: Seq<u8>, db: Seq<u8>) -> Seq<u8> {
    spec_cf_root(ns, db) + seq![
        255u8,
        255u8,
        255u8,
        255u8,
        255u8,
        255u8,
        255u8,
        255u8,
        255u8,
        255u8,
        255u8,
    ]
}

/// The smallest key of one scope at or after a versionstamp.
pub open spec fn spec_ts_prefix(ns: Seq<u8>, db: Seq<u8>, ts: Seq<u8>) -> Seq<u8> {
    spec_cf_root(ns, db) + ts
}

/// Builds the scope root `/ * ns \0 * db \0 ! c f`; fails exactly when a
/// segment holds a NUL or non-ASCII character.
fn build_root(ns: &str, db: &str) -> (r: Result<Vec<u8>, Error>)
    ensures
        match r {
            Ok(k) => valid_seg_chars(ns@) && valid_seg_chars(db@) && k@ == spec_cf_root(
                bytes_of_chars(ns@),
                bytes_of_chars(db@),
            ),
            Err(e) => !(valid_seg_chars(ns@) && valid_seg_chars(db@)) && e == Error::Encoding,
        },
{
    if !check_seg(ns) || !check_seg(db) {
        return Err(Error::Encoding);
    }
    let mut k: Vec<u8> = Vec::new();
    k.push(47u8);
    k.push(42u8);
    push_seg(&mut k, ns);
    k.push(0u8);
    k.push(42u8);
    push_seg(&mut k, db);
    k.push(0u8);
    k.push(33u8);
    k.push(99u8);
    k.push(102u8);
    proof {
        assert(k@ =~= spec_cf_root(bytes_of_chars(ns@), bytes_of_chars(db@)));
    }
    Ok(k)
}

/// The scope prefix that versionstamped keys are built on, up to and
/// including the `!cf` marker.
pub fn versionstamped_key_prefix(ns: &str, db: &str) -> (r: Result<Vec<u8>, Error>)
    ensures
        match r {
            Ok(k) => valid_seg_chars(ns@) && valid_seg_chars(db@) && k@ == spec_cf_root(
                bytes_of_chars(ns@),
                bytes_of_chars(db@),
            ),
            Err(e) => !(valid_seg_chars(ns@) && valid_seg_chars(db@)) && e == Error::Encoding,
        },
{
    build_root(ns, db)
}

/// What follows the versionstamp in a versionstamped key: the table marker,
/// the table name and its terminator.
pub fn versionstamped_key_suffix(tb: &str) -> (r: Result<Vec<u8>, Error>)
    ensures
        match r {
            Ok(k) => valid_seg_chars(tb@) && k@ == seq![42u8] + bytes_of_chars(tb@) + seq![0u8],
            Err(e) => !valid_seg_chars(tb@) && e == Error::Encoding,
        },
{
    if !check_seg(tb) {
        return Err(Error::Encoding);
    }
    let mut k: Vec<u8> = Vec::new();
    k.push(42u8);
    push_seg(&mut k, tb);
    k.push(0u8);
    proof {
        assert(k@ =~= seq![42u8] + bytes_of_chars(tb@) + seq![0u8]);
    }
    Ok(k)
}

/// The smallest key of one scope at or after the given versionstamp.
pub fn ts_prefix(ns: &str, db: &str, ts: Versionstamp) -> (r: Result<Vec<u8>, Error>)
    ensures
        match r {
            Ok(k) => valid_seg_chars(ns@) && valid_seg_chars(db@) && k@ == spec_ts_prefix(
                bytes_of_chars(ns@),
                bytes_of_chars(db@),
                ts@,
            ),
            Err(e) => !(valid_seg_chars(ns@) && valid_seg_chars(db@)) && e == Error::Encoding,
        },
{
    let mut k = build_root(ns, db)?;
    let ghost root = k@;
    let mut i: usize = 0;
    while i < 10
        invariant
            0 <= i <= 10,
            k@ == root + ts@.subrange(0, i as int),
        decreases 10 - i,
    {
        k.push(ts[i]);
        proof {
            assert(root + ts@.subrange(0, i as int) + seq![ts@[i as int]] =~= root + ts@.subrange(
                0,
                i + 1,
            ));
        }
        i = i + 1;
    }
    proof {
        assert(ts@.subrange(0, 10) =~= ts@);
    }
    Ok(k)
}

/// The lower bound of one scope's change-feed range.
pub fn prefix(ns: &str, db: &str) -> (r: Result<Vec<u8>, Error>)
    ensures
        match r {
            Ok(k) => valid_seg_chars(ns@) && valid_seg_chars(db@) && k@ == spec_cf_prefix(
                bytes_of_chars(ns@),
                bytes_of_chars(db@),
            ),
            Err(e) => !(valid_seg_chars(ns@) && valid_seg_chars(db@)) && e == Error::Encoding,
        },
{
    let mut k = build_root(ns, db)?;
    k.push(0u8);
    proof {
        assert(k@ =~= spec_cf_prefix(bytes_of_chars(ns@), bytes_of_chars(db@)));
    }
    Ok(k)
}

/// The upper bound of one scope's change-feed range, above every key the
/// scope can hold.
pub fn suffix(ns: &str, db: &str) -> (r: Result<Vec<u8>, Error>)
    ensures
        match r {
            Ok(k) => valid_seg_chars(ns@) && valid_seg_chars(db@) && k@ == spec_cf_suffix(
                bytes_of_chars(ns@),
                bytes_of_chars(db@),
            ),
            Err(e) => !(valid_seg_chars(ns@) && valid_seg_chars(db@)) && e == Error::Encoding,
        },
{
    let mut k = build_root(ns, db)?;
    let mut i: usize = 0;
    let ghost root = k@;
    while i < 11
        invariant
            0 <= i <= 11,
            k@.len() == root.len() + i,
            k@.subrange(0, root.len() as int) == root,
            forall|j: int| root.len() <= j < k@.len() ==> k@[j] == 255u8,
        decreases 11 - i,
    {
        k.push(255u8);
        proof {
            assert(k@.subrange(0, root.len() as int) =~= root);
        }
        i = i + 1;
    }
    proof {
        assert(k@ =~= spec_cf_suffix(bytes_of_chars(ns@), bytes_of_chars(db@)));
    }
    Ok(k)
}

/// Keys of one scope and table order exactly as their versionstamps do:
/// for a smaller versionstamp, a lexicographically smaller key.
pub proof fn lemma_encode_ordering(
    ns: Seq<u8>,
    db: Seq<u8>,
    ts1: Seq<u8>,
    ts2: Seq<u8>,
    tb: Seq<u8>,
)
    requires
        cf_encodable(ns, db, ts1, tb),
        ts2.len() == 10,
        be_num(ts1) < be_num(ts2),
    ensures
        lex_lt(spec_cf_key(ns, db, ts1, tb), spec_cf_key(ns, db, ts2, tb)),
{
    let root = spec_cf_root(ns, db);
    let rest = seq![42u8] + tb + seq![0u8];
    assert(spec_cf_key(ns, db, ts1, tb) =~= root + (ts1 + rest));
    assert(spec_cf_key(ns, db, ts2, tb) =~= root + (ts2 + rest));
    crate::vs::lemma_lex_is_be_num_lt(ts1, ts2);
    crate::vs::lemma_lex_extend(ts1, ts2, rest, rest);
    crate::vs::lemma_lex_prefix_iff(root, ts1 + rest, ts2 + rest);
}

/// A key orders below the floor key of a versionstamp exactly when its own
/// versionstamp is numerically smaller.
pub proof fn lemma_key_vs_ts_prefix(
    ns: Seq<u8>,
    db: Seq<u8>,
    ts: Seq<u8>,
    tb: Seq<u8>,
    t0: Seq<u8>,
)
    requires
        cf_encodable(ns, db, ts, tb),
        t0.len() == 10,
    ensures
        lex_lt(spec_cf_key(ns, db, ts, tb), spec_ts_prefix(ns, db, t0)) <==> be_num(ts) < be_num(
            t0,
        ),
{
    let root = spec_cf_root(ns, db);
    let rest = seq![42u8] + tb + seq![0u8];
    assert(spec_cf_key(ns, db, ts, tb) =~= root + (ts + rest));
    crate::vs::lemma_lex_prefix_iff(root, ts + rest, t0);
    crate::vs::lemma_lex_is_be_num_lt(ts, t0);
    if be_num(ts) < be_num(t0) {
        crate::vs::lemma_lex_extend(ts, t0, rest, Seq::<u8>::empty());
        assert(t0 + Seq::<u8>::empty() =~= t0);
    } else if be_num(ts) == be_num(t0) {
        crate::vs::lemma_lex_trichotomy(ts, t0);
        if ts != t0 {
            crate::vs::lemma_lex_is_be_num_lt(t0, ts);
            assert(false);
        }
        crate::vs::lemma_lex_app_not_lt(t0, rest);
        assert(ts + rest =~= t0 + rest);
    } else {
        crate::vs::lemma_lex_is_be_num_lt(t0, ts);
        crate::vs::lemma_lex_extend(t0, ts, Seq::<u8>::empty(), rest);
        assert(t0 + Seq::<u8>::empty() =~= t0);
        crate::vs::lemma_lex_asym(t0, ts + rest);
    }
}

/// Every change-feed key of a scope orders strictly below the scope's
/// suffix bound.
pub proof fn lemma_key_below_suffix(ns: Seq<u8>, db: Seq<u8>, ts: Seq<u8>, tb: Seq<u8>)
    requires
        cf_encodable(ns, db, ts, tb),
    ensures
        lex_lt(spec_cf_key(ns, db, ts, tb), spec_cf_suffix(ns, db)),
{
    let root = spec_cf_root(ns, db);
    let rest = seq![42u8] + tb + seq![0u8];
    let ff10 = seq![255u8, 255u8, 255u8, 255u8, 255u8, 255u8, 255u8, 255u8, 255u8, 255u8];
    let ff11 = ff10 + seq![255u8];
    assert(spec_cf_key(ns, db, ts, tb) =~= root + (ts + rest));
    assert(spec_cf_suffix(ns, db) =~= root + ff11);
    crate::vs::lemma_lex_prefix_iff(root, ts + rest, ff11);
    if ts =~= ff10 {
        assert(ts + rest =~= ff10 + rest);
        crate::vs::lemma_lex_prefix_iff(ff10, rest, seq![255u8]);
        assert(rest.first() == 42);
        assert(lex_lt(rest, seq![255u8]));
    } else {
        crate::vs::lemma_lex_pointwise(ts, ff10);
        crate::vs::lemma_lex_extend(ts, ff10, rest, seq![255u8]);
    }
}

/// Every change-feed key of a scope orders at or above the scope's prefix
/// bound.
pub proof fn lemma_key_above_prefix(ns: Seq<u8>, db: Seq<u8>, ts: Seq<u8>, tb: Seq<u8>)
    requires
        cf_encodable(ns, db, ts, tb),
    ensures
        !lex_lt(spec_cf_key(ns, db, ts, tb), spec_cf_prefix(ns, db)),
{
    let root = spec_cf_root(ns, db);
    let rest = seq![42u8] + tb + seq![0u8];
    assert(spec_cf_key(ns, db, ts, tb) =~= root + (ts + rest));
    assert(spec_cf_prefix(ns, db) =~= root + seq![0u8]);
    crate::vs::lemma_lex_prefix_iff(root, ts + rest, seq![0u8]);
    if lex_lt(ts + rest, seq![0u8]) {
        let a = ts + rest;
        assert(a.first() == ts[0]);
        assert(seq![0u8].first() == 0u8);
        assert(a.first() == seq![0u8].first());
        assert(seq![0u8].drop_first() =~= Seq::<u8>::empty());
        assert(!lex_lt(a.drop_first(), Seq::<u8>::empty()));
        assert(false);
    }
}

/// Where each region of the scope root lies.
pub proof fn lemma_cf_root_layout(ns: Seq<u8>, db: Seq<u8>)
    requires
        valid_seg_bytes(ns),
        valid_seg_bytes(db),
    ensures
        ({
            let k = spec_cf_root(ns, db);
            let a = 2 + ns.len() as int;
            let b = a + 2 + db.len() as int;
            &&& k.len() == ns.len() + db.len() + 8
            &&& k[0] == 47 && k[1] == 42
            &&& (forall|j: int| 2 <= j < a ==> #[trigger] k[j] == ns[j - 2])
            &&& k[a] == 0 && k[a + 1] == 42
            &&& (forall|j: int| a + 2 <= j < b ==> #[trigger] k[j] == db[j - (a + 2)])
            &&& k[b] == 0 && k[b + 1] == 33 && k[b + 2] == 99 && k[b + 3] == 102
        }),
{
    let k = spec_cf_root(ns, db);
    let a = 2 + ns.len() as int;
    let b = a + 2 + db.len() as int;
    assert forall|j: int| 0 <= j < k.len() implies #[trigger] k[j] == ({
        if j < 2 {
            seq![47u8, 42u8][j]
        } else if j < a {
            ns[j - 2]
        } else if j < a + 2 {
            seq![0u8, 42u8][j - a]
        } else if j < b {
            db[j - (a + 2)]
        } else {
            seq![0u8, 33u8, 99u8, 102u8][j - b]
        }
    }) by {}
}

/// A change-feed key caught between two bounds of one scope belongs to
/// that scope.
#[verifier::rlimit(100)]
pub proof fn lemma_range_same_scope(
    a: Seq<u8>,
    b: Seq<u8>,
    ts: Seq<u8>,
    tb: Seq<u8>,
    nsb: Seq<u8>,
    dbb: Seq<u8>,
    lo: Seq<u8>,
    e: Seq<u8>,
)
    requires
        cf_encodable(a, b, ts, tb),
        valid_seg_bytes(nsb),
        valid_seg_bytes(dbb),
        !lex_lt(spec_cf_key(a, b, ts, tb), spec_cf_root(nsb, dbb) + lo),
        lex_lt(spec_cf_key(a, b, ts, tb), spec_cf_root(nsb, dbb) + e),
    ensures
        a == nsb,
        b == dbb,
{
    let k = spec_cf_key(a, b, ts, tb);
    let root = spec_cf_root(nsb, dbb);
    let rl = root.len() as int;
    lemma_cf_layout(a, b, ts, tb);
    lemma_cf_root_layout(nsb, dbb);
    // the key starts with the scope root
    assert(k.len() >= rl && k.subrange(0, rl) =~= root) by {
        crate::vs::lemma_lex_lt_cases(k, root + e);
        if k.len() < (root + e).len() && k =~= (root + e).subrange(0, k.len() as int) {
            if k.len() < rl {
                assert(k =~= (root + lo).subrange(0, k.len() as int)) by {
                    assert forall|i: int| 0 <= i < k.len() implies k[i] == (root + lo).subrange(
                        0,
                        k.len() as int,
                    )[i] by {
                        assert(k[i] == (root + e)[i]);
                        assert((root + e)[i] == root[i]);
                        assert((root + lo)[i] == root[i]);
                    }
                }
                assert(root + lo =~= k + (root + lo).subrange(k.len() as int, (root
                    + lo).len() as int));
                crate::vs::lemma_lex_proper_prefix(
                    k,
                    (root + lo).subrange(k.len() as int, (root + lo).len() as int),
                );
                assert(false);
            } else {
                assert forall|i: int| 0 <= i < rl implies k.subrange(0, rl)[i] == root[i] by {
                    assert(k[i] == (root + e)[i]);
                }
            }
        } else {
            let d = choose|d: int|
                0 <= d < k.len() && d < (root + e).len() && #[trigger] k[d] < (root + e)[d] && (
                forall|i: int| 0 <= i < d ==> k[i] == (root + e)[i]);
            if d < rl {
                assert((root + e)[d] == root[d]);
                assert((root + lo)[d] == root[d]);
                assert(forall|i: int| 0 <= i < d ==> k[i] == (root + lo)[i]);
                crate::vs::lemma_lex_first_diff(k, root + lo, d);
                assert(false);
            } else {
                assert forall|i: int| 0 <= i < rl implies k.subrange(0, rl)[i] == root[i] by {
                    assert(k[i] == (root + e)[i]);
                }
            }
        }
    }
    // the first zero pins the namespace
    let ka = 2 + a.len() as int;
    let ra = 2 + nsb.len() as int;
    assert(k[ra] == root[ra]);
    if ka < ra {
        assert(k[ka] == root[ka]);
        assert(root[ka] == nsb[ka - 2]);
        assert(false);
    }
    if ra < ka {
        assert(k[ra] == a[ra - 2]);
        assert(false);
    }
    assert forall|i: int| 0 <= i < a.len() implies a[i] == nsb[i] by {
        assert(k[i + 2] == root[i + 2]);
        assert(k[i + 2] == a[i]);
        assert(root[i + 2] == nsb[i]);
    }
    assert(a =~= nsb);
    // the second zero pins the database
    let kb = ka + 2 + b.len() as int;
    let rb = ra + 2 + dbb.len() as int;
    assert(rb + 3 < rl);
    assert(k[rb] == root[rb]);
    if kb < rb {
        assert(k[kb] <= root.len());
        assert(k[kb] == root[kb]);
        assert(root[kb] == dbb[kb - (ra + 2)]);
        assert(false);
    }
    if rb < kb {
        assert(k[rb] == b[rb - (ka + 2)]);
        assert(false);
    }
    assert forall|i: int| 0 <= i < b.len() implies b[i] == dbb[i] by {
        assert(k[ka + 2 + i] == root[ra + 2 + i]);
        assert(k[ka + 2 + i] == b[i]);
        assert(root[ra + 2 + i] == dbb[i]);
    }
    assert(b =~= dbb);
}

/// The segments read back from a well-formed key are the segments it was
/// built from.
pub proof fn lemma_cf_fields_of_key(ns: Seq<u8>, db: Seq<u8>, ts: Seq<u8>, tb: Seq<u8>)
    requires
        cf_encodable(ns, db, ts, tb),
    ensures
        is_cf_key(spec_cf_key(ns, db, ts, tb)),
        spec_cf_fields(spec_cf_key(ns, db, ts, tb)) == (ns, db, ts, tb),
{
    let k = spec_cf_key(ns, db, ts, tb);
    assert(is_cf_key(k));
    let f = spec_cf_fields(k);
    assert(cf_encodable(f.0, f.1, f.2, f.3) && k == spec_cf_key(f.0, f.1, f.2, f.3)) by {
        let (a2, b2, c2, d2) = choose|a2: Seq<u8>, b2: Seq<u8>, c2: Seq<u8>, d2: Seq<u8>|
            cf_encodable(a2, b2, c2, d2) && k == #[trigger] spec_cf_key(a2, b2, c2, d2);
        assert(cf_encodable(a2, b2, c2, d2) && k == spec_cf_key(a2, b2, c2, d2));
        let w = (a2, b2, c2, d2);
        assert(cf_encodable(w.0, w.1, w.2, w.3) && k == spec_cf_key(w.0, w.1, w.2, w.3));
    }
    lemma_cf_key_injective(f.0, f.1, f.2, f.3, ns, db, ts, tb);
    assert(f =~= (ns, db, ts, tb)) by {
        assert(f.0 == ns && f.1 == db && f.2 == ts && f.3 == tb);
    }
}

/// Builds a key for a u64 timestamp: the versionstamp is the value shifted
/// into the first 8 bytes.
pub fn new(ns: &str, db: &str, ts: u64, tb: &str) -> (r: Cf)
    ensures
        r.ns@ == ns@,
        r.db@ == db@,
        be_num(r.ts@) == ts * 0x10000,
        r.tb@ == tb@,
{
    Cf {
        ns: ns.to_owned(),
        db: db.to_owned(),
        ts: u64_to_versionstamp(ts),
        tb: tb.to_owned(),
    }
}

} // verus!
