//! Change-feed record types: per-table mutations, per-commit mutation
//! sets, and the change-feed table option.

use vstd::prelude::*;
use crate::sql::value::{thing_eq, val_exact, Object, Thing, Value};
use crate::vs::{be_num, Versionstamp};
use crate::sql::number::{clamp64, Number};

verus! {

broadcast use vstd::std_specs::vec::group_vec_axioms, vstd::seq::group_seq_axioms;

/// The change-feed option of a table: whether changes are recorded, and
/// for how many seconds they are retained.
#[derive(Clone, Debug, PartialEq, Eq)]
pub struct ChangeFeed {
    /// Whether the change feed is on.
    pub enabled: bool,
    /// Retention, in whole seconds.
    pub expiry: u64,
}

impl ChangeFeed {
    /// A disabled change feed.
    pub fn none() -> (r: ChangeFeed)
        ensures
            !r.enabled,
            r.expiry == 0,
    {
        ChangeFeed { enabled: false, expiry: 0 }
    }

    /// An enabled change feed retaining entries for `d` seconds.
    pub fn enabled(d: u64) -> (r: ChangeFeed)
        ensures
            r.enabled,
            r.expiry == d,
    {
        ChangeFeed { enabled: true, expiry: d }
    }
}

impl Default for ChangeFeed {
    /// The default change feed is disabled.
    fn default() -> (r: ChangeFeed)
        ensures
            !r.enabled,
            r.expiry == 0,
    {
        ChangeFeed { enabled: false, expiry: 0 }
    }
}

/// One record-level change: a record was set to a value, or deleted.
/// Mutations are never coalesced: several changes to one record in one
/// transaction are all retained, in call order.
#[derive(Debug)]
pub enum TableMutation {
    /// The record now holds this value.
    Put(Thing, Value),
    /// The record was deleted.
    Del(Thing),
}

/// Structural equality of single mutations.
pub open spec fn tm_eq(a: TableMutation, b: TableMutation) -> bool {
    match a {
        TableMutation::Put(t1, v1) => match b {
            TableMutation::Put(t2, v2) => thing_eq(t1, t2) && val_exact(v1, v2),
            _ => false,
        },
        TableMutation::Del(t1) => match b {
            TableMutation::Del(t2) => thing_eq(t1, t2),
            _ => false,
        },
    }
}

/// The mutations of one table inside one commit: the table name and the
/// ordered list of record-level changes.
#[derive(Debug)]
pub struct TableMutations(pub String, pub Vec<TableMutation>);

/// Structural equality of per-table mutation lists.
pub open spec fn tms_eq(a: TableMutations, b: TableMutations) -> bool {
    a.0@ == b.0@ && a.1@.len() == b.1@.len() && (forall|i: int|
        0 <= i < a.1@.len() ==> tm_eq(#[trigger] a.1@[i], b.1@[i]))
}

impl TableMutations {
    /// An empty mutation list for one table.
    pub fn new(tb: String) -> (r: TableMutations)
        ensures
            r.0@ == tb@,
            r.1@.len() == 0,
    {
        TableMutations(tb, Vec::new())
    }
}

/// Everything one commit changed: one entry per touched table.
#[derive(Debug)]
pub struct DatabaseMutation(pub Vec<TableMutations>);

/// Structural equality of per-commit mutation sets.
pub open spec fn dbm_eq(a: DatabaseMutation, b: DatabaseMutation) -> bool {
    a.0@.len() == b.0@.len() && (forall|i: int|
        0 <= i < a.0@.len() ==> tms_eq(#[trigger] a.0@[i], b.0@[i]))
}

impl DatabaseMutation {
    /// An empty mutation set.
    pub fn new() -> (r: DatabaseMutation)
        ensures
            r.0@.len() == 0,
    {
        DatabaseMutation(Vec::new())
    }
}

/// All mutations sharing one versionstamp, delivered together.
#[derive(Debug)]
pub struct ChangeSet(pub Versionstamp, pub DatabaseMutation);

/// Structural equality of change sets.
pub open spec fn cs_eq(a: ChangeSet, b: ChangeSet) -> bool {
    a.0@ == b.0@ && dbm_eq(a.1, b.1)
}

/// A set of per-table mutation lists waiting to be written.
#[derive(Debug)]
pub struct WriteMutationSet(pub Vec<TableMutations>);

impl WriteMutationSet {
    /// An empty write set.
    pub fn new() -> (r: WriteMutationSet)
        ensures
            r.0@.len() == 0,
    {
        WriteMutationSet(Vec::new())
    }
}

impl Clone for TableMutation {
    /// Deep copy: the clone is structurally identical to the original.
    fn clone(&self) -> (r: TableMutation)
        ensures
            tm_eq(r, *self),
    {
        match self {
            TableMutation::Put(t, v) => TableMutation::Put(t.clone(), v.clone()),
            TableMutation::Del(t) => TableMutation::Del(t.clone()),
        }
    }
}

impl Clone for TableMutations {
    /// Deep copy: the clone is structurally identical to the original.
    fn clone(&self) -> (r: TableMutations)
        ensures
            tms_eq(r, *self),
    {
        let mut ms: Vec<TableMutation> = Vec::new();
        let n = self.1.len();
        let mut i: usize = 0;
        while i < n
            invariant
                0 <= i <= n,
                n == self.1@.len(),
                ms@.len() == i,
                forall|j: int| 0 <= j < i ==> tm_eq(#[trigger] ms@[j], self.1@[j]),
            decreases n - i,
        {
            ms.push(self.1[i].clone());
            i = i + 1;
        }
        TableMutations(self.0.clone(), ms)
    }
}

impl Clone for DatabaseMutation {
    /// Deep copy: the clone is structurally identical to the original.
    fn clone(&self) -> (r: DatabaseMutation)
        ensures
            dbm_eq(r, *self),
    {
        let mut ts: Vec<TableMutations> = Vec::new();
        let n = self.0.len();
        let mut i: usize = 0;
        while i < n
            invariant
                0 <= i <= n,
                n == self.0@.len(),
                ts@.len() == i,
                forall|j: int| 0 <= j < i ==> tms_eq(#[trigger] ts@[j], self.0@[j]),
            decreases n - i,
        {
            ts.push(self.0[i].clone());
            i = i + 1;
        }
        DatabaseMutation(ts)
    }
}

impl Clone for ChangeSet {
    /// Deep copy: the clone is structurally identical to the original.
    fn clone(&self) -> (r: ChangeSet)
        ensures
            cs_eq(r, *self),
    {
        ChangeSet(self.0, self.1.clone())
    }
}

impl PartialEq for TableMutation {
    fn eq(&self, other: &TableMutation) -> (r: bool) {
        match self {
            TableMutation::Put(t1, v1) => match other {
                TableMutation::Put(t2, v2) => t1.same(t2) && v1.same_exact(v2),
                _ => false,
            },
            TableMutation::Del(t1) => match other {
                TableMutation::Del(t2) => t1.same(t2),
                _ => false,
            },
        }
    }
}

impl vstd::std_specs::cmp::PartialEqSpecImpl for TableMutation {
    open spec fn obeys_eq_spec() -> bool {
        true
    }

    open spec fn eq_spec(&self, other: &TableMutation) -> bool {
        tm_eq(*self, *other)
    }
}

impl PartialEq for TableMutations {
    fn eq(&self, other: &TableMutations) -> (r: bool) {
        if !(self.0 == other.0) {
            return false;
        }
        let n = self.1.len();
        if n != other.1.len() {
            return false;
        }
        let mut i: usize = 0;
        while i < n
            invariant
                0 <= i <= n,
                n == self.1@.len() == other.1@.len(),
                forall|j: int| 0 <= j < i ==> tm_eq(#[trigger] self.1@[j], other.1@[j]),
            decreases n - i,
        {
            if !(self.1[i] == other.1[i]) {
                return false;
            }
            i = i + 1;
        }
        true
    }
}

impl vstd::std_specs::cmp::PartialEqSpecImpl for TableMutations {
    open spec fn obeys_eq_spec() -> bool {
        true
    }

    open spec fn eq_spec(&self, other: &TableMutations) -> bool {
        tms_eq(*self, *other)
    }
}

impl PartialEq for DatabaseMutation {
    fn eq(&self, other: &DatabaseMutation) -> (r: bool) {
        let n = self.0.len();
        if n != other.0.len() {
            return false;
        }
        let mut i: usize = 0;
        while i < n
            invariant
                0 <= i <= n,
                n == self.0@.len() == other.0@.len(),
                forall|j: int| 0 <= j < i ==> tms_eq(#[trigger] self.0@[j], other.0@[j]),
            decreases n - i,
        {
            if !(self.0[i] == other.0[i]) {
                return false;
            }
            i = i + 1;
        }
        true
    }
}

impl vstd::std_specs::cmp::PartialEqSpecImpl for DatabaseMutation {
    open spec fn obeys_eq_spec() -> bool {
        true
    }

    open spec fn eq_spec(&self, other: &DatabaseMutation) -> bool {
        dbm_eq(*self, *other)
    }
}

impl PartialEq for ChangeSet {
    fn eq(&self, other: &ChangeSet) -> (r: bool) {
        let mut i: usize = 0;
        let mut same_vs = true;
        while i < 10
            invariant
                0 <= i <= 10,
                same_vs == (self.0@.subrange(0, i as int) =~= other.0@.subrange(0, i as int)),
            decreases 10 - i,
        {
            proof {
                assert(self.0@.subrange(0, i + 1) =~= self.0@.subrange(0, i as int) + seq![
                    self.0@[i as int],
                ]);
                assert(other.0@.subrange(0, i + 1) =~= other.0@.subrange(0, i as int) + seq![
                    other.0@[i as int],
                ]);
            }
            if self.0[i] != other.0[i] {
                same_vs = false;
                proof {
                    assert(self.0@.subrange(0, i + 1)[i as int] == self.0@[i as int]);
                    assert(other.0@.subrange(0, i + 1)[i as int] == other.0@[i as int]);
                }
            }
            i = i + 1;
        }
        proof {
            assert(self.0@.subrange(0, 10) =~= self.0@);
            assert(other.0@.subrange(0, 10) =~= other.0@);
        }
        same_vs && self.1 == other.1
    }
}

impl vstd::std_specs::cmp::PartialEqSpecImpl for ChangeSet {
    open spec fn obeys_eq_spec() -> bool {
        true
    }

    open spec fn eq_spec(&self, other: &ChangeSet) -> bool {
        cs_eq(*self, *other)
    }
}

/// Whether a value is the value form of one mutation: an object with one
/// field, `update` carrying the new value or `delete` carrying the record
/// pointer.
pub open spec fn tm_value_form(r: Value, m: TableMutation) -> bool {
    &&& r is Object
    &&& r->Object_0.0@.len() == 1
    &&& match m {
        TableMutation::Put(t, v) => r->Object_0.0@[0].0@ == "update"@ && val_exact(
            r->Object_0.0@[0].1,
            v,
        ),
        TableMutation::Del(t) => {
            &&& r->Object_0.0@[0].0@ == "delete"@
            &&& r->Object_0.0@[0].1 is Object
            &&& r->Object_0.0@[0].1->Object_0.0@.len() == 1
            &&& r->Object_0.0@[0].1->Object_0.0@[0].0@ == "id"@
            &&& r->Object_0.0@[0].1->Object_0.0@[0].1 is Thing
            &&& thing_eq(r->Object_0.0@[0].1->Object_0.0@[0].1->Thing_0, t)
        },
    }
}

impl TableMutation {
    /// The value form of one mutation; see [`tm_value_form`].
    pub fn to_value(&self) -> (r: Value)
        ensures
            tm_value_form(r, *self),
    {
        match self {
            TableMutation::Put(_t, v) => {
                let mut fields: Vec<(String, Value)> = Vec::new();
                fields.push((String::from_str("update"), v.clone()));
                Value::Object(Object(fields))
            },
            TableMutation::Del(t) => {
                let mut inner: Vec<(String, Value)> = Vec::new();
                inner.push((String::from_str("id"), Value::Thing(t.clone())));
                let mut fields: Vec<(String, Value)> = Vec::new();
                fields.push((String::from_str("delete"), Value::Object(Object(inner))));
                Value::Object(Object(fields))
            },
        }
    }
}

/// How many record-level changes a commit's mutation set carries in all.
pub open spec fn dbm_count(tms: Seq<TableMutations>) -> int
    decreases tms.len(),
{
    if tms.len() == 0 {
        0
    } else {
        tms.first().1@.len() + dbm_count(tms.drop_first())
    }
}

/// The record-level changes of a commit's mutation set, flattened: tables
/// in list order, each table's mutations in call order.
pub open spec fn dbm_flat(tms: Seq<TableMutations>) -> Seq<TableMutation>
    decreases tms.len(),
{
    if tms.len() == 0 {
        Seq::empty()
    } else {
        tms.first().1@ + dbm_flat(tms.drop_first())
    }
}

/// Extending a prefix by one table appends that table's mutations to the
/// flattened form.
proof fn lemma_dbm_flat_step(tms: Seq<TableMutations>, i: int)
    requires
        0 <= i < tms.len(),
    ensures
        dbm_flat(tms.subrange(0, i + 1)) == dbm_flat(tms.subrange(0, i)) + tms[i].1@,
    decreases i,
{
    if i == 0 {
        assert(tms.subrange(0, 1).first() == tms[0]);
        assert(tms.subrange(0, 1).drop_first() =~= Seq::<TableMutations>::empty());
        assert(tms.subrange(0, 0) =~= Seq::<TableMutations>::empty());
        assert(dbm_flat(tms.subrange(0, 1)) =~= dbm_flat(tms.subrange(0, 0)) + tms[0].1@);
    } else {
        let a = tms.subrange(0, i + 1);
        let b = tms.subrange(0, i);
        assert(a.first() == tms[0]);
        assert(b.first() == tms[0]);
        assert(a.drop_first() =~= tms.subrange(1, tms.len() as int).subrange(0, i));
        assert(b.drop_first() =~= tms.subrange(1, tms.len() as int).subrange(0, i - 1));
        lemma_dbm_flat_step(tms.subrange(1, tms.len() as int), i - 1);
        assert(tms.subrange(1, tms.len() as int)[i - 1] == tms[i]);
        assert(dbm_flat(a) =~= dbm_flat(b) + tms[i].1@);
    }
}

impl DatabaseMutation {
    /// The value form of a commit's mutations: one array whose k-th element
    /// is the value form of the k-th record-level change, tables in list
    /// order and mutations in call order; table names themselves do not
    /// appear.
    #[verifier::loop_isolation(false)]
    pub fn to_value(self) -> (r: Value)
        ensures
            r is Array,
            r->Array_0.0@.len() == dbm_flat(self.0@).len(),
            r->Array_0.0@.len() == dbm_count(self.0@),
            forall|k: int|
                0 <= k < r->Array_0.0@.len() ==> tm_value_form(
                    #[trigger] r->Array_0.0@[k],
                    dbm_flat(self.0@)[k],
                ),
    {
        let mut changes: Vec<Value> = Vec::new();
        let n = self.0.len();
        let mut i: usize = 0;
        proof {
            lemma_dbm_count_take(self.0@, 0);
            assert(self.0@.subrange(0, 0) =~= Seq::<TableMutations>::empty());
        }
        while i < n
            invariant
                0 <= i <= n,
                n == self.0@.len(),
                changes@.len() == dbm_count(self.0@.subrange(0, i as int)),
                changes@.len() == dbm_flat(self.0@.subrange(0, i as int)).len(),
                dbm_count(self.0@.subrange(0, i as int)) >= 0,
                forall|k: int|
                    0 <= k < changes@.len() ==> tm_value_form(
                        #[trigger] changes@[k],
                        dbm_flat(self.0@.subrange(0, i as int))[k],
                    ),
            decreases n - i,
        {
            let ghost flat_pre = dbm_flat(self.0@.subrange(0, i as int));
            let tms = &self.0[i];
            let m = tms.1.len();
            let mut j: usize = 0;
            while j < m
                invariant
                    0 <= j <= m,
                    0 <= i < n,
                    n == self.0@.len(),
                    m == self.0@[i as int].1@.len(),
                    changes@.len() == flat_pre.len() + j,
                    forall|k: int|
                        0 <= k < changes@.len() ==> tm_value_form(
                            #[trigger] changes@[k],
                            (flat_pre + self.0@[i as int].1@.subrange(0, j as int))[k],
                        ),
                decreases m - j,
            {
                changes.push(self.0[i].1[j].to_value());
                proof {
                    assert(self.0@[i as int].1@.subrange(0, j + 1)
                        =~= self.0@[i as int].1@.subrange(0, j as int).push(
                        self.0@[i as int].1@[j as int],
                    ));
                    assert((flat_pre + self.0@[i as int].1@.subrange(0, j + 1))[changes@.len()
                        - 1] == self.0@[i as int].1@[j as int]);
                    assert forall|k: int| 0 <= k < changes@.len() implies tm_value_form(
                        #[trigger] changes@[k],
                        (flat_pre + self.0@[i as int].1@.subrange(0, j + 1))[k],
                    ) by {
                        if k < changes@.len() - 1 {
                            assert((flat_pre + self.0@[i as int].1@.subrange(0, j + 1))[k] == (
                            flat_pre + self.0@[i as int].1@.subrange(0, j as int))[k]);
                        }
                    }
                }
                j = j + 1;
            }
            proof {
                lemma_dbm_count_step(self.0@, i as int);
                lemma_dbm_flat_step(self.0@, i as int);
                assert(self.0@[i as int].1@.subrange(0, m as int) =~= self.0@[i as int].1@);
                assert(dbm_flat(self.0@.subrange(0, i + 1)) =~= flat_pre
                    + self.0@[i as int].1@.subrange(0, m as int));
            }
            i = i + 1;
        }
        proof {
            assert(self.0@.subrange(0, n as int) =~= self.0@);
        }
        Value::Array(crate::sql::value::Array(changes))
    }
}

/// The running change count over a prefix is never negative.
proof fn lemma_dbm_count_take(tms: Seq<TableMutations>, i: int)
    requires
        0 <= i <= tms.len(),
    ensures
        dbm_count(tms.subrange(0, i)) >= 0,
    decreases i,
{
    if i == 0 {
        assert(tms.subrange(0, 0) =~= Seq::<TableMutations>::empty());
    } else {
        lemma_dbm_count_take(tms, i - 1);
        lemma_dbm_count_step(tms, i - 1);
    }
}

/// Extending a prefix by one table adds that table's change count.
proof fn lemma_dbm_count_step(tms: Seq<TableMutations>, i: int)
    requires
        0 <= i < tms.len(),
    ensures
        dbm_count(tms.subrange(0, i + 1)) == dbm_count(tms.subrange(0, i)) + tms[i].1@.len(),
    decreases i,
{
    if i == 0 {
        assert(tms.subrange(0, 1).first() == tms[0]);
        assert(tms.subrange(0, 1).drop_first() =~= Seq::<TableMutations>::empty());
        assert(tms.subrange(0, 0) =~= Seq::<TableMutations>::empty());
    } else {
        let a = tms.subrange(0, i + 1);
        let b = tms.subrange(0, i);
        assert(a.first() == tms[0]);
        assert(b.first() == tms[0]);
        assert(a.drop_first() =~= tms.subrange(1, tms.len() as int).subrange(0, i));
        assert(b.drop_first() =~= tms.subrange(1, tms.len() as int).subrange(0, i - 1));
        lemma_dbm_count_step(tms.subrange(1, tms.len() as int), i - 1);
        assert(tms.subrange(1, tms.len() as int)[i - 1] == tms[i]);
    }
}

impl ChangeSet {
    /// The value form of a change set: an object carrying the numeric
    /// versionstamp and the array of changes.  A versionstamp beyond the
    /// integer range is clamped.
    pub fn to_value(self) -> (r: Value)
        ensures
            r is Object,
            r->Object_0.0@.len() == 2,
            r->Object_0.0@[0].0@ == "versionstamp"@,
            r->Object_0.0@[0].1 is Number,
            crate::sql::number::micros(r->Object_0.0@[0].1->Number_0) == clamp64(be_num(self.0@))
                * 1000000,
            r->Object_0.0@[1].0@ == "changes"@,
            r->Object_0.0@[1].1 is Array,
    {
        let vs_num = crate::vs::to_u128_be(self.0);
        let vs_int: i64 = if vs_num > i64::MAX as u128 {
            i64::MAX
        } else {
            vs_num as i64
        };
        proof {
            crate::vs::lemma_be_num_bound(self.0@);
        }
        let mut fields: Vec<(String, Value)> = Vec::new();
        fields.push((String::from_str("versionstamp"), Value::Number(Number::Int(vs_int))));
        fields.push((String::from_str("changes"), self.1.to_value()));
        Value::Object(Object(fields))
    }
}

} // verus!
