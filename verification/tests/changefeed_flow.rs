//! The change-feed pipeline end to end: buffered writes, commit-order
//! grouping, watermark collection, table filtering, and the bounded pass.

use changefeed::cf::gc::{gc_all, gc_db, gc_ns};
use changefeed::cf::reader::read;
use changefeed::kvs::store::{TableDefinition, Transaction};
use changefeed::sql::changefeed::{
    ChangeFeed, ChangeSet, DatabaseMutation, TableMutation, TableMutations,
};
use changefeed::sql::value::{Id, Thing, Value};
use changefeed::vs::u64_to_versionstamp;

fn table(name: &str) -> TableDefinition {
    TableDefinition { name: name.to_string(), changefeed: ChangeFeed::enabled(3600) }
}

fn record(tb: &str, id: &str) -> Thing {
    Thing { tb: tb.to_string(), id: Id::Text(id.to_string()) }
}

fn strand(s: &str) -> Value {
    Value::Strand(s.to_string())
}

fn put(tb: &str, id: &str, v: &str) -> TableMutation {
    TableMutation::Put(record(tb, id), strand(v))
}

fn one_table_set(vs: u64, tb: &str, muts: Vec<TableMutation>) -> ChangeSet {
    ChangeSet(
        u64_to_versionstamp(vs),
        DatabaseMutation(vec![TableMutations(tb.to_string(), muts)]),
    )
}

/// Three transactions committed in order come back as exactly three change
/// sets in increasing versionstamp order, mutations grouped per commit.
#[test]
fn commit_order_grouping() {
    let ns = "myns";
    let db = "mydb";
    let tb = "mytb";
    let dtb = table(tb);
    let mut tx = Transaction::new();

    tx.record_change(&dtb, record(tb, "A"), strand("a"));
    tx.complete_changes(ns, db).unwrap();

    tx.record_change(&dtb, record(tb, "C"), strand("c"));
    tx.complete_changes(ns, db).unwrap();

    tx.record_change(&dtb, record(tb, "B"), strand("b"));
    tx.record_change(&dtb, record(tb, "C"), strand("c2"));
    tx.complete_changes(ns, db).unwrap();

    let start: u64 = 0;
    let r = read(&tx, ns, db, Some(tb), Some(start), Some(10)).unwrap();

    let want = vec![
        one_table_set(1, tb, vec![put(tb, "A", "a")]),
        one_table_set(2, tb, vec![put(tb, "C", "c")]),
        one_table_set(3, tb, vec![put(tb, "B", "b"), put(tb, "C", "c2")]),
    ];
    assert_eq!(want, r);
}

/// After garbage collection at watermark 2, only the third change set
/// remains readable.
#[test]
fn watermark_collection() {
    let ns = "myns";
    let db = "mydb";
    let tb = "mytb";
    let dtb = table(tb);
    let mut tx = Transaction::new();
    tx.record_change(&dtb, record(tb, "A"), strand("a"));
    tx.complete_changes(ns, db).unwrap();
    tx.record_change(&dtb, record(tb, "C"), strand("c"));
    tx.complete_changes(ns, db).unwrap();
    tx.record_change(&dtb, record(tb, "B"), strand("b"));
    tx.record_change(&dtb, record(tb, "C"), strand("c2"));
    tx.complete_changes(ns, db).unwrap();

    gc_db(&mut tx, ns, db, 2, Some(10)).unwrap();

    let r = read(&tx, ns, db, Some(tb), Some(0), Some(10)).unwrap();
    let want = vec![one_table_set(3, tb, vec![put(tb, "B", "b"), put(tb, "C", "c2")])];
    assert_eq!(want, r);
}

/// Reading with a filter for a table the store does not hold returns an
/// empty sequence, never an error.
#[test]
fn table_filter_misses_cleanly() {
    let ns = "myns";
    let db = "mydb";
    let dtb = table("mytb");
    let mut tx = Transaction::new();
    tx.record_change(&dtb, record("mytb", "A"), strand("a"));
    tx.complete_changes(ns, db).unwrap();

    let r = read(&tx, ns, db, Some("other"), Some(0), Some(10)).unwrap();
    assert_eq!(0, r.len());
}

/// A second collection with the same watermark deletes nothing and still
/// succeeds.
#[test]
fn idempotent_collection() {
    let ns = "myns";
    let db = "mydb";
    let tb = "mytb";
    let dtb = table(tb);
    let mut tx = Transaction::new();
    for id in ["A", "B", "C"] {
        tx.record_change(&dtb, record(tb, id), strand("v"));
        tx.complete_changes(ns, db).unwrap();
    }
    gc_db(&mut tx, ns, db, 2, None).unwrap();
    let after_first = read(&tx, ns, db, Some(tb), Some(0), Some(10)).unwrap();
    gc_db(&mut tx, ns, db, 2, None).unwrap();
    let after_second = read(&tx, ns, db, Some(tb), Some(0), Some(10)).unwrap();
    assert_eq!(after_first, after_second);
    assert_eq!(1, after_first.len());
}

/// A read never takes more than `limit` raw entries, whatever the store
/// holds; a bounded collection likewise deletes at most `limit` entries.
#[test]
fn bounded_pass() {
    let ns = "myns";
    let db = "mydb";
    let tb = "mytb";
    let dtb = table(tb);
    let mut tx = Transaction::new();
    for id in ["A", "B", "C", "D", "E"] {
        tx.record_change(&dtb, record(tb, id), strand("v"));
        tx.complete_changes(ns, db).unwrap();
    }
    let r = read(&tx, ns, db, Some(tb), Some(0), Some(3)).unwrap();
    assert_eq!(3, r.len());

    gc_db(&mut tx, ns, db, 5, Some(2)).unwrap();
    let rest = read(&tx, ns, db, Some(0).map(|_| tb), Some(0), Some(10)).unwrap();
    assert_eq!(3, rest.len());
}

/// Without a floor, the read starts at the scope's current cursor and so
/// sees nothing until new commits arrive.
#[test]
fn read_from_cursor() {
    let ns = "myns";
    let db = "mydb";
    let tb = "mytb";
    let dtb = table(tb);
    let mut tx = Transaction::new();
    tx.record_change(&dtb, record(tb, "A"), strand("a"));
    tx.complete_changes(ns, db).unwrap();
    // the cursor stands at the last commit, so this read sees it
    let r = read(&tx, ns, db, None, None, None).unwrap();
    assert_eq!(1, r.len());
    // an explicit floor above it sees nothing
    let r2 = read(&tx, ns, db, None, Some(2), None).unwrap();
    assert_eq!(0, r2.len());
}

/// Scope-wide and namespace-wide collection apply the same bounded pass to
/// every scope.
#[test]
fn whole_scope_collection() {
    let dtb = table("t");
    let mut tx = Transaction::new();
    tx.record_change(&dtb, record("t", "A"), strand("a"));
    tx.complete_changes("ns1", "db1").unwrap();
    tx.record_change(&dtb, record("t", "B"), strand("b"));
    tx.complete_changes("ns1", "db2").unwrap();
    tx.record_change(&dtb, record("t", "C"), strand("c"));
    tx.complete_changes("ns2", "db1").unwrap();

    gc_ns(&mut tx, "ns1", 1, None).unwrap();
    assert_eq!(0, read(&tx, "ns1", "db1", None, Some(0), None).unwrap().len());
    assert_eq!(0, read(&tx, "ns1", "db2", None, Some(0), None).unwrap().len());
    assert_eq!(1, read(&tx, "ns2", "db1", None, Some(0), None).unwrap().len());

    gc_all(&mut tx, 1, None).unwrap();
    assert_eq!(0, read(&tx, "ns2", "db1", None, Some(0), None).unwrap().len());
}

/// A disabled change feed records nothing.
#[test]
fn disabled_feed_records_nothing() {
    let quiet = TableDefinition { name: "t".to_string(), changefeed: ChangeFeed::none() };
    let mut tx = Transaction::new();
    tx.record_change(&quiet, record("t", "A"), strand("a"));
    tx.complete_changes("ns", "db").unwrap();
    assert_eq!(0, read(&tx, "ns", "db", None, Some(0), None).unwrap().len());
}

/// An absent value records a deletion; mutations to one record are never
/// coalesced.
#[test]
fn deletions_and_append_only() {
    let ns = "ns";
    let db = "db";
    let tb = "t";
    let dtb = table(tb);
    let mut tx = Transaction::new();
    tx.record_change(&dtb, record(tb, "A"), strand("a1"));
    tx.record_change(&dtb, record(tb, "A"), strand("a2"));
    tx.record_change(&dtb, record(tb, "A"), Value::Nothing);
    tx.complete_changes(ns, db).unwrap();
    let r = read(&tx, ns, db, Some(tb), Some(0), None).unwrap();
    let want = vec![one_table_set(
        1,
        tb,
        vec![
            put(tb, "A", "a1"),
            put(tb, "A", "a2"),
            TableMutation::Del(record(tb, "A")),
        ],
    )];
    assert_eq!(want, r);
}
