//! The value model: numbers, text forms, conversions and selections.

use changefeed::ctx::Context;
use changefeed::fnc::typ;
use changefeed::sql::changefeed::ChangeFeed;
use changefeed::sql::number::Number;
use changefeed::sql::part::Part;
use changefeed::sql::value::{Array, Id, Object, Thing, Value};
use changefeed::sql::changefeed::TableMutation;
use changefeed::sql::operation::Op;
use changefeed::kvs::cache::{Cache, Entry};
use changefeed::kvs::store::TableDefinition;
use changefeed::dbs::variables::Attach;

fn int_val(v: i64) -> Value {
    Value::Number(Number::Int(v))
}

#[test]
fn number_text_forms() {
    assert_eq!("0", Number::Int(0).text().as_str());
    assert_eq!("-42", Number::Int(-42).text().as_str());
    assert_eq!("1.25", Number::Dec(1250000).text().as_str());
    assert_eq!("2", Number::Dec(2000000).text().as_str());
    assert_eq!("-0.000001", Number::Dec(-1).text().as_str());
    assert_eq!("0.5", Number::Dec(500000).text().as_str());
}

#[test]
fn number_arithmetic_saturates() {
    let top = Number::Int(i64::MAX);
    let one = Number::Int(1);
    assert_eq!(Number::Int(i64::MAX), top.add(one));
    let bottom = Number::Int(i64::MIN);
    assert_eq!(Number::Int(i64::MIN), bottom.sub(one));
}

#[test]
fn number_rounding() {
    assert_eq!(Number::Int(2), Number::Dec(1500000).round());
    assert_eq!(Number::Int(-2), Number::Dec(-1500000).round());
    assert_eq!(Number::Int(1), Number::Dec(1900000).floor());
    assert_eq!(Number::Int(2), Number::Dec(1100000).ceil());
    // the square root of 2, at millionth resolution
    assert_eq!(Number::Dec(1414213), Number::Int(2).sqrt());
}

#[test]
fn value_text_forms() {
    assert_eq!("NONE", Value::Nothing.text().as_str());
    assert_eq!("NULL", Value::Null.text().as_str());
    assert_eq!("true", Value::True.text().as_str());
    assert_eq!("\"a\"", Value::Strand("a".to_string()).text().as_str());
    assert_eq!("1h", Value::Duration(3600).text().as_str());
    assert_eq!("1m30s", Value::Duration(90).text().as_str());
    assert_eq!("0s", Value::Duration(0).text().as_str());
    let thing = Value::Thing(Thing { tb: "tb".to_string(), id: Id::Text("a".to_string()) });
    assert_eq!("tb:a", thing.text().as_str());
    let arr = Value::Array(Array(vec![int_val(1), int_val(2), int_val(3)]));
    assert_eq!("[1, 2, 3]", arr.text().as_str());
    let obj = Value::Object(Object(vec![("k".to_string(), int_val(1))]));
    assert_eq!("{ k: 1 }", obj.text().as_str());
}

#[test]
fn truthiness() {
    assert!(!Value::Nothing.is_truthy());
    assert!(!Value::Null.is_truthy());
    assert!(Value::True.is_truthy());
    assert!(!int_val(0).is_truthy());
    assert!(int_val(7).is_truthy());
    assert!(!Value::Strand("false".to_string()).is_truthy());
    assert!(Value::Strand("x".to_string()).is_truthy());
    assert!(!Value::Strand(String::new()).is_truthy());
}

#[test]
fn conversions() {
    let ctx = Context::new();
    assert_eq!(
        Value::True,
        typ::bool(&ctx, vec![int_val(3)]).unwrap()
    );
    assert_eq!(
        Value::Number(Number::Int(1)),
        typ::to_int(&ctx, vec![Value::Number(Number::Dec(1250000))]).unwrap()
    );
    assert_eq!(
        Value::Number(Number::Dec(5000000)),
        typ::decimal(&ctx, vec![int_val(5)]).unwrap()
    );
    assert_eq!(
        Value::Strand("7".to_string()),
        typ::string(&ctx, vec![int_val(7)]).unwrap()
    );
    assert_eq!(
        Value::Table("person".to_string()),
        typ::table(&ctx, vec![Value::Strand("person".to_string())]).unwrap()
    );
    let th = typ::thing(
        &ctx,
        vec![Value::Strand("tb".to_string()), Value::Strand("a".to_string())],
    )
    .unwrap();
    assert_eq!(
        Value::Thing(Thing { tb: "tb".to_string(), id: Id::Text("a".to_string()) }),
        th
    );
}

#[test]
fn selections() {
    let arr = Value::Array(Array(vec![int_val(1), int_val(2), int_val(3)]));
    assert_eq!(int_val(1), arr.first());
    assert_eq!(int_val(3), arr.last());
    assert_eq!(int_val(1), arr.single());
    assert_eq!(arr, arr.all());
    assert_eq!(int_val(2), arr.step(&Part::Index(Number::Int(1))));
    let obj = Value::Object(Object(vec![
        ("ns".to_string(), Value::Strand("n1".to_string())),
        ("db".to_string(), Value::Strand("d1".to_string())),
    ]));
    assert_eq!(
        Value::Strand("d1".to_string()),
        obj.step(&Part::Field("db".to_string()))
    );
    assert_eq!(Value::Nothing, obj.step(&Part::Field("xx".to_string())));
}

#[test]
fn session_fields() {
    let mut ctx = Context::new();
    let session = Value::Object(Object(vec![
        ("db".to_string(), Value::Strand("mydb".to_string())),
        ("ns".to_string(), Value::Strand("myns".to_string())),
    ]));
    ctx.add_value("session".to_string(), session);
    assert_eq!(
        Value::Strand("mydb".to_string()),
        changefeed::fnc::session::db(&ctx, vec![]).unwrap()
    );
    assert_eq!(
        Value::Strand("myns".to_string()),
        changefeed::fnc::session::ns(&ctx, vec![]).unwrap()
    );
    assert_eq!(
        Value::Nothing,
        changefeed::fnc::session::ip(&ctx, vec![]).unwrap()
    );
    let empty = Context::new();
    assert_eq!(
        Value::Nothing,
        changefeed::fnc::session::id(&empty, vec![]).unwrap()
    );
}

#[test]
fn changefeed_option() {
    let off = ChangeFeed::none();
    assert!(!off.enabled);
    let on = ChangeFeed::enabled(3600);
    assert!(on.enabled);
    assert_eq!(3600, on.expiry);
    assert_eq!(ChangeFeed::default(), off);
}

#[test]
fn mutation_value_forms() {
    let t = Thing { tb: "tb".to_string(), id: Id::Text("a".to_string()) };
    let set = TableMutation::Put(t.clone(), Value::Strand("v".to_string()));
    let v = set.to_value();
    assert_eq!(
        "{ update: \"v\" }",
        v.text().as_str()
    );
    let del = TableMutation::Del(t);
    assert_eq!(
        "{ delete: { id: tb:a } }",
        del.to_value().text().as_str()
    );
}

#[test]
fn future_run_returns_value() {
    let ctx = Context::new();
    let v = int_val(9);
    assert_eq!(int_val(9), changefeed::fnc::future::run(&ctx, v).unwrap());
}

#[test]
fn op_names() {
    assert_eq!(Op::Add, Op::from_name("add"));
    assert_eq!(Op::Remove, Op::from_name("remove"));
    assert_eq!(Op::Replace, Op::from_name("replace"));
    assert_eq!(Op::Change, Op::from_name("change"));
    assert_eq!(Op::Nothing, Op::from_name("wat"));
    assert_eq!(Op::Add, Op::default());
}

#[test]
fn variables_attach() {
    let ctx = Context::new();
    let vars: changefeed::dbs::variables::Variables =
        Some(vec![("x".to_string(), int_val(1)), ("y".to_string(), int_val(2))]);
    let ctx = vars.attach(ctx);
    assert_eq!(Some(&int_val(2)), ctx.value("y"));
    let none_vars: changefeed::dbs::variables::Variables = None;
    let ctx = none_vars.attach(ctx);
    assert_eq!(Some(&int_val(1)), ctx.value("x"));
}

#[test]
fn array_readings() {
    let a = Array(vec![int_val(1), Value::Number(Number::Dec(2500000)), Value::True]);
    assert_eq!(vec![1i64, 2, 1], a.clone().as_ints());
    let nums = a.clone().as_numbers();
    assert_eq!(Number::Dec(2500000), nums[1]);
    let strands = a.as_strands();
    assert_eq!(Value::Strand("2.5".to_string()), strands[1]);
    assert_eq!(0, Array::new().0.len());
    assert_eq!(0, Array::with_capacity(8).0.len());
}

#[test]
fn object_merge() {
    let mut base = Value::Object(Object(vec![
        ("a".to_string(), int_val(1)),
        ("b".to_string(), int_val(2)),
    ]));
    let patch = Value::Object(Object(vec![
        ("b".to_string(), int_val(9)),
        ("c".to_string(), int_val(3)),
    ]));
    base.merge(patch);
    assert_eq!(
        Value::Object(Object(vec![
            ("a".to_string(), int_val(1)),
            ("b".to_string(), int_val(9)),
            ("c".to_string(), int_val(3)),
        ])),
        base
    );
    // a non-object patch leaves the value untouched
    let before = base.clone();
    base.merge(int_val(7));
    assert_eq!(before, base);
}

#[test]
fn cache_round_trip() {
    let mut c = Cache::new();
    let key = vec![1u8, 2u8];
    assert!(!c.exi(&key));
    c.set(
        key.clone(),
        Entry::Tb(TableDefinition { name: "t".to_string(), changefeed: ChangeFeed::none() }),
    );
    assert!(c.exi(&key));
    match c.get(&key) {
        Some(Entry::Tb(d)) => assert_eq!("t", d.name.as_str()),
        _ => panic!("missing cache entry"),
    }
    assert!(c.get(&vec![9u8]).is_none());
}
