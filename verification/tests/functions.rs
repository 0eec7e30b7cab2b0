//! The function surface: digests, numeric aggregates, strings and arrays.

use changefeed::ctx::Context;
use changefeed::fnc::{array, crypto, math, string};
use changefeed::sql::number::Number;
use changefeed::sql::value::{Array, Value};

fn int_val(v: i64) -> Value {
    Value::Number(Number::Int(v))
}

fn strand(s: &str) -> Value {
    Value::Strand(s.to_string())
}

fn nums(vs: &[i64]) -> Value {
    Value::Array(Array(vs.iter().map(|v| int_val(*v)).collect()))
}

#[test]
fn digests() {
    let ctx = Context::new();
    let md5 = crypto::md5(&ctx, vec![strand("abc")]).unwrap();
    assert_eq!(strand("900150983cd24fb0d6963f7d28e17f72"), md5);
    let sha1 = crypto::sha1(&ctx, vec![strand("abc")]).unwrap();
    assert_eq!(strand("a9993e364706816aba3e25717850c26c9cd0d89d"), sha1);
    let sha256 = crypto::sha256(&ctx, vec![strand("abc")]).unwrap();
    assert_eq!(
        strand("ba7816bf8f01cfea414140de5dae2223b00361a396177a9cb410ff61f20015ad"),
        sha256
    );
    let sha512 = crypto::sha512(&ctx, vec![strand("")]).unwrap();
    match sha512 {
        Value::Strand(s) => assert_eq!(128, s.len()),
        _ => panic!("expected a digest string"),
    }
}

#[test]
fn aggregates() {
    let ctx = Context::new();
    assert_eq!(int_val(10), math::sum(&ctx, vec![nums(&[1, 2, 3, 4])]).unwrap());
    assert_eq!(int_val(24), math::product(&ctx, vec![nums(&[2, 3, 4])]).unwrap());
    assert_eq!(int_val(4), math::max(&ctx, vec![nums(&[1, 4, 2])]).unwrap());
    assert_eq!(int_val(1), math::min(&ctx, vec![nums(&[3, 1, 2])]).unwrap());
    assert_eq!(int_val(2), math::spread(&ctx, vec![nums(&[5, 3, 4])]).unwrap());
    // 5 / 2 at millionth resolution
    assert_eq!(
        Value::Number(Number::Dec(2500000)),
        math::mean(&ctx, vec![nums(&[2, 3])]).unwrap()
    );
    assert_eq!(Value::Nothing, math::sum(&ctx, vec![int_val(1)]).unwrap());
    assert_eq!(Value::Nothing, math::mean(&ctx, vec![nums(&[])]).unwrap());
}

#[test]
fn scalar_math() {
    let ctx = Context::new();
    assert_eq!(int_val(3), math::abs(&ctx, vec![int_val(-3)]).unwrap());
    assert_eq!(
        int_val(2),
        math::ceil(&ctx, vec![Value::Number(Number::Dec(1100000))]).unwrap()
    );
    assert_eq!(
        int_val(1),
        math::floor(&ctx, vec![Value::Number(Number::Dec(1900000))]).unwrap()
    );
    assert_eq!(
        int_val(2),
        math::round(&ctx, vec![Value::Number(Number::Dec(1500000))]).unwrap()
    );
    assert_eq!(
        Value::Number(Number::Dec(3000000)),
        math::sqrt(&ctx, vec![int_val(9)]).unwrap()
    );
    assert!(math::fixed(&ctx, vec![int_val(1), int_val(0)]).is_err());
    assert_eq!(
        Value::Number(Number::Dec(1300000)),
        math::fixed(&ctx, vec![Value::Number(Number::Dec(1250000)), int_val(1)]).unwrap()
    );
}

#[test]
fn strings() {
    let ctx = Context::new();
    assert_eq!(
        strand("this is a test"),
        string::concat(&ctx, vec![strand("this"), strand(" "), strand("is"), strand(" a test")])
            .unwrap()
    );
    assert_eq!(
        Value::True,
        string::ends_with(&ctx, vec![strand("some test"), strand("test")]).unwrap()
    );
    assert_eq!(
        Value::True,
        string::starts_with(&ctx, vec![strand("some test"), strand("some")]).unwrap()
    );
    assert_eq!(
        strand("a-b-c"),
        string::join(&ctx, vec![strand("-"), strand("a"), strand("b"), strand("c")]).unwrap()
    );
    assert_eq!(int_val(4), string::length(&ctx, vec![strand("test")]).unwrap());
    assert_eq!(strand("abc"), string::lowercase(&ctx, vec![strand("ABC")]).unwrap());
    assert_eq!(strand("ABC"), string::uppercase(&ctx, vec![strand("abc")]).unwrap());
    assert_eq!(strand("ababab"), string::repeat(&ctx, vec![strand("ab"), int_val(3)]).unwrap());
    assert_eq!(strand("cba"), string::reverse(&ctx, vec![strand("abc")]).unwrap());
    assert_eq!(
        strand("cde"),
        string::slice(&ctx, vec![strand("abcdef"), int_val(2), int_val(3)]).unwrap()
    );
    assert_eq!(strand("x y"), string::trim(&ctx, vec![strand("  x y  ")]).unwrap());
    assert_eq!(
        Value::Array(Array(vec![strand("a"), strand(""), strand("b")])),
        string::split(&ctx, vec![strand("a,,b"), strand(",")]).unwrap()
    );
    assert_eq!(
        Value::Array(Array(vec![strand("this"), strand("is"), strand("it")])),
        string::words(&ctx, vec![strand("this is it")]).unwrap()
    );
    assert_eq!(
        strand("a-b-a"),
        string::replace(&ctx, vec![strand("a.b.a"), strand("."), strand("-")]).unwrap()
    );
    assert_eq!(
        strand("xx"),
        string::replace(&ctx, vec![strand("aaaa"), strand("aa"), strand("x")]).unwrap()
    );
}

#[test]
fn arrays() {
    let ctx = Context::new();
    assert_eq!(int_val(3), array::len(&ctx, vec![nums(&[7, 8, 9])]).unwrap());
    assert_eq!(
        nums(&[1, 2, 3, 4]),
        array::concat(&ctx, vec![nums(&[1, 2]), nums(&[3, 4])]).unwrap()
    );
    assert_eq!(nums(&[1, 2, 3]), array::distinct(&ctx, vec![nums(&[1, 2, 1, 3, 2])]).unwrap());
    assert_eq!(
        nums(&[1, 2, 3, 4]),
        array::union(&ctx, vec![nums(&[1, 2, 3]), nums(&[2, 3, 4])]).unwrap()
    );
    assert_eq!(Value::Nothing, array::len(&ctx, vec![int_val(0)]).unwrap());
}

#[test]
fn array_pairing() {
    let ctx = Context::new();
    // matches consume their partner, so duplicates pair up one to one
    assert_eq!(
        nums(&[2, 2]),
        array::intersect(&ctx, vec![nums(&[1, 2, 2, 3]), nums(&[2, 2, 4])]).unwrap()
    );
    assert_eq!(
        nums(&[1, 3]),
        array::difference(&ctx, vec![nums(&[1, 2]), nums(&[2, 3])]).unwrap()
    );
    // unmatched elements of the second operand trail the first's
    assert_eq!(
        nums(&[1, 2, 4, 5]),
        array::difference(&ctx, vec![nums(&[1, 3, 2]), nums(&[3, 4, 5])]).unwrap()
    );
    assert_eq!(
        Value::Nothing,
        array::intersect(&ctx, vec![int_val(1), nums(&[1])]).unwrap()
    );
}

#[test]
fn array_sorting() {
    let ctx = Context::new();
    assert_eq!(
        nums(&[1, 2, 2, 5]),
        array::sort(&ctx, vec![nums(&[5, 2, 1, 2])]).unwrap()
    );
    assert_eq!(
        nums(&[5, 2, 2, 1]),
        array::sort(&ctx, vec![nums(&[5, 2, 1, 2]), strand("desc")]).unwrap()
    );
    assert_eq!(
        nums(&[1, 2, 2, 5]),
        array::sort(&ctx, vec![nums(&[5, 2, 1, 2]), strand("asc")]).unwrap()
    );
    assert_eq!(
        nums(&[5, 2, 1]),
        array::sort(&ctx, vec![nums(&[1, 2, 5]), Value::False]).unwrap()
    );
    assert_eq!(nums(&[1, 3, 7]), array::asc(&ctx, vec![nums(&[7, 1, 3])]).unwrap());
    assert_eq!(nums(&[7, 3, 1]), array::desc(&ctx, vec![nums(&[7, 1, 3])]).unwrap());
    // mixed kinds order by kind first: numbers below strings
    let mixed = Value::Array(Array(vec![strand("b"), int_val(9), strand("a")]));
    assert_eq!(
        Value::Array(Array(vec![int_val(9), strand("a"), strand("b")])),
        array::sort(&ctx, vec![mixed]).unwrap()
    );
    assert_eq!(int_val(3), array::sort(&ctx, vec![int_val(3)]).unwrap());
}

#[test]
fn array_combinations() {
    let ctx = Context::new();
    let out = array::combine(&ctx, vec![nums(&[1, 2]), nums(&[3, 4])]).unwrap();
    let want = Value::Array(Array(vec![
        nums(&[1, 3]),
        nums(&[1, 4]),
        nums(&[2, 3]),
        nums(&[2, 4]),
    ]));
    assert_eq!(want, out);
    assert_eq!(
        Value::Nothing,
        array::combine(&ctx, vec![nums(&[1]), int_val(2)]).unwrap()
    );
}
