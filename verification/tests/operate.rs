//! The binary operators on values.

use changefeed::fnc::operate;
use changefeed::sql::number::Number;
use changefeed::sql::value::Value;

fn int_val(v: i64) -> Value {
    Value::Number(Number::Int(v))
}

#[test]
fn or_true() {
    let one = int_val(1);
    let two = int_val(2);
    let res = operate::or(one, two);
    assert!(res.is_ok());
    let out = res.unwrap();
    assert_eq!("1", out.text().as_str());
}

#[test]
fn or_false_one() {
    let one = int_val(0);
    let two = int_val(1);
    let res = operate::or(one, two);
    assert!(res.is_ok());
    let out = res.unwrap();
    assert_eq!("1", out.text().as_str());
}

#[test]
fn or_false_two() {
    let one = int_val(1);
    let two = int_val(0);
    let res = operate::or(one, two);
    assert!(res.is_ok());
    let out = res.unwrap();
    assert_eq!("1", out.text().as_str());
}

#[test]
fn and_true() {
    let one = int_val(1);
    let two = int_val(2);
    let res = operate::and(one, two);
    assert!(res.is_ok());
    let out = res.unwrap();
    assert_eq!("2", out.text().as_str());
}

#[test]
fn and_false_one() {
    let one = int_val(0);
    let two = int_val(1);
    let res = operate::and(one, two);
    assert!(res.is_ok());
    let out = res.unwrap();
    assert_eq!("0", out.text().as_str());
}

#[test]
fn and_false_two() {
    let one = int_val(1);
    let two = int_val(0);
    let res = operate::and(one, two);
    assert!(res.is_ok());
    let out = res.unwrap();
    assert_eq!("0", out.text().as_str());
}

#[test]
fn add_basic() {
    let one = int_val(5);
    let two = int_val(4);
    let res = operate::add(one, two);
    assert!(res.is_ok());
    let out = res.unwrap();
    assert_eq!("9", out.text().as_str());
}

#[test]
fn sub_basic() {
    let one = int_val(5);
    let two = int_val(4);
    let res = operate::sub(one, two);
    assert!(res.is_ok());
    let out = res.unwrap();
    assert_eq!("1", out.text().as_str());
}

#[test]
fn mul_basic() {
    let one = int_val(5);
    let two = int_val(4);
    let res = operate::mul(one, two);
    assert!(res.is_ok());
    let out = res.unwrap();
    assert_eq!("20", out.text().as_str());
}

#[test]
fn div_basic() {
    let one = int_val(5);
    let two = int_val(4);
    let res = operate::div(one, two);
    assert!(res.is_ok());
    let out = res.unwrap();
    assert_eq!("1.25", out.text().as_str());
}

#[test]
fn equal_numbers_across_forms() {
    let a = Value::Number(Number::Int(1));
    let b = Value::Number(Number::Dec(1000000));
    let res = operate::equal(&a, &b).unwrap();
    assert_eq!(Value::True, res);
    let res = operate::exact(&a, &b).unwrap();
    assert_eq!(Value::False, res);
}

#[test]
fn contain_and_inside() {
    let arr = Value::Array(changefeed::sql::value::Array(vec![int_val(1), int_val(2), int_val(3)]));
    let two = int_val(2);
    assert_eq!(Value::True, operate::contain(&arr, &two).unwrap());
    assert_eq!(Value::True, operate::inside(&two, &arr).unwrap());
    assert_eq!(Value::False, operate::not_contain(&arr, &two).unwrap());
    let five = int_val(5);
    assert_eq!(Value::False, operate::contain(&arr, &five).unwrap());
}

#[test]
fn string_likeness() {
    let hay = Value::Strand("change feed".to_string());
    let needle = Value::Strand("feed".to_string());
    assert_eq!(Value::True, operate::like(&hay, &needle).unwrap());
    assert_eq!(Value::False, operate::not_like(&hay, &needle).unwrap());
    let missing = Value::Strand("xyz".to_string());
    assert_eq!(Value::False, operate::like(&hay, &missing).unwrap());
}

#[test]
fn ordering_of_values() {
    let a = int_val(3);
    let b = int_val(7);
    assert_eq!(Value::True, operate::less_than(&a, &b).unwrap());
    assert_eq!(Value::False, operate::more_than(&a, &b).unwrap());
    assert_eq!(
        Value::True,
        operate::less_than_or_equal(&a, &a).unwrap()
    );
    let s1 = Value::Strand("abc".to_string());
    let s2 = Value::Strand("abd".to_string());
    assert_eq!(Value::True, operate::less_than(&s1, &s2).unwrap());
}

#[test]
fn division_by_zero_is_absent() {
    let res = operate::div(int_val(5), int_val(0)).unwrap();
    assert_eq!(Value::Nothing, res);
}
