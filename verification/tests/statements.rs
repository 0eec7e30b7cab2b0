//! The statement surface: split and fetch clauses, bindings, and the
//! statement that shows changes.

use changefeed::sql::fetch::fetch;
use changefeed::sql::part::Part;
use changefeed::sql::split::split;
use changefeed::sql::statements::show::{show, table_or_database};
use changefeed::sql::value::Value;

fn field_names(parts: &[Part]) -> Vec<String> {
    parts
        .iter()
        .map(|p| match p {
            Part::Field(name) => name.clone(),
            _ => panic!("expected a field part"),
        })
        .collect()
}

#[test]
fn split_statement() {
    let sql = "SPLIT field";
    let res = split(sql);
    assert!(res.is_ok());
    let out = res.unwrap().1;
    assert_eq!(1, out.0.len());
    assert_eq!(vec!["field".to_string()], field_names(&out.0[0].0 .0));
    assert_eq!("SPLIT ON field", out.text().as_str());
}

#[test]
fn split_statement_on() {
    let sql = "SPLIT ON field";
    let res = split(sql);
    assert!(res.is_ok());
    let out = res.unwrap().1;
    assert_eq!(1, out.0.len());
    assert_eq!(vec!["field".to_string()], field_names(&out.0[0].0 .0));
    assert_eq!("SPLIT ON field", out.text().as_str());
}

#[test]
fn split_statement_multiple() {
    let sql = "SPLIT field, other.field";
    let res = split(sql);
    assert!(res.is_ok());
    let out = res.unwrap().1;
    assert_eq!(2, out.0.len());
    assert_eq!(vec!["field".to_string()], field_names(&out.0[0].0 .0));
    assert_eq!(
        vec!["other".to_string(), "field".to_string()],
        field_names(&out.0[1].0 .0)
    );
    assert_eq!("SPLIT ON field, other.field", out.text().as_str());
}

#[test]
fn fetch_statement() {
    let sql = "FETCH field";
    let res = fetch(sql);
    assert!(res.is_ok());
    let out = res.unwrap().1;
    assert_eq!(1, out.0.len());
    assert_eq!(vec!["field".to_string()], field_names(&out.0[0].0 .0));
    assert_eq!("FETCH field", out.text().as_str());
}

#[test]
fn fetch_statement_multiple() {
    let sql = "FETCH field, other.field";
    let res = fetch(sql);
    assert!(res.is_ok());
    let out = res.unwrap().1;
    assert_eq!(2, out.0.len());
    assert_eq!(vec!["field".to_string()], field_names(&out.0[0].0 .0));
    assert_eq!(
        vec!["other".to_string(), "field".to_string()],
        field_names(&out.0[1].0 .0)
    );
    assert_eq!("FETCH field, other.field", out.text().as_str());
}

#[test]
fn let_statement() {
    let sql = "LET $name = NULL";
    let res = changefeed::sql::statements::set::set(sql);
    assert!(res.is_ok());
    let out = res.unwrap().1;
    assert_eq!("LET $name = NULL", out.text().as_str());
    assert_eq!(Value::Null, out.what);
    assert!(!out.writeable());
}

#[test]
fn tb() {
    let sql = "TABLE person";
    let res = table_or_database(sql, 0);
    assert!(res.is_some());
    let out = res.unwrap().0.unwrap();
    assert_eq!("person", out.as_str());
}

#[test]
fn db() {
    let sql = "DATABASE";
    let res = table_or_database(sql, 0);
    assert!(res.is_some());
    assert!(res.unwrap().0.is_none());
}

#[test]
fn show_table_changes() {
    let sql = "SHOW CHANGES FOR TABLE person";
    let res = show(sql);
    assert!(res.is_ok());
    let out = res.unwrap().1;
    assert_eq!(sql, out.text().as_str());
}

#[test]
fn show_table_changes_since() {
    let sql = "SHOW CHANGES FOR TABLE person SINCE 0";
    let res = show(sql);
    assert!(res.is_ok());
    let out = res.unwrap().1;
    assert_eq!(sql, out.text().as_str());
}

#[test]
fn show_table_changes_since_limit() {
    let sql = "SHOW CHANGES FOR TABLE person SINCE 0 LIMIT 10";
    let res = show(sql);
    assert!(res.is_ok());
    let out = res.unwrap().1;
    assert_eq!(sql, out.text().as_str());
}

#[test]
fn show_database_changes() {
    let sql = "SHOW CHANGES FOR DATABASE";
    let res = show(sql);
    assert!(res.is_ok());
    let out = res.unwrap().1;
    assert_eq!(sql, out.text().as_str());
}

#[test]
fn show_database_changes_since() {
    let sql = "SHOW CHANGES FOR DATABASE SINCE 0";
    let res = show(sql);
    assert!(res.is_ok());
    let out = res.unwrap().1;
    assert_eq!(sql, out.text().as_str());
}

#[test]
fn show_database_changes_since_limit() {
    let sql = "SHOW CHANGES FOR DATABASE SINCE 0 LIMIT 10";
    let res = show(sql);
    assert!(res.is_ok());
    let out = res.unwrap().1;
    assert_eq!(sql, out.text().as_str());
}

#[test]
fn show_statement_parses_lower_case_keywords() {
    let res = show("show changes for database since 3 limit 4");
    assert!(res.is_ok());
    let out = res.unwrap().1;
    assert_eq!(Some(3), out.since);
    assert_eq!(Some(4), out.limit);
    assert!(out.table.is_none());
}

#[test]
fn malformed_statements_are_rejected() {
    assert!(show("SHOW NOTHING").is_err());
    assert!(split("SPLIT").is_err());
    assert!(changefeed::sql::statements::set::set("LET name = NULL").is_err());
    assert!(fetch("FETCHfield").is_err());
}
