use file_suite::array_expr::error::Error;
use file_suite::array_expr::storage::Storage;
use file_suite::array_expr::typed_value::TypedValue;
use file_suite::array_expr::value::{TyKind, Value};
use file_suite::array_expr::value_array::ValueArray;
use file_suite::text::IntErrorKind;

fn key(s: &str) -> Vec<char> {
    s.chars().collect()
}

fn one(text: &str) -> ValueArray {
    ValueArray::from_value(Value::new_tokens(text.to_string()))
}

fn texts(arr: &ValueArray) -> Vec<String> {
    arr.as_slice().iter().map(|v| v.text()).collect()
}

#[test]
fn storage_read_after_write() {
    let mut storage = Storage::initial();
    storage.set_global(&key("a"), one("x"));
    assert_eq!(texts(&storage.try_get(&key("a")).unwrap()), vec!["x"]);
    storage.push_layer();
    storage.set_local(&key("a"), one("y"));
    assert_eq!(texts(&storage.try_get(&key("a")).unwrap()), vec!["y"]);
    storage.pop_layer();
    assert_eq!(texts(&storage.try_get(&key("a")).unwrap()), vec!["x"]);
}

#[test]
fn storage_globals_seen_in_layers() {
    let mut storage = Storage::initial();
    storage.push_layer();
    storage.set_global(&key("g"), one("1"));
    storage.push_layer();
    assert_eq!(texts(&storage.try_get(&key("g")).unwrap()), vec!["1"]);
    assert_eq!(storage.depth(), 3);
}

#[test]
fn storage_missing_variable() {
    let storage = Storage::initial();
    let err = storage.try_get(&key("nope")).unwrap_err();
    assert_eq!(err.message(), "could not find variable 'nope'");
}

#[test]
fn storage_keeps_globals_layer() {
    let mut storage = Storage::initial();
    storage.pop_layer();
    assert_eq!(storage.depth(), 1);
}

#[test]
fn value_ty_eq_compares_text_and_type() {
    let a = Value::new(String::from("x"));
    assert!(a.ty_eq(&Value::new(String::from("x"))));
    assert!(!a.ty_eq(&Value::new(String::from("y"))));
    assert!(!a.ty_eq(&Value::new_tokens(String::from("x"))));
    assert!(Value::new_int(12).ty_eq(&Value::new(String::from("12")).with_ty(TyKind::Int)));
}

#[test]
fn integers_read_without_leading_zeros() {
    let int = |t: &str| Value::new(String::from(t)).get_int();
    assert_eq!(int("0"), Ok(0));
    assert_eq!(int("00"), Ok(0));
    assert_eq!(int("-0"), Ok(0));
    assert_eq!(int("007"), Ok(7));
    assert_eq!(int("-12"), Ok(-12));
    assert_eq!(int(""), Err(IntErrorKind::Empty));
    assert_eq!(int("0x"), Err(IntErrorKind::InvalidDigit));
    assert_eq!(Value::new_int(-3).get_int(), Ok(-3));
}

#[test]
fn identifiers_are_checked() {
    let typed = |t: &str| Value::new(String::from(t)).with_ty(TyKind::Ident).try_to_typed();
    assert!(matches!(typed("fromKebabToCamel"), Ok(TypedValue::Ident(s)) if s == "fromKebabToCamel"));
    assert!(matches!(typed("_camel_to_snake"), Ok(TypedValue::Ident(s)) if s == "_camel_to_snake"));
    assert!(matches!(typed("A1"), Ok(TypedValue::Ident(s)) if s == "A1"));
    assert!(matches!(typed("caf\u{e9}"), Ok(TypedValue::Ident(_))));
    assert!(matches!(typed("hello world"), Err(Error::Syn(m)) if m == "value is not a valid identifier"));
    assert!(matches!(typed(""), Err(Error::Syn(_))));
    assert!(matches!(typed("1a"), Err(Error::Syn(_))));
    assert!(matches!(typed("12"), Err(Error::Syn(_))));
    assert!(matches!(typed("a-b"), Err(Error::Syn(_))));
}
