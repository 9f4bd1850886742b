use rustc_serialize::json::Json as Doc;
use std::collections::BTreeMap;

use valico::builder::Builder;
use valico::coercers::{array, array_of, boolean, float64, int64, object, string, uint64};
use valico::errors::{DslError, ErrorKind};
use valico::json::Json;
use valico::params::{Check, NoCheck, Param, ParamSet, Rule};

fn to_value(d: &Doc) -> Json {
    match d {
        Doc::I64(n) => Json::I64(*n),
        Doc::U64(n) => Json::U64(*n),
        Doc::F64(_) => Json::F64(d.to_string()),
        Doc::String(s) => Json::String(s.clone()),
        Doc::Boolean(b) => Json::Boolean(*b),
        Doc::Array(items) => Json::Array(items.iter().map(to_value).collect()),
        Doc::Object(entries) => Json::Object(
            entries
                .iter()
                .map(|(k, v)| (k.clone(), to_value(v)))
                .collect(),
        ),
        Doc::Null => Json::Null,
    }
}

fn to_doc(v: &Json) -> Doc {
    match v {
        Json::I64(n) => Doc::I64(*n),
        Json::U64(n) => Doc::U64(*n),
        Json::F64(t) => Doc::F64(t.parse().unwrap()),
        Json::String(s) => Doc::String(s.clone()),
        Json::Boolean(b) => Doc::Boolean(*b),
        Json::Array(items) => Doc::Array(items.iter().map(to_doc).collect()),
        Json::Object(entries) => {
            let mut m = BTreeMap::new();
            for (k, v) in entries {
                m.insert(k.clone(), to_doc(v));
            }
            Doc::Object(m)
        }
        Json::Null => Doc::Null,
    }
}

fn run<C: Check>(params: &ParamSet<C>, body: &str) -> (String, Vec<DslError>) {
    let mut val = to_value(&Doc::from_str(body).unwrap());
    let errors = params.process(&mut val);
    (to_doc(&val).to_string(), errors)
}

fn assert_str_eq<C: Check>(params: &ParamSet<C>, body: &str, res: &str) {
    let (out, errors) = run(params, body);
    assert!(errors.is_empty(), "unexpected errors for {}", body);
    assert_eq!(out, res.to_string());
}

fn assert_error<C: Check>(params: &ParamSet<C>, body: &str, kind: ErrorKind, path: &str) {
    let (_, errors) = run(params, body);
    assert!(
        errors.iter().any(|e| e.kind == kind && e.path == path),
        "no {:?} error at {} for {}",
        kind,
        path,
        body
    );
}

fn keys(names: &[&str]) -> Vec<String> {
    names.iter().map(|n| n.to_string()).collect()
}

#[test]
fn is_process_empty_builder() {
    let params = Builder::<NoCheck>::new().build();
    assert_str_eq(&params, r#"{"a":1}"#, r#"{"a":1}"#);
}

#[test]
fn is_process_simple_require() {
    let mut b = Builder::<NoCheck>::new();
    b.req_defined("a");
    let params = b.build();

    assert_str_eq(&params, r#"{"a":1}"#, r#"{"a":1}"#);
    assert_error(&params, r#"{}"#, ErrorKind::Required, "/a");
}

#[test]
fn is_process_i64_require() {
    let mut b = Builder::<NoCheck>::new();
    b.req_typed("a", int64());
    let params = b.build();

    assert_str_eq(&params, r#"{"a":"1"}"#, r#"{"a":1}"#);
    assert_str_eq(&params, r#"{"a": 1.112}"#, r#"{"a":1}"#);
    assert_error(&params, r#"{"a": "not-int"}"#, ErrorKind::WrongType, "/a");
    assert_error(&params, r#"{"a": {"a": 1}}"#, ErrorKind::WrongType, "/a");
}

#[test]
fn is_process_string_require() {
    let mut b = Builder::<NoCheck>::new();
    b.req_typed("a", string());
    let params = b.build();

    assert_str_eq(&params, r#"{"a":"1"}"#, r#"{"a":"1"}"#);
    assert_str_eq(&params, r#"{"a":1}"#, r#"{"a":"1"}"#);
    assert_str_eq(&params, r#"{"a":1.112}"#, r#"{"a":"1.112"}"#);
    assert_error(&params, r#"{"a": {}}"#, ErrorKind::WrongType, "/a");
    assert_error(&params, r#"{"a": null}"#, ErrorKind::WrongType, "/a");
}

#[test]
fn is_process_boolean_require() {
    let mut b = Builder::<NoCheck>::new();
    b.req_typed("a", boolean());
    let params = b.build();

    assert_str_eq(&params, r#"{"a":true}"#, r#"{"a":true}"#);
    assert_str_eq(&params, r#"{"a":false}"#, r#"{"a":false}"#);
    assert_str_eq(&params, r#"{"a":"true"}"#, r#"{"a":true}"#);
    assert_str_eq(&params, r#"{"a":"false"}"#, r#"{"a":false}"#);
    assert_error(&params, r#"{"a": null}"#, ErrorKind::WrongType, "/a");
    assert_error(&params, r#"{"a": 1}"#, ErrorKind::WrongType, "/a");
    assert_error(&params, r#"{"a": "not-bool"}"#, ErrorKind::WrongType, "/a");
}

#[test]
fn is_process_simple_array_require() {
    let mut b = Builder::<NoCheck>::new();
    b.req_typed("a", array());
    let params = b.build();

    assert_str_eq(&params, r#"{"a":[1,"2",[3]]}"#, r#"{"a":[1,"2",[3]]}"#);
    assert_error(&params, r#"{"a": {}}"#, ErrorKind::WrongType, "/a");
    assert_error(&params, r#"{"a": "test"}"#, ErrorKind::WrongType, "/a");
}

#[test]
fn is_process_typed_array_require() {
    let mut b = Builder::<NoCheck>::new();
    b.req_typed("a", array_of(string()));
    let params = b.build();

    assert_str_eq(&params, r#"{"a":[1,"2",3.1]}"#, r#"{"a":["1","2","3.1"]}"#);
    assert_error(&params, r#"{"a": {}}"#, ErrorKind::WrongType, "/a");
    assert_error(&params, r#"{"a": [1,2,{}]}"#, ErrorKind::WrongType, "/a/2");
}

#[test]
fn is_process_array_with_nested_require() {
    let mut inner = Builder::<NoCheck>::new();
    inner.req_typed("b", string());
    inner.req_typed("c", array_of(uint64()));
    let mut b = Builder::<NoCheck>::new();
    b.req_nested("a", array(), inner.build());
    let params = b.build();

    assert_str_eq(&params, r#"{"a":[{"b":1,"c":["1"]}]}"#, r#"{"a":[{"b":"1","c":[1]}]}"#);
    assert_error(&params, r#"{"a":[{"b":{},"c":["1"]}]}"#, ErrorKind::WrongType, "/a/0/b");
    assert_error(&params, r#"{"a":[{"b":1,"c":[{}]}]}"#, ErrorKind::WrongType, "/a/0/c/0");
}

#[test]
fn is_process_object_require() {
    let mut b = Builder::<NoCheck>::new();
    b.req_typed("a", object());
    let params = b.build();

    assert_str_eq(&params, r#"{"a":{}}"#, r#"{"a":{}}"#);
    assert_error(&params, r#"{"a":[]}"#, ErrorKind::WrongType, "/a");
    assert_error(&params, r#"{"a":""}"#, ErrorKind::WrongType, "/a");
}

#[test]
fn is_process_object_with_nested_require() {
    let mut inner = Builder::<NoCheck>::new();
    inner.req_typed("b", float64());
    inner.req_typed("c", array_of(string()));
    let mut b = Builder::<NoCheck>::new();
    b.req_nested("a", object(), inner.build());
    let params = b.build();

    assert_str_eq(
        &params,
        r#"{"a":{"b":"1.22","c":[1.112,""]}}"#,
        r#"{"a":{"b":1.22,"c":["1.112",""]}}"#,
    );
    assert_error(&params, r#"{"a":{"b":"not-f64"},"c":[1.112,""]}"#, ErrorKind::WrongType, "/a/b");
    assert_error(&params, r#"{"a":{"b":"1.22","c":[1.112,{}]}}"#, ErrorKind::WrongType, "/a/c/1");
}

#[test]
fn is_process_require_allows_null() {
    let mut b = Builder::<NoCheck>::new();
    let mut a = Param::new("a");
    a.coerce(string());
    b.req(a);
    let params = b.build();

    assert_error(&params, r#"{"a":null}"#, ErrorKind::WrongType, "/a");

    let mut b = Builder::<NoCheck>::new();
    let mut a = Param::new("a");
    a.coerce(string());
    a.allow_null();
    b.req(a);
    let params = b.build();

    assert_str_eq(&params, r#"{"a":null}"#, r#"{"a":null}"#);
}

#[test]
fn is_validate_allow_values() {
    let mut b = Builder::<NoCheck>::new();
    let mut a = Param::new("a");
    a.coerce(string());
    a.allow_values(vec![
        Json::String("allowed1".to_string()),
        Json::String("allowed2".to_string()),
    ]);
    b.req(a);
    let params = b.build();

    assert_str_eq(&params, r#"{"a":"allowed1"}"#, r#"{"a":"allowed1"}"#);
    assert_str_eq(&params, r#"{"a":"allowed2"}"#, r#"{"a":"allowed2"}"#);
    assert_error(&params, r#"{"a":"not in allowed"}"#, ErrorKind::WrongValue, "/a");
}

#[test]
fn is_validate_reject_values() {
    let mut b = Builder::<NoCheck>::new();
    let mut a = Param::new("a");
    a.coerce(string());
    a.reject_values(vec![
        Json::String("rejected1".to_string()),
        Json::String("rejected2".to_string()),
    ]);
    b.req(a);
    let params = b.build();

    assert_str_eq(&params, r#"{"a":"some"}"#, r#"{"a":"some"}"#);
    assert_error(&params, r#"{"a":"rejected1"}"#, ErrorKind::WrongValue, "/a");
    assert_error(&params, r#"{"a":"rejected2"}"#, ErrorKind::WrongValue, "/a");
}

#[test]
fn is_validate_with_function_validator() {
    let mut b = Builder::<Rule>::new();
    let mut a = Param::new("a");
    a.coerce(uint64());
    a.validate_with(Rule::Equals {
        expected: Json::U64(2),
        kind: ErrorKind::WrongType,
        detail: "Value is not exactly 2".to_string(),
    });
    b.req(a);
    let params = b.build();

    assert_str_eq(&params, r#"{"a":"2"}"#, r#"{"a":2}"#);
    assert_error(&params, r#"{"a":3}"#, ErrorKind::WrongType, "/a");
    assert_error(&params, r#"{"a":"3"}"#, ErrorKind::WrongType, "/a");
}

#[test]
fn is_validate_opt() {
    let mut b = Builder::<NoCheck>::new();
    b.req_defined("a");
    b.opt_typed("b", uint64());
    let params = b.build();

    assert_str_eq(&params, r#"{"a":"test"}"#, r#"{"a":"test"}"#);
    assert_str_eq(&params, r#"{"a":"test","b":"1"}"#, r#"{"a":"test","b":1}"#);
}

#[test]
fn is_validate_opt_with_default() {
    let mut b = Builder::<NoCheck>::new();
    let mut a = Param::new("a");
    a.default(Json::String("default".to_string()));
    b.opt(a);
    let params = b.build();

    assert_str_eq(&params, r#"{"a":"test"}"#, r#"{"a":"test"}"#);
    assert_str_eq(&params, r#"{}"#, r#"{"a":"default"}"#);
}

#[test]
fn is_validate_mutually_exclusive() {
    let mut b = Builder::<NoCheck>::new();
    b.opt_defined("a");
    b.opt_defined("b");
    b.mutually_exclusive(&keys(&["a", "b"]));
    let params = b.build();

    assert_str_eq(&params, r#"{"a":1}"#, r#"{"a":1}"#);
    assert_str_eq(&params, r#"{"b":1}"#, r#"{"b":1}"#);
    assert_str_eq(&params, r#"{}"#, r#"{}"#);
    assert_error(&params, r#"{"a":1,"b":1}"#, ErrorKind::MutuallyExclusive, "/");
}

#[test]
fn is_validate_exactly_one_of() {
    let mut b = Builder::<NoCheck>::new();
    b.opt_defined("a");
    b.opt_defined("b");
    b.exactly_one_of(&keys(&["a", "b"]));
    let params = b.build();

    assert_str_eq(&params, r#"{"a":1}"#, r#"{"a":1}"#);
    assert_str_eq(&params, r#"{"b":1}"#, r#"{"b":1}"#);
    assert_error(&params, r#"{}"#, ErrorKind::ExactlyOne, "/");
    assert_error(&params, r#"{"a":1,"b":1}"#, ErrorKind::ExactlyOne, "/");
}

#[test]
fn is_validate_at_least_one_of() {
    let mut b = Builder::<NoCheck>::new();
    b.opt_defined("a");
    b.opt_defined("b");
    b.at_least_one_of(&keys(&["a", "b"]));
    let params = b.build();

    assert_str_eq(&params, r#"{"a":1}"#, r#"{"a":1}"#);
    assert_str_eq(&params, r#"{"b":1}"#, r#"{"b":1}"#);
    assert_str_eq(&params, r#"{"a":1,"b":1}"#, r#"{"a":1,"b":1}"#);
    assert_error(&params, r#"{}"#, ErrorKind::AtLeastOne, "/");
}

#[test]
fn is_validate_with_function() {
    let mut b = Builder::<Rule>::new();
    b.opt_defined("a");
    b.opt_defined("b");
    b.validate_with(Rule::Reject {
        kind: ErrorKind::WrongType,
        detail: "You shall not pass!".to_string(),
    });
    let params = b.build();

    assert_error(&params, r#"{}"#, ErrorKind::WrongType, "/");
}

#[test]
fn is_validate_with_regex() {
    let mut b = Builder::<NoCheck>::new();
    let mut a = Param::new("a");
    a.coerce(string());
    a.regex("^test$");
    b.req(a);
    let params = b.build();

    assert_str_eq(&params, r#"{"a":"test"}"#, r#"{"a":"test"}"#);
    assert_error(&params, r#"{"a":"2"}"#, ErrorKind::WrongValue, "/a");
    assert_error(&params, r#"{"a":"test "}"#, ErrorKind::WrongValue, "/a");

    let mut b = Builder::<NoCheck>::new();
    let mut a = Param::new("a");
    a.coerce(array());
    a.regex("^test$");
    b.req(a);
    let params = b.build();

    assert_error(&params, r#"{"a":[]}"#, ErrorKind::WrongType, "/a");
}
