use rustc_serialize::json::Json as Doc;
use std::collections::BTreeMap;

use valico::builder::Builder;
use valico::coercers::{
    array_of, boolean, float64, int64, null, object, string, uint64, ArrayCoercer, Coercer,
    I64Coercer, PrimitiveType, StringCoercer, U64Coercer,
};
use valico::errors::{DslError, ErrorKind};
use valico::json::Json;
use valico::params::{NoCheck, Param, ParamSet, Rule};

fn to_value(d: &Doc) -> Json {
    match d {
        Doc::I64(n) => Json::I64(*n),
        Doc::U64(n) => Json::U64(*n),
        Doc::F64(_) => Json::F64(d.to_string()),
        Doc::String(s) => Json::String(s.clone()),
        Doc::Boolean(b) => Json::Boolean(*b),
        Doc::Array(items) => Json::Array(items.iter().map(to_value).collect()),
        Doc::Object(entries) => Json::Object(
            entries
                .iter()
                .map(|(k, v)| (k.clone(), to_value(v)))
                .collect(),
        ),
        Doc::Null => Json::Null,
    }
}

fn to_doc(v: &Json) -> Doc {
    match v {
        Json::I64(n) => Doc::I64(*n),
        Json::U64(n) => Doc::U64(*n),
        Json::F64(t) => Doc::F64(t.parse().unwrap()),
        Json::String(s) => Doc::String(s.clone()),
        Json::Boolean(b) => Doc::Boolean(*b),
        Json::Array(items) => Doc::Array(items.iter().map(to_doc).collect()),
        Json::Object(entries) => {
            let mut m = BTreeMap::new();
            for (k, v) in entries {
                m.insert(k.clone(), to_doc(v));
            }
            Doc::Object(m)
        }
        Json::Null => Doc::Null,
    }
}

fn run(params: &ParamSet<NoCheck>, body: &str) -> (String, Vec<DslError>) {
    let mut val = to_value(&Doc::from_str(body).unwrap());
    let errors = params.process(&mut val);
    (to_doc(&val).to_string(), errors)
}

fn kinds_and_paths(errors: &[DslError]) -> Vec<(ErrorKind, String)> {
    errors.iter().map(|e| (e.kind, e.path.clone())).collect()
}

fn coerce_with(c: &Coercer, v: Json) -> (Json, Result<Option<Json>, Vec<DslError>>) {
    let mut v = v;
    let r = c.coerce(&mut v, &"/x".to_string());
    (v, r)
}

fn replaced(c: &Coercer, v: Json) -> Json {
    match coerce_with(c, v).1 {
        Ok(Some(x)) => x,
        other => panic!("expected a replacement, got {:?}", other.is_ok()),
    }
}

fn fails(c: &Coercer, v: Json) -> bool {
    coerce_with(c, v).1.is_err()
}

fn text(s: &str) -> Json {
    Json::String(s.to_string())
}

fn is_text(v: &Json, s: &str) -> bool {
    matches!(v, Json::String(t) if t == s)
}

#[test]
fn string_coercion_writes_integers_in_decimal() {
    assert!(is_text(&replaced(&string(), Json::I64(-42)), "-42"));
    assert!(is_text(&replaced(&string(), Json::U64(18446744073709551615)), "18446744073709551615"));
    assert!(is_text(&replaced(&string(), Json::I64(i64::MIN)), "-9223372036854775808"));
    assert!(is_text(&replaced(&string(), Json::F64("2.5".to_string())), "2.5"));
    assert!(fails(&string(), Json::Boolean(true)));
}

#[test]
fn integer_coercion_reads_and_truncates() {
    assert!(matches!(replaced(&int64(), text("-17")), Json::I64(-17)));
    assert!(matches!(replaced(&int64(), text("+5")), Json::I64(5)));
    assert!(matches!(replaced(&int64(), Json::F64("-3.9".to_string())), Json::I64(-3)));
    assert!(matches!(
        replaced(&int64(), Json::F64("99999999999999999999.0".to_string())),
        Json::I64(i64::MAX)
    ));
    assert!(fails(&int64(), text("9223372036854775808")));
    assert!(matches!(replaced(&int64(), text("-9223372036854775808")), Json::I64(i64::MIN)));
    assert!(fails(&int64(), text("")));
    assert!(fails(&int64(), text("-")));
    assert!(fails(&int64(), text("1.5")));
    assert!(matches!(replaced(&uint64(), text("18446744073709551615")), Json::U64(u64::MAX)));
    assert!(fails(&uint64(), text("18446744073709551616")));
    assert!(fails(&uint64(), text("-1")));
    assert!(matches!(replaced(&uint64(), Json::F64("-0.5".to_string())), Json::U64(0)));
    assert!(matches!(replaced(&uint64(), Json::I64(7)), Json::U64(7)));
    assert!(matches!(replaced(&int64(), Json::U64(7)), Json::I64(7)));
}

#[test]
fn float_coercion_keeps_a_decimal_numeral() {
    assert!(matches!(replaced(&float64(), text("1.22")), Json::F64(t) if t == "1.22"));
    assert!(matches!(replaced(&float64(), text("-3")), Json::F64(t) if t == "-3.0"));
    assert!(matches!(replaced(&float64(), text("+3")), Json::F64(t) if t == "3.0"));
    assert!(matches!(replaced(&float64(), Json::I64(-4)), Json::F64(t) if t == "-4.0"));
    assert!(matches!(replaced(&float64(), Json::U64(12)), Json::F64(t) if t == "12.0"));
    assert!(matches!(replaced(&float64(), text("5.")), Json::F64(t) if t == "5.0"));
    assert!(matches!(replaced(&float64(), text(".5")), Json::F64(t) if t == "0.5"));
    assert!(matches!(replaced(&float64(), text("1e5")), Json::F64(t) if t == "100000.0"));
    assert!(matches!(replaced(&float64(), text("1E-3")), Json::F64(t) if t == "0.001"));
    assert!(matches!(replaced(&float64(), text("-2.5e+1")), Json::F64(t) if t == "-25.0"));
    assert!(matches!(replaced(&float64(), text("1.50")), Json::F64(t) if t == "1.5"));
    assert!(matches!(replaced(&float64(), text("01.5")), Json::F64(t) if t == "1.5"));
    assert!(matches!(replaced(&float64(), text("0.000")), Json::F64(t) if t == "0.0"));
    assert!(matches!(replaced(&float64(), text("12.5e-1")), Json::F64(t) if t == "1.25"));
    assert!(fails(&float64(), text(".")));
    assert!(fails(&float64(), text("1e")));
    assert!(fails(&float64(), text("e5")));
    assert!(fails(&float64(), text("1e400")));
    assert!(fails(&float64(), text("inf")));
    assert!(fails(&float64(), text("abc")));
    assert!(fails(&float64(), Json::Null));
}

#[test]
fn boolean_and_null_coercion() {
    assert!(matches!(replaced(&boolean(), text("true")), Json::Boolean(true)));
    assert!(fails(&boolean(), text("True")));
    assert!(matches!(replaced(&null(), text("")), Json::Null));
    assert!(fails(&null(), text(" ")));
    assert!(matches!(coerce_with(&null(), Json::Null).1, Ok(None)));
    assert!(fails(&object(), Json::Array(Vec::new())));
}

#[test]
fn typed_value_is_kept_as_it_is() {
    assert!(matches!(coerce_with(&int64(), Json::I64(3)).1, Ok(None)));
    assert!(matches!(coerce_with(&string(), text("x")).1, Ok(None)));
    let (v, r) = coerce_with(&array_of(string()), Json::Array(vec![text("a"), text("b")]));
    assert!(matches!(r, Ok(None)));
    assert_eq!(to_doc(&v).to_string(), r#"["a","b"]"#);
}

#[test]
fn array_coercion_reports_every_failing_element() {
    let (v, r) = coerce_with(
        &array_of(int64()),
        Json::Array(vec![text("1"), Json::Null, text("x"), Json::U64(4)]),
    );
    let errors = r.err().unwrap();
    assert_eq!(
        kinds_and_paths(&errors),
        vec![
            (ErrorKind::WrongType, "/x/1".to_string()),
            (ErrorKind::WrongType, "/x/2".to_string())
        ]
    );
    assert_eq!(to_doc(&v).to_string(), r#"[1,null,"x",4]"#);
}

#[test]
fn coercion_twice_changes_nothing_more() {
    let c = array_of(float64());
    let (once, r1) = coerce_with(&c, Json::Array(vec![text("2"), Json::I64(-1), text("q")]));
    let (twice, r2) = coerce_with(&c, once);
    assert_eq!(to_doc(&twice).to_string(), r#"[2.0,-1.0,"q"]"#);
    assert_eq!(kinds_and_paths(&r1.err().unwrap()), kinds_and_paths(&r2.err().unwrap()));
}

#[test]
fn primitive_types_of_coercers() {
    assert!(StringCoercer.get_primitive_type() == PrimitiveType::String);
    assert!(I64Coercer.get_primitive_type() == PrimitiveType::I64);
    assert!(U64Coercer.get_primitive_type() == PrimitiveType::U64);
    assert!(ArrayCoercer::new().get_primitive_type() == PrimitiveType::Array);
    assert!(float64().get_primitive_type() == PrimitiveType::F64);
    assert!(ArrayCoercer::of_type(boolean()).sub_coercer.is_some());
}

#[test]
fn non_object_input_is_one_wrong_type_at_root() {
    let mut b = Builder::<NoCheck>::new();
    b.req_defined("a");
    let params = b.build();
    let (out, errors) = run(&params, "[1]");
    assert_eq!(out, "[1]");
    assert_eq!(kinds_and_paths(&errors), vec![(ErrorKind::WrongType, "".to_string())]);
}

#[test]
fn failing_parameter_does_not_stop_its_siblings() {
    let mut b = Builder::<NoCheck>::new();
    b.req_typed("a", int64());
    b.req_defined("b");
    b.req_typed("c", string());
    b.at_least_one_of(&vec!["x".to_string(), "y".to_string()]);
    let params = b.build();
    let (out, errors) = run(&params, r#"{"a":"nope","c":5}"#);
    assert_eq!(out, r#"{"a":"nope","c":"5"}"#);
    assert_eq!(
        kinds_and_paths(&errors),
        vec![
            (ErrorKind::WrongType, "/a".to_string()),
            (ErrorKind::Required, "/b".to_string()),
            (ErrorKind::AtLeastOne, "/".to_string())
        ]
    );
}

#[test]
fn group_counts_present_keys() {
    let mut b = Builder::<NoCheck>::new();
    b.mutually_exclusive(&vec!["a".to_string(), "b".to_string(), "c".to_string()]);
    b.exactly_one_of(&vec!["a".to_string(), "b".to_string(), "c".to_string()]);
    let params = b.build();
    assert!(run(&params, r#"{"a":null}"#).1.is_empty());
    let (_, errors) = run(&params, r#"{"a":1,"c":null}"#);
    assert_eq!(
        kinds_and_paths(&errors),
        vec![
            (ErrorKind::MutuallyExclusive, "/".to_string()),
            (ErrorKind::ExactlyOne, "/".to_string())
        ]
    );
    assert_eq!(errors[0].params, vec!["a".to_string(), "b".to_string(), "c".to_string()]);
    let (_, errors) = run(&params, r#"{}"#);
    assert_eq!(kinds_and_paths(&errors), vec![(ErrorKind::ExactlyOne, "/".to_string())]);
}

#[test]
fn nested_group_reports_at_nested_path() {
    let mut inner = Builder::<NoCheck>::new();
    inner.opt_defined("p");
    inner.at_least_one_of(&vec!["p".to_string()]);
    let mut b = Builder::<NoCheck>::new();
    b.req_nested("a", array_of(object()), inner.build());
    let params = b.build();
    let (_, errors) = run(&params, r#"{"a":[{"p":1},{},{"q":2}]}"#);
    assert_eq!(
        kinds_and_paths(&errors),
        vec![
            (ErrorKind::AtLeastOne, "/a/1".to_string()),
            (ErrorKind::AtLeastOne, "/a/2".to_string())
        ]
    );
}

#[test]
fn nested_set_skips_non_object_elements() {
    let mut inner = Builder::<NoCheck>::new();
    inner.req_typed("n", int64());
    let mut b = Builder::<NoCheck>::new();
    b.req_nested("a", Coercer::Array(ArrayCoercer::new()), inner.build());
    let params = b.build();
    let (out, errors) = run(&params, r#"{"a":[1,{"n":"2"},"x"]}"#);
    assert!(errors.is_empty());
    assert_eq!(out, r#"{"a":[1,{"n":2},"x"]}"#);
}

#[test]
fn processing_twice_gives_the_same_result() {
    let mut inner = Builder::<NoCheck>::new();
    inner.req_typed("b", float64());
    let mut b = Builder::<NoCheck>::new();
    b.req_nested("a", object(), inner.build());
    b.opt_typed("n", int64());
    let mut d = Param::new("d");
    d.default(text("7"));
    d.coerce(uint64());
    b.opt(d);
    let params = b.build();
    let mut val = to_value(&Doc::from_str(r#"{"a":{"b":"2"},"n":"x"}"#).unwrap());
    let first = params.process(&mut val);
    let after_first = to_doc(&val).to_string();
    let second = params.process(&mut val);
    assert_eq!(after_first, r#"{"a":{"b":2.0},"d":7,"n":"x"}"#);
    assert_eq!(to_doc(&val).to_string(), after_first);
    assert_eq!(kinds_and_paths(&first), kinds_and_paths(&second));
    assert_eq!(kinds_and_paths(&first), vec![(ErrorKind::WrongType, "/n".to_string())]);
}

#[test]
fn valid_input_is_left_identical() {
    let mut b = Builder::<NoCheck>::new();
    b.req_typed("s", string());
    b.req_typed("l", array_of(int64()));
    b.opt_typed("o", object());
    let params = b.build();
    let body = r#"{"l":[-1,2],"o":{"k":true},"s":"x"}"#;
    let (out, errors) = run(&params, body);
    assert!(errors.is_empty());
    assert_eq!(out, body);
}

#[test]
fn checks_run_in_order_and_all_report() {
    let mut b = Builder::<NoCheck>::new();
    let mut a = Param::new("a");
    a.allow_values(vec![text("x")]);
    a.reject_values(vec![text("y")]);
    a.regex("z+");
    b.req(a);
    let params = b.build();
    let (_, errors) = run(&params, r#"{"a":"y"}"#);
    assert_eq!(
        kinds_and_paths(&errors),
        vec![
            (ErrorKind::WrongValue, "/a".to_string()),
            (ErrorKind::WrongValue, "/a".to_string()),
            (ErrorKind::WrongValue, "/a".to_string())
        ]
    );
    let (_, errors) = run(&params, r#"{"a":"x"}"#);
    assert_eq!(kinds_and_paths(&errors), vec![(ErrorKind::WrongValue, "/a".to_string())]);
}

#[test]
fn regex_must_match_the_whole_string() {
    let mut b = Builder::<NoCheck>::new();
    let mut a = Param::new("a");
    a.regex("a+");
    b.req(a);
    let params = b.build();
    assert!(run(&params, r#"{"a":"aaa"}"#).1.is_empty());
    assert_eq!(run(&params, r#"{"a":"baaa"}"#).1.len(), 1);
    let mut a: Param<NoCheck> = Param::new("a");
    assert!(!a.regex("("));
    assert!(!a.regex("a)|(b"));
    assert!(a.regex.is_none());
}

#[test]
fn default_is_coerced_and_later_declaration_replaces_earlier() {
    let mut b = Builder::<NoCheck>::new();
    b.req_defined("a");
    b.opt_typed("a", int64());
    let params = b.build();
    assert_eq!(params.params.len(), 1);
    assert!(run(&params, r#"{}"#).1.is_empty());
    let mut b = Builder::<NoCheck>::new();
    let mut a = Param::new("a");
    a.default(text("12"));
    a.coerce(int64());
    b.opt(a);
    let params = b.build();
    assert_eq!(run(&params, r#"{}"#).0, r#"{"a":12}"#);
}

#[test]
fn caller_rule_reports_its_own_kind() {
    let mut b = Builder::<Rule>::new();
    let mut a = Param::new("a");
    a.validate_with(Rule::Equals {
        expected: Json::Boolean(true),
        kind: ErrorKind::Custom,
        detail: "must be true".to_string(),
    });
    b.opt(a);
    b.validate_with(Rule::Reject {
        kind: ErrorKind::Custom,
        detail: "object refused".to_string(),
    });
    let params = b.build();
    let mut val = to_value(&Doc::from_str(r#"{"a":true}"#).unwrap());
    let errors = params.process(&mut val);
    assert_eq!(kinds_and_paths(&errors), vec![(ErrorKind::Custom, "/".to_string())]);
    let mut val = to_value(&Doc::from_str(r#"{"a":false}"#).unwrap());
    let errors = params.process(&mut val);
    assert_eq!(
        kinds_and_paths(&errors),
        vec![
            (ErrorKind::Custom, "/a".to_string()),
            (ErrorKind::Custom, "/".to_string())
        ]
    );
    assert_eq!(errors[0].detail, "must be true");
}

#[test]
fn float_reading_follows_where_the_point_lands() {
    assert!(matches!(replaced(&float64(), text("1e-1001")), Json::F64(t) if t == "0.0"));
    assert!(matches!(replaced(&float64(), text("-1e-1001")), Json::F64(t) if t == "-0.0"));
    assert!(matches!(replaced(&float64(), text("0e1001")), Json::F64(t) if t == "0.0"));
    let long = format!("1{}e-1001", "0".repeat(1000));
    assert!(matches!(replaced(&float64(), text(&long)), Json::F64(t) if t == "0.1"));
    let big = replaced(&float64(), text("1e308"));
    assert!(matches!(&big, Json::F64(t) if t.len() == 311 && t.starts_with('1') && t.ends_with(".0")));
    assert!(fails(&float64(), text("1e309")));
    assert!(fails(&float64(), text("1e99999999999999999999999")));
    assert!(matches!(replaced(&float64(), text("1e-99999999999999999999999")), Json::F64(t) if t == "0.0"));
}

#[test]
fn float_text_that_is_no_numeral_is_refused_when_read() {
    assert!(fails(&string(), Json::F64("1e5".to_string())));
    assert!(fails(&int64(), Json::F64("abc".to_string())));
    assert!(fails(&uint64(), Json::F64("5".to_string())));
    assert!(is_text(&replaced(&string(), Json::F64("-0.25".to_string())), "-0.25"));
}

#[test]
fn key_listed_twice_counts_once() {
    let mut b = Builder::<NoCheck>::new();
    b.mutually_exclusive(&vec!["a".to_string(), "a".to_string()]);
    b.exactly_one_of(&vec!["a".to_string(), "a".to_string()]);
    let params = b.build();
    assert!(run(&params, r#"{"a":1}"#).1.is_empty());
}

#[test]
fn pattern_that_cannot_be_anchored_is_refused() {
    let mut a: Param<NoCheck> = Param::new("a");
    assert!(!a.regex("(?x)a # trailing comment"));
    assert!(a.regex.is_none());
    assert!(a.regex("(?x)a b"));
}
