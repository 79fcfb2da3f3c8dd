use dq::path::{Path, Segment};
use dq::value::Value;

#[test]
fn parse_simple_keys() {
    let p = Path::parse("a.b.c");
    assert_eq!(p.segments, vec![Segment::Key("a".into()), Segment::Key("b".into()), Segment::Key("c".into())]);
}

#[test]
fn parse_single_key() {
    let p = Path::parse("name");
    assert_eq!(p.segments, vec![Segment::Key("name".into())]);
}

#[test]
fn parse_with_index() {
    let p = Path::parse("items.0.name");
    assert_eq!(p.segments, vec![Segment::Key("items".into()), Segment::Index(0), Segment::Key("name".into())]);
}

#[test]
fn parse_wildcard() {
    let p = Path::parse("a.*.name");
    assert_eq!(p.segments, vec![Segment::Key("a".into()), Segment::Wildcard, Segment::Key("name".into())]);
}

#[test]
fn parse_recursive_descent() {
    let p = Path::parse("a..name");
    assert_eq!(p.segments, vec![Segment::Key("a".into()), Segment::RecursiveDescent, Segment::Key("name".into())]);
}

#[test]
fn parse_empty_string() {
    let p = Path::parse("");
    assert!(p.segments.is_empty());
}

#[test]
fn parse_large_index() {
    let p = Path::parse("arr.999");
    assert_eq!(p.segments, vec![Segment::Key("arr".into()), Segment::Index(999)]);
}

#[test]
fn parse_leading_dot_is_skipped() {
    let p = Path::parse(".foo");
    assert_eq!(p.segments, vec![Segment::Key("foo".into())]);
}

#[test]
fn resolve_simple_key() {
    let v = Value::from_pairs(vec![("a", Value::integer(1))]);
    let results = Path::parse("a").resolve(&v);
    assert_eq!(results, vec![&Value::integer(1)]);
}

#[test]
fn resolve_nested_keys() {
    let v = Value::from_pairs(vec![("a", Value::from_pairs(vec![("b", Value::integer(42))]))]);
    let results = Path::parse("a.b").resolve(&v);
    assert_eq!(results, vec![&Value::integer(42)]);
}

#[test]
fn resolve_missing_key_returns_empty() {
    let v = Value::from_pairs(vec![("a", Value::integer(1))]);
    let results = Path::parse("b").resolve(&v);
    assert!(results.is_empty());
}

#[test]
fn resolve_array_index() {
    let v = Value::from_pairs(vec![("items", Value::array(vec![Value::string("x"), Value::string("y")]))]);
    let results = Path::parse("items.1").resolve(&v);
    assert_eq!(results, vec![&Value::string("y")]);
}

#[test]
fn resolve_wildcard_on_map() {
    let v = Value::from_pairs(vec![(
        "servers",
        Value::from_pairs(vec![
            ("a", Value::from_pairs(vec![("port", Value::integer(80))])),
            ("b", Value::from_pairs(vec![("port", Value::integer(443))])),
        ]),
    )]);
    let results = Path::parse("servers.*.port").resolve(&v);
    assert_eq!(results, vec![&Value::integer(80), &Value::integer(443)]);
}

#[test]
fn resolve_wildcard_on_array() {
    let v = Value::array(vec![Value::integer(1), Value::integer(2), Value::integer(3)]);
    let results = Path::parse("*").resolve(&v);
    assert_eq!(results, vec![&Value::integer(1), &Value::integer(2), &Value::integer(3)]);
}

#[test]
fn resolve_recursive_descent() {
    let v = Value::from_pairs(vec![(
        "a",
        Value::from_pairs(vec![
            ("name", Value::string("inner")),
            ("b", Value::from_pairs(vec![("name", Value::string("deep"))])),
        ]),
    )]);
    let results = Path::parse("a..name").resolve(&v);
    let string_results: Vec<&str> = results.iter().filter_map(|v| v.as_str()).collect();
    assert!(string_results.contains(&"inner"));
    assert!(string_results.contains(&"deep"));
}

#[test]
fn resolve_out_of_bounds_index_returns_empty() {
    let v = Value::array(vec![Value::integer(1)]);
    let results = Path::parse("99").resolve(&v);
    assert!(results.is_empty());
}

#[test]
fn parse_leading_dot_changes_nothing() {
    assert_eq!(Path::parse(".a.b").segments, Path::parse("a.b").segments);
    assert_eq!(Path::parse("").segments.len(), 0);
    assert_eq!(Path::parse("a..b").segments.len(), 3);
}

#[test]
fn resolve_agrees_with_select() {
    let v = Value::from_pairs(vec![("a", Value::from_pairs(vec![("b", Value::integer(7))]))]);
    assert_eq!(Path::parse("a.b").resolve(&v), v.select("a.b").into_iter().collect::<Vec<&Value>>());
    assert_eq!(Path::parse("a.c").resolve(&v), v.select("a.c").into_iter().collect::<Vec<&Value>>());
    assert_eq!(Path::parse("").resolve(&v), vec![&v]);
}
