use dq::value::{Block, Value};

fn float(f: f64) -> Value {
    Value::float(f.to_bits(), &format!("{f}"))
}

fn as_f64(v: &Value) -> Option<f64> {
    match v {
        Value::Float(f) => Some(f64::from_bits(f.bits)),
        Value::Int(n) => Some(*n as f64),
        _ => None,
    }
}

fn block(t: &str, labels: &[&str], body: Vec<(&str, Value)>) -> Value {
    Value::block(
        t,
        labels.iter().map(|l| l.to_string()).collect(),
        body.into_iter().map(|(k, v)| (k.to_string(), v)).collect(),
    )
}

#[test]
fn test_construction_and_type_predicates() {
    assert!(Value::null().is_null());
    assert!(Value::bool(true).is_bool());
    assert!(Value::integer(42).is_int());
    assert!(Value::integer(42).is_number());
    assert!(float(3.14).is_float());
    assert!(float(3.14).is_number());
    assert!(Value::string("hello").is_string());
    assert!(Value::bytes(vec![1, 2, 3]).is_bytes());
    assert!(Value::datetime("2024-01-01T00:00:00Z").is_datetime());
    assert!(Value::array(vec![]).is_array());
    assert!(Value::empty_map().is_map());
}

#[test]
fn test_type_names() {
    assert_eq!(Value::null().jq_type(), "null");
    assert_eq!(Value::bool(false).jq_type(), "boolean");
    assert_eq!(Value::integer(0).jq_type(), "number");
    assert_eq!(float(0.0).jq_type(), "number");
    assert_eq!(Value::string("").jq_type(), "string");
    assert_eq!(Value::array(vec![]).jq_type(), "array");
    assert_eq!(Value::empty_map().jq_type(), "object");
}

#[test]
fn test_accessors() {
    assert_eq!(Value::bool(true).as_bool(), Some(true));
    assert_eq!(Value::integer(42).as_i64(), Some(42));
    assert_eq!(as_f64(&Value::integer(42)), Some(42.0));
    assert_eq!(as_f64(&float(3.14)), Some(3.14));
    assert_eq!(Value::string("hi").as_str(), Some("hi"));
    assert_eq!(Value::datetime("2024").as_str(), Some("2024"));
}

#[test]
fn test_map_operations() {
    let m = Value::from_pairs(vec![("a", Value::integer(1)), ("b", Value::integer(2))]);
    assert_eq!(m.get("a"), Some(&Value::integer(1)));
    assert_eq!(m.get("c"), None);
    assert_eq!(m.len(), 2);
    assert_eq!(m.keys(), vec!["a", "b"]);
}

#[test]
fn test_array_operations() {
    let a = Value::array(vec![Value::integer(10), Value::integer(20)]);
    assert_eq!(a.get_index(0), Some(&Value::integer(10)));
    assert_eq!(a.get_index(2), None);
    assert_eq!(a.len(), 2);
}

#[test]
fn test_select_dot_path() {
    let v = Value::from_pairs(vec![(
        "spec",
        Value::from_pairs(vec![("template", Value::from_pairs(vec![("name", Value::string("web"))]))]),
    )]);
    assert_eq!(v.select("spec.template.name"), Some(&Value::string("web")));
    assert_eq!(v.select("spec.missing"), None);
    assert_eq!(v.select(""), Some(&v));
}

#[test]
fn test_select_with_array_index() {
    let v = Value::from_pairs(vec![("items", Value::array(vec![Value::string("a"), Value::string("b")]))]);
    assert_eq!(v.select("items.0"), Some(&Value::string("a")));
    assert_eq!(v.select("items.1"), Some(&Value::string("b")));
}

#[test]
fn test_flatten() {
    let nested = Value::array(vec![
        Value::integer(1),
        Value::array(vec![Value::integer(2), Value::array(vec![Value::integer(3)])]),
        Value::integer(4),
    ]);
    let flat = nested.flatten();
    assert_eq!(
        flat,
        Value::array(vec![Value::integer(1), Value::integer(2), Value::integer(3), Value::integer(4)])
    );
}

#[test]
fn test_flatten_non_array() {
    assert_eq!(Value::integer(42).flatten(), Value::integer(42));
}

#[test]
fn value_test_find_blocks() {
    let v = Value::from_pairs(vec![
        ("dependency", block("dependency", &["vpc"], vec![("config_path", Value::string("../vpc"))])),
        (
            "other",
            Value::from_pairs(vec![(
                "dependency",
                block("dependency", &["rds"], vec![("config_path", Value::string("../rds"))]),
            )]),
        ),
    ]);
    let blocks: Vec<&Block> = v.find_blocks("dependency");
    assert_eq!(blocks.len(), 2);
    assert_eq!(blocks[0].labels[0], "vpc");
    assert_eq!(blocks[1].labels[0], "rds");
}

#[test]
fn test_walk() {
    let v = Value::from_pairs(vec![("a", Value::array(vec![Value::integer(1), Value::integer(2)]))]);
    let count = v.walk().len();
    // root map + "a" array + int(1) + int(2) = 4
    assert_eq!(count, 4);
}

#[test]
fn test_from_pairs() {
    let v = Value::from_pairs(vec![("key", Value::string("val"))]);
    assert_eq!(v.get("key"), Some(&Value::string("val")));
}

#[test]
fn test_block_access() {
    let b = block("resource", &["aws_instance", "web"], vec![("ami", Value::string("ami-12345"))]);
    assert!(b.is_block());
    assert_eq!(b.get("ami"), Some(&Value::string("ami-12345")));
    assert_eq!(b.keys(), vec!["ami"]);
    let blk = b.as_block().unwrap();
    assert_eq!(blk.block_type, "resource");
    assert_eq!(blk.labels.len(), 2);
}

#[test]
fn test_len_and_is_empty() {
    assert_eq!(Value::null().len(), 0);
    assert!(Value::null().is_empty());
    assert_eq!(Value::string("hello").len(), 5);
    assert!(!Value::string("hello").is_empty());
    assert_eq!(Value::array(vec![Value::integer(1)]).len(), 1);
}

#[test]
fn test_entries() {
    let m = Value::from_pairs(vec![("x", Value::integer(1)), ("y", Value::integer(2))]);
    let entries = m.entries();
    assert_eq!(entries.len(), 2);
    assert_eq!(entries[0], ("x", &Value::integer(1)));
}

#[test]
fn select_missing_index_is_none() {
    let v = Value::from_pairs(vec![("items", Value::array(vec![Value::string("a")]))]);
    assert_eq!(v.select("items.5"), None);
    assert_eq!(v.select("items.+0"), Some(&Value::string("a")));
}

#[test]
fn nan_is_not_equal_to_itself() {
    let nan = float(f64::NAN);
    assert_ne!(nan, nan.clone());
    assert_eq!(float(0.0), float(-0.0));
}

#[test]
fn maps_compare_regardless_of_order() {
    let a = Value::from_pairs(vec![("x", Value::integer(1)), ("y", Value::integer(2))]);
    let b = Value::from_pairs(vec![("y", Value::integer(2)), ("x", Value::integer(1))]);
    assert_eq!(a, b);
}

#[test]
fn walk_visits_block_bodies_in_preorder() {
    let b = block("locals", &[], vec![("a", Value::integer(1)), ("b", Value::array(vec![Value::integer(2)]))]);
    let all = b.walk();
    assert_eq!(all.len(), 4);
    assert_eq!(all[1], &Value::integer(1));
    assert_eq!(all[3], &Value::integer(2));
}

#[test]
fn test_map_leaves() {
    let v = Value::from_pairs(vec![("x", Value::integer(1)), ("y", Value::from_pairs(vec![("z", Value::integer(2))]))]);
    let doubled = v.map_leaves(&|leaf: &Value| match leaf {
        Value::Int(n) => Value::integer(n * 2),
        other => other.clone(),
    });
    assert_eq!(doubled.select("x"), Some(&Value::integer(2)));
    assert_eq!(doubled.select("y.z"), Some(&Value::integer(4)));
}

#[test]
fn map_leaves_keeps_blocks_and_arrays() {
    let v = Value::block("resource", vec!["a".to_string()], vec![("n".to_string(), Value::array(vec![Value::integer(3), Value::string("s")]))]);
    let out = v.map_leaves(&|leaf: &Value| match leaf {
        Value::Int(n) => Value::integer(n + 1),
        _ => Value::Null,
    });
    let b = out.as_block().unwrap();
    assert_eq!(b.block_type, "resource");
    assert_eq!(b.labels, vec!["a".to_string()]);
    assert_eq!(out.get("n"), Some(&Value::array(vec![Value::integer(4), Value::Null])));
}

#[test]
fn scalar_text_of_each_kind() {
    assert_eq!(Value::null().scalar_text().as_deref(), Some("null"));
    assert_eq!(Value::bool(false).scalar_text().as_deref(), Some("false"));
    assert_eq!(Value::integer(-42).scalar_text().as_deref(), Some("-42"));
    assert_eq!(Value::string("hi").scalar_text().as_deref(), Some("hi"));
    assert_eq!(Value::bytes(vec![1, 2, 3]).scalar_text().as_deref(), Some("<3 bytes>"));
    let b = Value::block("resource", vec!["aws_instance".to_string(), "web".to_string()], vec![]);
    assert_eq!(b.scalar_text().as_deref(), Some("resource \"aws_instance\" \"web\" { ... }"));
    assert_eq!(Value::array(vec![]).scalar_text(), None);
    assert_eq!(Value::float(2.5f64.to_bits(), "2.5").scalar_text(), None);
}
