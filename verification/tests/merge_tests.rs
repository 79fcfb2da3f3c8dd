use dq::merge::{
    diff, flatten_keys, json_merge_patch, merge, merge_stack, strategic_merge, three_way_merge, unflatten_keys, Strategy,
};
use dq::value::Value;

fn map(pairs: &[(&str, Value)]) -> Value {
    Value::from_pairs(pairs.iter().map(|(k, v)| (*k, v.clone())).collect())
}

fn num(n: i64) -> Value {
    Value::integer(n)
}

#[test]
fn test_shallow_merge() {
    let base = map(&[("a", num(1)), ("b", map(&[("x", num(10))]))]);
    let over = map(&[("b", map(&[("y", num(20))])), ("c", num(3))]);
    let result = merge(&base, &over, Strategy::Shallow);
    assert_eq!(result.get("a"), Some(&num(1)));
    assert_eq!(result.get("b"), Some(&map(&[("y", num(20))])));
    assert_eq!(result.get("c"), Some(&num(3)));
}

#[test]
fn test_deep_merge() {
    let base = map(&[("a", num(1)), ("b", map(&[("x", num(10))]))]);
    let over = map(&[("b", map(&[("y", num(20))])), ("c", num(3))]);
    let result = merge(&base, &over, Strategy::Deep);
    assert_eq!(result.get("a"), Some(&num(1)));
    let b = result.get("b").unwrap();
    assert_eq!(b.get("x"), Some(&num(10)));
    assert_eq!(b.get("y"), Some(&num(20)));
    assert_eq!(result.get("c"), Some(&num(3)));
}

#[test]
fn test_replace_merge() {
    let base = map(&[("a", num(1)), ("b", num(2))]);
    let over = map(&[("c", num(3))]);
    let result = merge(&base, &over, Strategy::Replace);
    assert_eq!(result, over);
}

#[test]
fn test_merge_stack() {
    let global = map(&[("region", Value::string("us-east-1")), ("env", Value::string("prod"))]);
    let tenant = map(&[("env", Value::string("staging"))]);
    let local = map(&[("debug", Value::bool(true))]);
    let result = merge_stack(&[global, tenant, local], Strategy::Shallow);
    assert_eq!(result.get("region"), Some(&Value::string("us-east-1")));
    assert_eq!(result.get("env"), Some(&Value::string("staging")));
    assert_eq!(result.get("debug"), Some(&Value::bool(true)));
}

#[test]
fn test_diff_identical() {
    let a = map(&[("x", num(1)), ("y", num(2))]);
    assert_eq!(diff(&a, &a), Value::Null);
}

#[test]
fn test_diff_added_key() {
    let a = map(&[("x", num(1))]);
    let b = map(&[("x", num(1)), ("y", num(2))]);
    assert_eq!(diff(&a, &b), map(&[("y", num(2))]));
}

#[test]
fn test_diff_removed_key() {
    let a = map(&[("x", num(1)), ("y", num(2))]);
    let b = map(&[("x", num(1))]);
    assert_eq!(diff(&a, &b), map(&[("y", Value::Null)]));
}

#[test]
fn test_diff_changed_value() {
    let a = map(&[("x", num(1))]);
    let b = map(&[("x", num(42))]);
    assert_eq!(diff(&a, &b), map(&[("x", num(42))]));
}

#[test]
fn test_flatten_custom_separator() {
    let v = map(&[("a", map(&[("b", num(1))]))]);
    let flat = flatten_keys(&v, "/");
    assert_eq!(flat.get("a/b"), Some(&num(1)));
}

#[test]
fn test_flatten_unflatten_roundtrip() {
    let original = map(&[("a", map(&[("b", num(1)), ("c", map(&[("d", num(2))]))]))]);
    let flat = flatten_keys(&original, ".");
    let restored = unflatten_keys(&flat, ".");
    assert_eq!(original, restored);
}

#[test]
fn test_flatten_block_body() {
    let b = Value::block(
        "resource",
        vec!["aws_instance".to_string()],
        vec![("ami".to_string(), Value::string("ami-123")), ("type".to_string(), Value::string("t3.micro"))],
    );
    let flat = flatten_keys(&b, ".");
    assert_eq!(flat.get("ami"), Some(&Value::string("ami-123")));
    assert_eq!(flat.get("type"), Some(&Value::string("t3.micro")));
}

#[test]
fn test_rfc7396_null_removes_key() {
    let base = map(&[("a", num(1)), ("b", num(2))]);
    let patch = map(&[("a", Value::Null)]);
    let result = json_merge_patch(&base, &patch);
    assert_eq!(result.get("a"), None);
    assert_eq!(result.get("b"), Some(&num(2)));
}

#[test]
fn test_rfc7396_nested() {
    let base = map(&[("a", map(&[("x", num(1)), ("y", num(2))]))]);
    let patch = map(&[("a", map(&[("y", num(99)), ("z", num(3))]))]);
    let result = json_merge_patch(&base, &patch);
    let a = result.get("a").unwrap();
    assert_eq!(a.get("x"), Some(&num(1)));
    assert_eq!(a.get("y"), Some(&num(99)));
    assert_eq!(a.get("z"), Some(&num(3)));
}

#[test]
fn test_rfc7396_preserves_unmodified() {
    let base = map(&[("a", num(1)), ("b", Value::string("hello")), ("c", Value::bool(true))]);
    let patch = map(&[("d", num(4))]);
    let result = json_merge_patch(&base, &patch);
    assert_eq!(result.get("a"), Some(&num(1)));
    assert_eq!(result.get("b"), Some(&Value::string("hello")));
    assert_eq!(result.get("c"), Some(&Value::bool(true)));
    assert_eq!(result.get("d"), Some(&num(4)));
}

#[test]
fn test_rfc7396_nested_null() {
    let base = map(&[("a", map(&[("x", num(1)), ("y", num(2))]))]);
    let patch = map(&[("a", map(&[("x", Value::Null)]))]);
    let result = json_merge_patch(&base, &patch);
    let a = result.get("a").unwrap();
    assert_eq!(a.get("x"), None);
    assert_eq!(a.get("y"), Some(&num(2)));
}

#[test]
fn test_strategic_merge_array_by_key() {
    let base = map(&[(
        "containers",
        Value::array(vec![
            map(&[("name", Value::string("web")), ("image", Value::string("nginx:1.0"))]),
            map(&[("name", Value::string("sidecar")), ("image", Value::string("envoy:1.0"))]),
        ]),
    )]);
    let over = map(&[(
        "containers",
        Value::array(vec![map(&[("name", Value::string("web")), ("image", Value::string("nginx:2.0"))])]),
    )]);
    let merge_keys = vec![("containers".to_string(), "name".to_string())];
    let result = strategic_merge(&base, &over, &merge_keys);
    let containers = result.get("containers").unwrap().as_array().unwrap();
    assert_eq!(containers.len(), 2);
    assert_eq!(containers[0].get("image"), Some(&Value::string("nginx:2.0")));
    assert_eq!(containers[1].get("image"), Some(&Value::string("envoy:1.0")));
}

#[test]
fn test_strategic_merge_without_merge_key_replaces_array() {
    let base = map(&[("args", Value::array(vec![Value::string("--port=8080")]))]);
    let over = map(&[("args", Value::array(vec![Value::string("--port=9090"), Value::string("--debug")]))]);
    let merge_keys: Vec<(String, String)> = vec![];
    let result = strategic_merge(&base, &over, &merge_keys);
    let args = result.get("args").unwrap().as_array().unwrap();
    assert_eq!(args.len(), 2);
    assert_eq!(args[0], Value::string("--port=9090"));
    assert_eq!(args[1], Value::string("--debug"));
}

#[test]
fn test_strategic_merge_maps_recurse() {
    let base = map(&[("spec", map(&[("replicas", num(3)), ("selector", map(&[("app", Value::string("web"))]))]))]);
    let over = map(&[("spec", map(&[("replicas", num(5))]))]);
    let merge_keys: Vec<(String, String)> = vec![];
    let result = strategic_merge(&base, &over, &merge_keys);
    let spec = result.get("spec").unwrap();
    assert_eq!(spec.get("replicas"), Some(&num(5)));
    assert_eq!(spec.get("selector"), Some(&map(&[("app", Value::string("web"))])));
}

#[test]
fn test_strategic_merge_via_strategy_enum() {
    let base = map(&[("a", num(1))]);
    let over = map(&[("b", num(2))]);
    let result = merge(&base, &over, Strategy::Strategic { merge_keys: vec![] });
    assert_eq!(result.get("a"), Some(&num(1)));
    assert_eq!(result.get("b"), Some(&num(2)));
}

#[test]
fn test_three_way_no_conflict() {
    let base = map(&[("a", num(1)), ("b", num(2))]);
    let left = map(&[("a", num(10)), ("b", num(2))]);
    let right = map(&[("a", num(1)), ("b", num(20))]);
    let result = three_way_merge(&base, &left, &right).unwrap();
    assert_eq!(result.get("a"), Some(&num(10)));
    assert_eq!(result.get("b"), Some(&num(20)));
}

#[test]
fn test_three_way_conflict_detection() {
    let base = map(&[("a", num(1))]);
    let left = map(&[("a", num(10))]);
    let right = map(&[("a", num(20))]);
    let result = three_way_merge(&base, &left, &right);
    assert!(result.is_err());
    let err = result.unwrap_err();
    assert!(err.message().contains("merge conflict"));
    assert!(err.message().contains("a"));
}

#[test]
fn test_three_way_independent_changes_merge() {
    let base = map(&[("x", num(1))]);
    let left = map(&[("x", num(1)), ("y", num(2))]);
    let right = map(&[("x", num(1)), ("z", num(3))]);
    let result = three_way_merge(&base, &left, &right).unwrap();
    assert_eq!(result.get("x"), Some(&num(1)));
    assert_eq!(result.get("y"), Some(&num(2)));
    assert_eq!(result.get("z"), Some(&num(3)));
}

#[test]
fn test_three_way_identical_changes() {
    let base = map(&[("a", num(1))]);
    let left = map(&[("a", num(42))]);
    let right = map(&[("a", num(42))]);
    let result = three_way_merge(&base, &left, &right).unwrap();
    assert_eq!(result.get("a"), Some(&num(42)));
}

#[test]
fn three_way_conflict_reports_nested_path() {
    let base = map(&[("spec", map(&[("a", num(1))]))]);
    let left = map(&[("spec", map(&[("a", num(2))]))]);
    let right = map(&[("spec", map(&[("a", num(3))]))]);
    let err = three_way_merge(&base, &left, &right).unwrap_err();
    assert_eq!(err.message(), "merge conflict at spec.a: both sides modified this key differently");
}

#[test]
fn deep_merge_concatenates_arrays() {
    let base = map(&[("l", Value::array(vec![num(1)]))]);
    let over = map(&[("l", Value::array(vec![num(2)]))]);
    let result = merge(&base, &over, Strategy::Deep);
    assert_eq!(result.get("l"), Some(&Value::array(vec![num(1), num(2)])));
}

#[test]
fn json_merge_patch_non_object_replaces() {
    let base = map(&[("a", num(1))]);
    assert_eq!(json_merge_patch(&base, &num(7)), num(7));
    let r = json_merge_patch(&num(7), &map(&[("a", num(1))]));
    assert_eq!(r, map(&[("a", num(1))]));
}

#[test]
fn merge_stack_of_nothing_is_null() {
    assert_eq!(merge_stack(&[], Strategy::Deep), Value::Null);
}

#[test]
fn diff_of_scalars() {
    assert_eq!(diff(&num(1), &num(1)), Value::Null);
    assert_eq!(diff(&num(1), &num(2)), num(2));
}

#[test]
fn unflatten_keeps_non_map_levels() {
    let flat = map(&[("a", num(1)), ("a.b", num(2))]);
    let nested = unflatten_keys(&flat, ".");
    assert_eq!(nested, map(&[("a", num(1))]));
}

#[test]
fn three_way_unchanged_side_yields() {
    let base = map(&[("a", num(1)), ("b", map(&[("x", num(1))])), ("gone", num(0))]);
    let changed = map(&[("c", num(3)), ("b", map(&[("x", num(2)), ("y", num(5))])), ("a", num(1))]);
    // left unchanged: the result equals the right side as a map
    let r = three_way_merge(&base, &base, &changed).unwrap();
    assert_eq!(r, changed);
    assert_eq!(r.get("gone"), None);
    // right unchanged: the result equals the left side
    let l = three_way_merge(&base, &changed, &base).unwrap();
    assert_eq!(l, changed);
    // plain values
    assert_eq!(three_way_merge(&num(1), &num(1), &num(7)).unwrap(), num(7));
    assert_eq!(three_way_merge(&num(1), &num(7), &num(1)).unwrap(), num(7));
}

#[test]
fn patch_operations_must_be_an_array() {
    let ops = Value::array(vec![map(&[("op", Value::string("remove")), ("path", Value::string("/a"))])]);
    assert_eq!(dq::merge::patch_operations(&ops).unwrap().len(), 1);
    let err = dq::merge::patch_operations(&num(1)).unwrap_err();
    assert_eq!(err.message(), "type error: expected array, got number");
}

#[test]
fn unflatten_undoes_flatten_with_slash() {
    let original = map(&[
        ("net", map(&[("cidr", Value::string("10.0.0.0/16")), ("zones", Value::array(vec![num(1), num(2)]))])),
        ("name", Value::string("vpc")),
    ]);
    let flat = flatten_keys(&original, "/");
    assert_eq!(flat.keys(), vec!["net/cidr", "net/zones", "name"]);
    let restored = unflatten_keys(&flat, "/");
    assert_eq!(restored, original);
    assert_eq!(restored.keys(), vec!["net", "name"]);
}

#[test]
fn json_merge_patch_bytes_become_base64_text() {
    let result = json_merge_patch(&Value::Null, &Value::bytes(b"hi".to_vec()));
    assert_eq!(result, Value::string("aGk="));
    let result = json_merge_patch(&Value::Null, &Value::bytes(b"abc".to_vec()));
    assert_eq!(result, Value::string("YWJj"));
}

#[test]
fn json_merge_patch_datetime_becomes_text() {
    let result = json_merge_patch(&Value::Null, &Value::datetime("1979-05-27T07:32:00Z"));
    assert_eq!(result, Value::string("1979-05-27T07:32:00Z"));
}

#[test]
fn json_merge_patch_block_target_keeps_header_and_body() {
    let base = Value::block("resource", vec!["web".to_string()], vec![("x".to_string(), num(1))]);
    let patch = map(&[("y", num(2))]);
    let result = json_merge_patch(&base, &patch);
    let expected = map(&[
        ("__block_type", Value::string("resource")),
        ("__labels", Value::array(vec![Value::string("web")])),
        ("x", num(1)),
        ("y", num(2)),
    ]);
    assert_eq!(result, expected);
}

#[test]
fn json_merge_patch_non_finite_float_becomes_null() {
    let nan = f64::NAN;
    let result = json_merge_patch(&Value::Null, &Value::float(nan.to_bits(), "NaN"));
    assert_eq!(result, Value::Null);
    let half = 0.5f64;
    let result = json_merge_patch(&Value::Null, &Value::float(half.to_bits(), "0.5"));
    assert_eq!(result, Value::float(half.to_bits(), "0.5"));
}

#[test]
fn unflatten_undoes_flatten_with_a_longer_separator() {
    let v = map(&[("a", map(&[("b", num(1)), ("c", map(&[("d", num(2))]))])), ("xa", num(3))]);
    let flat = flatten_keys(&v, "->");
    assert_eq!(flat, map(&[("a->b", num(1)), ("a->c->d", num(2)), ("xa", num(3))]));
    assert_eq!(unflatten_keys(&flat, "->"), v);
    let flat = flatten_keys(&v, "ab");
    assert_eq!(unflatten_keys(&flat, "ab"), v);
}

#[test]
fn a_separator_with_a_border_can_lose_the_shape() {
    let v = map(&[("xa", map(&[("b", num(1))]))]);
    let flat = flatten_keys(&v, "aa");
    assert_eq!(flat, map(&[("xaaab", num(1))]));
    assert_eq!(unflatten_keys(&flat, "aa"), map(&[("x", map(&[("ab", num(1))]))]));
}
