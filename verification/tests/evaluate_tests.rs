use dq::terragrunt::evaluate::evaluate_expressions;
use dq::value::Value;
use std::cell::RefCell;

fn map(pairs: &[(&str, Value)]) -> Value {
    Value::from_pairs(pairs.iter().map(|(k, v)| (*k, v.clone())).collect())
}

fn call(name: &str, args: Vec<Value>) -> Value {
    map(&[("__expr", Value::string("func_call")), ("name", Value::string(name)), ("args", Value::array(args))])
}

/// Evaluates `v` with an evaluator that records each assignment it is
/// given and answers from `answers`.
fn run(v: &Value, answers: &[(&str, Value)]) -> (Value, Vec<String>) {
    let seen = RefCell::new(Vec::new());
    let r = evaluate_expressions(v, &|text: &str| {
        seen.borrow_mut().push(text.to_string());
        answers.iter().find(|(t, _)| *t == text).map(|(_, x)| x.clone())
    });
    (r, seen.into_inner())
}

#[test]
fn eval_non_expression_passthrough() {
    let plain = Value::string("hello");
    assert_eq!(run(&plain, &[]).0, Value::string("hello"));

    let m = map(&[("key", Value::string("value")), ("num", Value::integer(42))]);
    let (r, seen) = run(&m, &[]);
    assert_eq!(r, m);
    assert!(seen.is_empty());
}

#[test]
fn call_without_arguments_is_written_as_call() {
    let expr = call("get_terragrunt_dir", vec![]);
    let (r, seen) = run(&expr, &[("_v = get_terragrunt_dir()", Value::string("/tmp/infra/modules/vpc"))]);
    assert_eq!(seen, vec!["_v = get_terragrunt_dir()"]);
    assert_eq!(r.as_str(), Some("/tmp/infra/modules/vpc"));
}

#[test]
fn call_arguments_are_written_by_kind() {
    let expr = call(
        "f",
        vec![
            Value::string("common.hcl"),
            Value::integer(-3),
            Value::float(1.5f64.to_bits(), "1.5"),
            Value::bool(true),
            Value::null(),
            Value::array(vec![]),
        ],
    );
    let (_, seen) = run(&expr, &[]);
    assert_eq!(seen, vec!["_v = f(\"common.hcl\", -3, 1.5, true, null, null)"]);
}

#[test]
fn call_arguments_are_evaluated_first() {
    let inner = call("get_parent_terragrunt_dir", vec![]);
    let expr = call("find_in_parent_folders", vec![inner]);
    let (r, seen) = run(
        &expr,
        &[
            ("_v = get_parent_terragrunt_dir()", Value::string("/tmp/infra")),
            ("_v = find_in_parent_folders(\"/tmp/infra\")", Value::string("/tmp/infra/terragrunt.hcl")),
        ],
    );
    assert_eq!(seen, vec!["_v = get_parent_terragrunt_dir()", "_v = find_in_parent_folders(\"/tmp/infra\")"]);
    assert_eq!(r.as_str(), Some("/tmp/infra/terragrunt.hcl"));
}

#[test]
fn unevaluated_expression_stays() {
    let expr = call("unknown_fn", vec![]);
    let (r, seen) = run(&expr, &[]);
    assert_eq!(seen.len(), 1);
    assert_eq!(r, expr);
}

#[test]
fn template_variable_and_traversal_texts() {
    let template = map(&[("__expr", Value::string("template")), ("template", Value::string("${local.env}-app"))]);
    let variable = map(&[("__expr", Value::string("variable")), ("name", Value::string("foo"))]);
    let traversal = map(&[
        ("__expr", Value::string("traversal")),
        ("root", map(&[("name", Value::string("local"))])),
        (
            "operators",
            Value::array(vec![
                map(&[("type", Value::string("get_attr")), ("name", Value::string("config"))]),
                map(&[("type", Value::string("get_attr")), ("name", Value::string("region"))]),
            ]),
        ),
    ]);
    let doc = map(&[("a", template), ("b", variable), ("c", Value::array(vec![traversal]))]);
    let (r, seen) = run(&doc, &[("_v = local.config.region", Value::string("eu-west-1"))]);
    assert_eq!(seen, vec!["_v = \"${local.env}-app\"", "_v = foo", "_v = local.config.region"]);
    assert_eq!(r.get("c").unwrap().get_index(0).unwrap().as_str(), Some("eu-west-1"));
    assert_eq!(r.get("b").unwrap().get("name").unwrap().as_str(), Some("foo"));
}

#[test]
fn traversal_with_index_is_not_written() {
    let traversal = map(&[
        ("__expr", Value::string("traversal")),
        ("root", map(&[("name", Value::string("local"))])),
        ("operators", Value::array(vec![map(&[("type", Value::string("index"))])])),
    ]);
    let (r, seen) = run(&traversal, &[]);
    assert!(seen.is_empty());
    assert_eq!(r, traversal);
}

#[test]
fn unknown_expression_kind_is_not_written() {
    let expr = map(&[("__expr", Value::string("conditional"))]);
    let (r, seen) = run(&expr, &[]);
    assert!(seen.is_empty());
    assert_eq!(r, expr);
}

#[test]
fn blocks_keep_type_and_labels() {
    let expr = call("get_terragrunt_dir", vec![]);
    let block = Value::block("dependency", vec!["vpc".to_string()], vec![("config_path".to_string(), expr)]);
    let (r, _) = run(&block, &[("_v = get_terragrunt_dir()", Value::string("/x"))]);
    let b = r.as_block().unwrap();
    assert_eq!(b.block_type, "dependency");
    assert_eq!(b.labels, vec!["vpc".to_string()]);
    assert_eq!(r.get("config_path").unwrap().as_str(), Some("/x"));
}
