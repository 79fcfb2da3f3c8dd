use dq::query::{contains_native, eval_native, is_native, plan_query, split_pipe_chain, QueryPlan};
use dq::value::Value;

fn block(t: &str, labels: &[&str], body: Vec<(&str, Value)>) -> Value {
    Value::block(
        t,
        labels.iter().map(|l| l.to_string()).collect(),
        body.into_iter().map(|(k, v)| (k.to_string(), v)).collect(),
    )
}

#[test]
fn is_native_find_blocks() {
    assert!(is_native("find_blocks(\"resource\")"));
    assert!(!is_native(".name"));
    assert!(!is_native("keys"));
}

#[test]
fn eval_find_blocks() {
    let v = Value::from_pairs(vec![(
        "dep",
        block("dependency", &["vpc"], vec![("config_path", Value::string("../vpc"))]),
    )]);
    let result = eval_native(&v, "find_blocks(\"dependency\")").unwrap();
    assert_eq!(result.len(), 1);
    let arr = result[0].as_array().unwrap();
    assert_eq!(arr.len(), 1);
    assert!(arr[0].is_block());
}

#[test]
fn unknown_native_filter_is_an_error() {
    let v = Value::null();
    match eval_native(&v, "keys") {
        Err(e) => assert_eq!(e.message(), "unknown native filter: keys"),
        Ok(_) => panic!("expected an error"),
    }
}

#[test]
fn native_filters_inside_strings_do_not_count() {
    assert!(contains_native(".a | find_blocks(\"x\")"));
    assert!(!contains_native("\"find_blocks(\""));
    assert!(!contains_native(".name"));
}

#[test]
fn pipe_chains_split_at_top_level_only() {
    assert_eq!(split_pipe_chain("a | b"), vec!["a ".to_string(), " b".to_string()]);
    assert_eq!(split_pipe_chain("map(a | b) | c"), vec!["map(a | b) ".to_string(), " c".to_string()]);
    assert_eq!(split_pipe_chain("\"x|y\""), vec!["\"x|y\"".to_string()]);
}

#[test]
fn plans_follow_the_expression() {
    assert!(matches!(plan_query("  . "), QueryPlan::Identity));
    assert!(matches!(plan_query(""), QueryPlan::Identity));
    match plan_query(" .name ") {
        QueryPlan::Jaq(e) => assert_eq!(e, ".name"),
        _ => panic!("expected a jq plan"),
    }
    match plan_query("find_blocks(\"dependency\") | length") {
        QueryPlan::Pipeline(s) => assert_eq!(s.len(), 2),
        _ => panic!("expected a pipeline"),
    }
}

#[test]
fn pipe_split_joins_back() {
    for s in ["a | b", "map(a | b) | c", "\"x|y\" | z", "a \\| b", "", "|", "[a|b]|{c|d}|e"] {
        let r = split_pipe_chain(s);
        assert!(r.len() >= 1);
        assert_eq!(r.join("|"), s);
    }
    assert_eq!(split_pipe_chain("[a|b]|{c|d}|e").len(), 3);
    assert_eq!(split_pipe_chain("\"x|y\" | z").len(), 2);
}
