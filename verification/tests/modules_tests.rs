use dq::scan::modules::{build_module, module_to_value, modules_to_value};
use dq::terragrunt::config::TerragruntConfig;
use dq::terragrunt::includes::{merge_include_chain, IncludeChain};
use dq::value::Value;

fn block(block_type: &str, labels: &[&str]) -> Value {
    Value::block(block_type, labels.iter().map(|l| l.to_string()).collect(), vec![])
}

fn file(entries: Vec<(&str, Vec<Value>)>) -> Value {
    Value::from_pairs(entries.into_iter().map(|(k, bs)| (k, Value::array(bs))).collect())
}

#[test]
fn module_collects_sorted_distinct_declarations() {
    let a = file(vec![
        ("resource", vec![block("resource", &["aws_s3_bucket", "logs"]), block("resource", &["aws_iam_role", "svc"])]),
        ("variable", vec![block("variable", &["region"]), block("variable", &["name"])]),
        ("output", vec![block("output", &["arn"])]),
    ]);
    let b = file(vec![
        ("resource", vec![block("resource", &["aws_iam_role", "svc"]), block("resource", &["only_type"])]),
        ("variable", vec![block("variable", &["region"])]),
        ("locals", vec![block("locals", &[])]),
    ]);
    let m = build_module("AWS", "eks", "saas/terraform/modules/AWS/eks", &[a, b, Value::string("not a map")]);
    assert_eq!(m.cloud, "AWS");
    assert_eq!(m.name, "eks");
    assert_eq!(
        m.resources,
        vec![("aws_iam_role".to_string(), "svc".to_string()), ("aws_s3_bucket".to_string(), "logs".to_string())]
    );
    assert_eq!(m.variables, vec!["name", "region"]);
    assert_eq!(m.outputs, vec!["arn"]);
}

#[test]
fn module_record_shape() {
    let m = build_module("GCP", "gke", "mods/GCP/gke", &[file(vec![("resource", vec![block("resource", &["google_container_cluster", "main"])])])]);
    let v = module_to_value(&m);
    assert_eq!(v.get("cloud").and_then(|x| x.as_str()), Some("GCP"));
    assert_eq!(v.get("path").and_then(|x| x.as_str()), Some("mods/GCP/gke"));
    let r = v.get("resources").and_then(|x| x.get_index(0)).unwrap();
    assert_eq!(r.get("type").and_then(|x| x.as_str()), Some("google_container_cluster"));
    assert_eq!(r.get("name").and_then(|x| x.as_str()), Some("main"));
    assert_eq!(v.keys(), vec!["cloud", "name", "path", "resources", "variables", "outputs"]);
    assert_eq!(modules_to_value(&[m]).len(), 1);
}

fn config(raw: Value) -> TerragruntConfig {
    TerragruntConfig::from_value("x/terragrunt.hcl".to_string(), raw).unwrap()
}

#[test]
fn include_chain_merges_root_first() {
    let root = config(Value::from_pairs(vec![("inputs", Value::from_pairs(vec![("a", Value::integer(1)), ("b", Value::integer(1))]))]));
    let leaf = config(Value::from_pairs(vec![
        (
            "include",
            Value::array(vec![Value::block(
                "include",
                vec!["root".to_string()],
                vec![("path".to_string(), Value::string("../root.hcl")), ("merge_strategy".to_string(), Value::string("deep"))],
            )]),
        ),
        ("inputs", Value::from_pairs(vec![("b", Value::integer(2))])),
    ]));
    let chain = IncludeChain { configs: vec![leaf, root], paths: vec!["leaf".to_string(), "root".to_string()] };
    let merged = merge_include_chain(&chain);
    let inputs = merged.get("inputs").unwrap();
    assert_eq!(inputs.get("a"), Some(&Value::integer(1)));
    assert_eq!(inputs.get("b"), Some(&Value::integer(2)));
    assert!(merged.get("include").is_some());
}

#[test]
fn empty_include_chain_is_null() {
    let chain = IncludeChain { configs: vec![], paths: vec![] };
    assert_eq!(merge_include_chain(&chain), Value::Null);
}
