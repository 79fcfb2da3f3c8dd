use dq::terragrunt::includes::{render_chain, IncludeChain, IncludeWalk};
use dq::terragrunt::config::{MergeStrategy, TerragruntConfig};
use dq::terragrunt::eval::pathdiff;
use dq::value::Value;

#[test]
fn eval_pathdiff_same_dir() {
    assert_eq!(pathdiff("/a/b/c", "/a/b/c"), ".");
}

#[test]
fn eval_pathdiff_relative() {
    assert_eq!(pathdiff("/a/b/c/d", "/a/b"), "c/d");
    assert_eq!(pathdiff("/a/b", "/a/b/c/d"), "../..");
}

#[test]
fn pathdiff_sibling_directories() {
    assert_eq!(pathdiff("/repo/live/prod/app", "/repo/live/dev"), "../prod/app");
}

// Values in the shape the HCL parser gives: attributes as map entries,
// every block type as a list of blocks.

fn s(v: &str) -> Value {
    Value::string(v)
}

fn map(pairs: &[(&str, Value)]) -> Value {
    Value::from_pairs(pairs.iter().map(|(k, v)| (*k, v.clone())).collect())
}

fn block(block_type: &str, labels: &[&str], body: &[(&str, Value)]) -> Value {
    Value::block(
        block_type,
        labels.iter().map(|l| l.to_string()).collect(),
        body.iter().map(|(k, v)| (k.to_string(), v.clone())).collect(),
    )
}

fn body(blocks: &[(&str, Vec<Value>)], attrs: &[(&str, Value)]) -> Value {
    let mut pairs: Vec<(&str, Value)> = attrs.to_vec();
    for (t, bs) in blocks {
        pairs.push((t, Value::array(bs.clone())));
    }
    Value::from_pairs(pairs)
}

fn config(raw: Value) -> TerragruntConfig {
    TerragruntConfig::from_value("/live/app/terragrunt.hcl".to_string(), raw).unwrap()
}

fn entry<'a, T>(m: &'a [(String, T)], k: &str) -> Option<&'a T> {
    m.iter().find(|(key, _)| key == k).map(|(_, v)| v)
}

#[test]
fn parse_terraform_block() {
    let raw = body(&[("terraform", vec![block("terraform", &[], &[("source", s("tfr:///modules/vpc?version=1.0.0"))])])], &[]);
    let tf = config(raw).terraform.unwrap();
    assert_eq!(tf.source.as_deref(), Some("tfr:///modules/vpc?version=1.0.0"));
}

#[test]
fn parse_remote_state_block() {
    let raw = body(
        &[(
            "remote_state",
            vec![block(
                "remote_state",
                &[],
                &[("backend", s("s3")), ("config", map(&[("bucket", s("my-bucket")), ("region", s("us-east-1"))]))],
            )],
        )],
        &[],
    );
    let rs = config(raw).remote_state.unwrap();
    assert_eq!(rs.backend, "s3");
    assert_eq!(rs.config.get("bucket").and_then(|v| v.as_str()), Some("my-bucket"));
    assert_eq!(rs.config.get("region").and_then(|v| v.as_str()), Some("us-east-1"));
}

#[test]
fn parse_include_block() {
    let raw = body(
        &[(
            "include",
            vec![block(
                "include",
                &["root"],
                &[("path", s("${find_in_parent_folders()}")), ("expose", Value::bool(true)), ("merge_strategy", s("deep"))],
            )],
        )],
        &[],
    );
    let c = config(raw);
    assert_eq!(c.includes.len(), 1);
    let inc = entry(&c.includes, "root").unwrap();
    assert_eq!(inc.label, "root");
    assert!(inc.expose);
    assert_eq!(inc.merge_strategy, MergeStrategy::Deep);
}

#[test]
fn parse_dependency_block() {
    let raw = body(
        &[("dependency", vec![block("dependency", &["vpc"], &[("config_path", s("../vpc")), ("skip_outputs", Value::bool(true))])])],
        &[],
    );
    let c = config(raw);
    assert_eq!(c.dependencies.len(), 1);
    let dep = entry(&c.dependencies, "vpc").unwrap();
    assert_eq!(dep.label, "vpc");
    assert_eq!(dep.config_path, "../vpc");
    assert!(dep.skip_outputs);
    assert!(dep.enabled);
}

#[test]
fn parse_dependencies_block() {
    let raw = body(
        &[("dependencies", vec![block("dependencies", &[], &[("paths", Value::array(vec![s("../vpc"), s("../rds"), s("../iam")]))])])],
        &[],
    );
    let c = config(raw);
    assert_eq!(c.dependency_paths, vec!["../vpc", "../rds", "../iam"]);
}

#[test]
fn parse_generate_block() {
    let raw = body(
        &[(
            "generate",
            vec![block(
                "generate",
                &["backend"],
                &[("path", s("backend.tf")), ("if_exists", s("overwrite")), ("contents", s("terraform { backend \"s3\" {} }"))],
            )],
        )],
        &[],
    );
    let c = config(raw);
    assert_eq!(c.generates.len(), 1);
    let gen = entry(&c.generates, "backend").unwrap();
    assert_eq!(gen.label, "backend");
    assert_eq!(gen.path, "backend.tf");
    assert_eq!(gen.if_exists, "overwrite");
}

#[test]
fn parse_locals_and_inputs() {
    let raw = body(
        &[("locals", vec![block("locals", &[], &[("region", s("us-east-1")), ("env", s("prod"))])])],
        &[("inputs", map(&[("vpc_cidr", s("10.0.0.0/16")), ("enable_nat", Value::bool(true))]))],
    );
    let c = config(raw);
    assert_eq!(c.locals.len(), 2);
    assert_eq!(entry(&c.locals, "region").and_then(|v| v.as_str()), Some("us-east-1"));
    assert_eq!(entry(&c.locals, "env").and_then(|v| v.as_str()), Some("prod"));
    assert_eq!(c.inputs.len(), 2);
    assert_eq!(entry(&c.inputs, "vpc_cidr").and_then(|v| v.as_str()), Some("10.0.0.0/16"));
    assert_eq!(entry(&c.inputs, "enable_nat").and_then(|v| v.as_bool()), Some(true));
}

#[test]
fn parse_hooks() {
    let tf = block(
        "terraform",
        &[],
        &[
            ("source", s(".")),
            (
                "before_hook",
                Value::array(vec![block(
                    "before_hook",
                    &["tflint"],
                    &[("commands", Value::array(vec![s("plan")])), ("execute", Value::array(vec![s("tflint")]))],
                )]),
            ),
            (
                "after_hook",
                Value::array(vec![block(
                    "after_hook",
                    &["cleanup"],
                    &[("commands", Value::array(vec![s("apply")])), ("execute", Value::array(vec![s("rm"), s("-rf"), s(".terraform")]))],
                )]),
            ),
        ],
    );
    let tf = config(body(&[("terraform", vec![tf])], &[])).terraform.unwrap();
    assert_eq!(tf.before_hooks.len(), 1);
    assert_eq!(tf.after_hooks.len(), 1);
    let bh = &tf.before_hooks[0];
    assert!(bh.get("commands").is_some() || bh.get("execute").is_some());
}

#[test]
fn all_dependency_paths_composition() {
    let raw = body(
        &[
            (
                "dependency",
                vec![
                    block("dependency", &["vpc"], &[("config_path", s("../vpc"))]),
                    block("dependency", &["rds"], &[("config_path", s("../rds")), ("enabled", Value::bool(false))]),
                ],
            ),
            ("dependencies", vec![block("dependencies", &[], &[("paths", Value::array(vec![s("../iam")]))])]),
        ],
        &[],
    );
    let all_paths = config(raw).all_dependency_paths();
    assert_eq!(all_paths.len(), 2);
    assert!(all_paths.contains(&"../vpc".to_string()));
    assert!(all_paths.contains(&"../iam".to_string()));
    assert!(!all_paths.contains(&"../rds".to_string()));
}

#[test]
fn repeated_label_replaces_in_place_and_defaults_apply() {
    let raw = body(
        &[
            (
                "include",
                vec![
                    block("include", &["root"], &[("path", s("a.hcl"))]),
                    block("include", &[], &[("path", s("b.hcl")), ("merge_strategy", s("no_merge"))]),
                    block("include", &["root"], &[("path", s("c.hcl"))]),
                ],
            ),
            ("generate", vec![block("generate", &["provider"], &[])]),
        ],
        &[],
    );
    let c = config(raw);
    assert_eq!(c.all_include_paths(), vec!["c.hcl", "b.hcl"]);
    assert_eq!(c.includes[1].0, "default");
    assert_eq!(c.includes[1].1.merge_strategy, MergeStrategy::NoMerge);
    assert_eq!(c.includes[0].1.merge_strategy, MergeStrategy::Shallow);
    assert_eq!(c.generates[0].1.if_exists, "overwrite_terragrunt");
    assert!(c.terraform.is_none());
    assert!(c.remote_state.is_none());
}

#[test]
fn include_walk_enters_each_file_once() {
    let mut walk = IncludeWalk::new();
    assert!(walk.enter("/live/app/terragrunt.hcl").is_ok());
    assert!(walk.enter("/live/root.hcl").is_ok());
    let err = walk.enter("/live/app/terragrunt.hcl").unwrap_err();
    assert_eq!(err.message(), "include cycle detected: /live/app/terragrunt.hcl already visited");
    assert_eq!(walk.visited, vec!["/live/app/terragrunt.hcl", "/live/root.hcl"]);
}

#[test]
fn include_walk_records_chain_and_gives_includes() {
    let raw = body(&[("include", vec![block("include", &["root"], &[("path", s("../root.hcl"))])])], &[("inputs", map(&[]))]);
    let mut walk = IncludeWalk::new();
    walk.enter("/live/app/terragrunt.hcl").unwrap();
    let next = walk.record("/live/app/terragrunt.hcl".to_string(), config(raw));
    assert_eq!(next, vec!["../root.hcl"]);
    assert_eq!(walk.chain.paths, vec!["/live/app/terragrunt.hcl"]);
    assert_eq!(walk.chain.configs.len(), 1);
}

#[test]
fn render_chain_merges_root_under_leaf() {
    let leaf_raw = body(
        &[("include", vec![block("include", &["root"], &[("path", s("../root.hcl"))])])],
        &[("region", s("eu-west-1"))],
    );
    let root_raw = body(&[], &[("region", s("us-east-1")), ("bucket", s("state"))]);
    let chain = IncludeChain {
        configs: vec![config(leaf_raw), TerragruntConfig::from_value("/live/root.hcl".to_string(), root_raw).unwrap()],
        paths: vec!["/live/app/terragrunt.hcl".to_string(), "/live/root.hcl".to_string()],
    };
    let r = render_chain("/live/app/terragrunt.hcl", &chain);
    assert_eq!(r.get("_source").unwrap().as_str(), Some("/live/app/terragrunt.hcl"));
    let paths = r.get("_include_chain").unwrap().as_array().unwrap();
    assert_eq!(paths.len(), 2);
    assert_eq!(paths[1].as_str(), Some("/live/root.hcl"));
    assert_eq!(r.get("region").unwrap().as_str(), Some("eu-west-1"));
    assert_eq!(r.get("bucket").unwrap().as_str(), Some("state"));
    let keys = r.keys();
    assert_eq!(&keys[..2], &["_source", "_include_chain"]);
}
