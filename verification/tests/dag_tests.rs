use dq::terragrunt::config::TerragruntConfig;
use dq::terragrunt::dag::{DependencyGraph, ModuleNode};
use dq::value::Value;
use std::path::{Component, Path, PathBuf};

// Modules are given as the tree below a root would give them: each with
// its directory, its configuration in the shape the HCL parser gives,
// and the directories its dependency blocks resolve to.

fn block(block_type: &str, labels: &[&str], body: &[(&str, Value)]) -> Value {
    Value::block(
        block_type,
        labels.iter().map(|l| l.to_string()).collect(),
        body.iter().map(|(k, v)| (k.to_string(), v.clone())).collect(),
    )
}

/// A configuration with `terraform { source = "." }` and a dependency
/// block per `(label, config_path)`.
fn config_with(dir: &str, source: &str, deps: &[(&str, &str)]) -> TerragruntConfig {
    let mut pairs: Vec<(&str, Value)> = vec![(
        "terraform",
        Value::array(vec![block("terraform", &[], &[("source", Value::string(source))])]),
    )];
    let dep_blocks: Vec<Value> = deps
        .iter()
        .map(|(label, path)| block("dependency", &[label], &[("config_path", Value::string(path))]))
        .collect();
    if !dep_blocks.is_empty() {
        pairs.push(("dependency", Value::array(dep_blocks)));
    }
    TerragruntConfig::from_value(format!("{dir}/terragrunt.hcl"), Value::from_pairs(pairs)).unwrap()
}

fn normalize(p: &Path) -> PathBuf {
    let mut out = PathBuf::new();
    for c in p.components() {
        match c {
            Component::ParentDir => {
                out.pop();
            }
            Component::CurDir => {}
            other => out.push(other.as_os_str()),
        }
    }
    out
}

/// Builds the graph of modules below `root`, each given by its relative
/// directory and the dependency blocks of its configuration.
fn graph_of(root: &str, modules: &[(&str, &[(&str, &str)])]) -> DependencyGraph {
    let mut nodes = Vec::new();
    let mut resolved = Vec::new();
    for (rel, deps) in modules {
        let dir = if rel.is_empty() { root.to_string() } else { format!("{root}/{rel}") };
        let config = config_with(&dir, ".", deps);
        let dirs: Vec<String> = config
            .all_dependency_paths()
            .iter()
            .map(|d| normalize(&Path::new(&dir).join(d)).to_string_lossy().into_owned())
            .filter(|d| modules.iter().any(|(r, _)| format!("{root}/{r}") == *d))
            .collect();
        nodes.push(ModuleNode::new(dir, rel.to_string(), Some(config)));
        resolved.push(dirs);
    }
    DependencyGraph::build(root.to_string(), nodes, resolved)
}

fn labels(nodes: &[&ModuleNode]) -> Vec<String> {
    nodes.iter().map(|n| n.relative_path.clone()).collect()
}

#[test]
fn empty_directory() {
    let graph = graph_of("/tmp/root", &[]);
    assert_eq!(graph.module_count(), 0);
    assert_eq!(graph.edge_count(), 0);
}

#[test]
fn single_module() {
    let dir = "/tmp/root".to_string();
    let config = config_with(&dir, "tfr:///modules/vpc?version=1.0", &[]);
    let node = ModuleNode::new(dir, String::new(), Some(config));
    let graph = DependencyGraph::build("/tmp/root".to_string(), vec![node], vec![vec![]]);
    assert_eq!(graph.module_count(), 1);
    assert_eq!(graph.edge_count(), 0);
}

#[test]
fn linear_dependency_chain() {
    // A depends on B, B depends on C
    let graph = graph_of("/tmp/root", &[("c", &[]), ("b", &[("c", "../c")]), ("a", &[("b", "../b")])]);
    assert_eq!(graph.module_count(), 3);
    assert_eq!(graph.edge_count(), 2);
}

#[test]
fn diamond_dependencies() {
    let graph = graph_of(
        "/tmp/root",
        &[
            ("bottom", &[]),
            ("left", &[("bottom", "../bottom")]),
            ("right", &[("bottom", "../bottom")]),
            ("top", &[("left", "../left"), ("right", "../right")]),
        ],
    );
    assert_eq!(graph.module_count(), 4);
    assert_eq!(graph.edge_count(), 4);
}

#[test]
fn topo_sort_ordering() {
    let graph = graph_of("/tmp/root", &[("b", &[]), ("a", &[("b", "../b")])]);
    let sorted = graph.topo_sort().unwrap();
    let a_pos = sorted.iter().position(|p| p == "/tmp/root/a").unwrap();
    let b_pos = sorted.iter().position(|p| p == "/tmp/root/b").unwrap();
    // A depends on B, and the edge runs from A to B, so A comes first.
    assert!(a_pos < b_pos, "A (depends on B) should come before B in topo sort");
}

#[test]
fn dot_output_format() {
    let graph = graph_of("/tmp/root", &[("b", &[]), ("a", &[("b", "../b")])]);
    let dot = graph.to_dot();
    assert!(dot.starts_with("digraph {"));
    assert!(dot.ends_with("}\n"));
    assert!(dot.contains("->"));
    assert!(dot.contains("[label="));
}

#[test]
fn value_export_structure() {
    let graph = graph_of("/tmp/root", &[("", &[])]);
    let value = graph.to_value();
    assert!(value.get("root").is_some());
    assert_eq!(value.get("module_count").and_then(|v| v.as_i64()), Some(1));
    assert_eq!(value.get("edge_count").and_then(|v| v.as_i64()), Some(0));
    let modules = value.get("modules").and_then(|v| v.as_array()).unwrap();
    assert_eq!(modules.len(), 1);
    let module = &modules[0];
    assert!(module.get("path").is_some());
    assert!(module.get("dependencies").is_some());
    assert!(module.get("dependents").is_some());
}

#[test]
fn dot_lists_nodes_then_edges() {
    let graph = graph_of("/tmp/root", &[("b", &[]), ("a", &[("b", "../b")])]);
    assert_eq!(
        graph.to_dot(),
        "digraph {\n    \"b\" [label=\"b\"];\n    \"a\" [label=\"a\"];\n    \"a\" -> \"b\";\n}\n"
    );
}

#[test]
fn root_module_is_shown_as_dot() {
    let graph = graph_of("/tmp/root", &[("", &[])]);
    assert_eq!(graph.nodes[0].relative_path, ".");
    assert_eq!(graph.nodes[0].label(), ".");
    assert_eq!(graph.to_value().get("modules").unwrap().get_index(0).unwrap().get("path").unwrap().as_str(), Some("."));
}

#[test]
fn module_source_comes_from_terraform_block() {
    let dir = "/tmp/root/vpc".to_string();
    let config = config_with(&dir, "tfr:///modules/vpc?version=1.0", &[]);
    let node = ModuleNode::new(dir.clone(), "vpc".to_string(), Some(config));
    assert_eq!(node.source.as_deref(), Some("tfr:///modules/vpc?version=1.0"));
    let bare = ModuleNode::new(dir, "vpc".to_string(), None);
    assert_eq!(bare.source, None);
}

#[test]
fn direct_dependencies_newest_first() {
    let graph = graph_of(
        "/tmp/root",
        &[
            ("bottom", &[]),
            ("left", &[("bottom", "../bottom")]),
            ("right", &[("bottom", "../bottom")]),
            ("top", &[("left", "../left"), ("right", "../right")]),
        ],
    );
    assert_eq!(labels(&graph.dependencies_of("/tmp/root/top")), vec!["right", "left"]);
    assert_eq!(labels(&graph.dependents_of("/tmp/root/bottom")), vec!["right", "left"]);
    assert!(graph.dependencies_of("/tmp/root/bottom").is_empty());
    assert!(graph.dependencies_of("/tmp/elsewhere").is_empty());
    assert!(graph.dependents_of("/tmp/elsewhere").is_empty());
}

#[test]
fn transitive_dependencies_each_once() {
    let graph = graph_of(
        "/tmp/root",
        &[
            ("bottom", &[]),
            ("left", &[("bottom", "../bottom")]),
            ("right", &[("bottom", "../bottom")]),
            ("top", &[("left", "../left"), ("right", "../right")]),
        ],
    );
    let mut all = labels(&graph.transitive_dependencies_of("/tmp/root/top"));
    all.sort();
    assert_eq!(all, vec!["bottom", "left", "right"]);
    assert!(graph.transitive_dependencies_of("/tmp/root/bottom").is_empty());
    assert!(graph.transitive_dependencies_of("/tmp/nowhere").is_empty());
}

#[test]
fn transitive_dependencies_include_self_on_cycle() {
    let graph = graph_of("/tmp/root", &[("a", &[("b", "../b")]), ("b", &[("a", "../a")])]);
    let mut all = labels(&graph.transitive_dependencies_of("/tmp/root/a"));
    all.sort();
    assert_eq!(all, vec!["a", "b"]);
}

#[test]
fn cycle_fails_topo_sort() {
    let graph = graph_of("/tmp/root", &[("a", &[("b", "../b")]), ("b", &[("a", "../a")])]);
    let err = graph.topo_sort().unwrap_err();
    let msg = err.message();
    assert!(
        msg == "dependency cycle detected at: a" || msg == "dependency cycle detected at: b",
        "unexpected message: {msg}"
    );
}

#[test]
fn self_dependency_fails_topo_sort() {
    let graph = graph_of("/tmp/root", &[("a", &[("a", "../a")])]);
    assert_eq!(graph.edge_count(), 1);
    assert_eq!(graph.topo_sort().unwrap_err().message(), "dependency cycle detected at: a");
}

#[test]
fn topo_sort_chain_order() {
    let graph = graph_of("/tmp/root", &[("c", &[]), ("b", &[("c", "../c")]), ("a", &[("b", "../b")])]);
    assert_eq!(graph.topo_sort().unwrap(), vec!["/tmp/root/a", "/tmp/root/b", "/tmp/root/c"]);
}

#[test]
fn unknown_dependency_directory_adds_no_edge() {
    let dir = "/tmp/root/a".to_string();
    let node = ModuleNode::new(dir, "a".to_string(), None);
    let graph = DependencyGraph::build(
        "/tmp/root".to_string(),
        vec![node],
        vec![vec!["/tmp/root/missing".to_string()]],
    );
    assert_eq!(graph.edge_count(), 0);
}

#[test]
fn value_lists_dependencies_and_dependents() {
    let graph = graph_of("/tmp/root", &[("b", &[]), ("a", &[("b", "../b")])]);
    let value = graph.to_value();
    assert_eq!(value.get("root").unwrap().as_str(), Some("/tmp/root"));
    assert_eq!(value.get("edge_count").and_then(|v| v.as_i64()), Some(1));
    let modules = value.get("modules").and_then(|v| v.as_array()).unwrap();
    let b = &modules[0];
    assert_eq!(b.get("path").unwrap().as_str(), Some("b"));
    assert_eq!(b.get("source").unwrap().as_str(), Some("."));
    assert_eq!(b.get("dependencies").unwrap().len(), 0);
    assert_eq!(b.get("dependents").unwrap().get_index(0).unwrap().as_str(), Some("a"));
    let a = &modules[1];
    assert_eq!(a.get("dependencies").unwrap().get_index(0).unwrap().as_str(), Some("b"));
    assert_eq!(a.get("dependents").unwrap().len(), 0);
}

#[test]
fn listing_counts_edges() {
    let graph = graph_of("/tmp/root", &[("b", &[]), ("a", &[("b", "../b")])]);
    let records = graph.list_records();
    let rows = records.as_array().unwrap();
    assert_eq!(rows.len(), 2);
    assert_eq!(rows[0].get("path").unwrap().as_str(), Some("b"));
    assert_eq!(rows[0].get("has_source").unwrap().as_bool(), Some(true));
    assert_eq!(rows[0].get("dependency_count").unwrap().as_i64(), Some(0));
    assert_eq!(rows[0].get("dependent_count").unwrap().as_i64(), Some(1));
    assert_eq!(rows[1].get("dependency_count").unwrap().as_i64(), Some(1));
    assert_eq!(rows[1].get("dependent_count").unwrap().as_i64(), Some(0));
}
