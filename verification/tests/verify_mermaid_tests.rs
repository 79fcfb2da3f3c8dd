use dq::verify_mermaid::{
    diagram_appset_chart_edges, diagram_chart_dep_edges, edges_to_preimage_lines, label_head, projection_hash,
    projection_preimage, text_lines, verify, Chart, ChartDep, Diagram, Edge, MermaidDigest, Node, Topology, TopologyEdge,
};

fn diagram(name: &str, nodes: &[(&str, &str)], edges: &[(&str, &str)]) -> Diagram {
    Diagram {
        name: name.to_string(),
        nodes: nodes.iter().map(|(id, label)| Node { id: id.to_string(), label: label.to_string() }).collect(),
        edges: edges.iter().map(|(src, dst)| Edge { src: src.to_string(), dst: dst.to_string() }).collect(),
    }
}

fn pair(a: &str, b: &str) -> (String, String) {
    (a.to_string(), b.to_string())
}

#[test]
fn appset_chart_edges_extract_by_label_head() {
    let d = diagram(
        "deploy-graph",
        &[("appset_alpha", "alpha"), ("chart_x", "x  v1.0"), ("appset_beta", "beta"), ("chart_y", "y  v2.0")],
        &[("appset_alpha", "chart_x"), ("appset_beta", "chart_y")],
    );
    assert_eq!(diagram_appset_chart_edges(&d), vec![pair("alpha", "x"), pair("beta", "y")]);
}

#[test]
fn chart_dep_edges_skip_self_loops() {
    let d = diagram("chart-deps", &[("a", "a  v1"), ("b", "b  v1")], &[("a", "b"), ("a", "a"), ("b", "b")]);
    assert_eq!(diagram_chart_dep_edges(&d), vec![pair("a", "b")]);
}

#[test]
fn label_head_strips_trailing_tokens() {
    assert_eq!(label_head("alloy v1.0.0"), "alloy");
    assert_eq!(label_head("public-gateway-v2"), "public-gateway-v2");
    assert_eq!(label_head(""), "");
}

#[test]
fn label_head_skips_leading_unicode_whitespace() {
    assert_eq!(label_head(" \t\u{3000}web  v1"), "web");
    assert_eq!(label_head("   "), "");
}

#[test]
fn preimage_sort_matches_python_convention() {
    let edges = vec![pair("saas", "saas"), pair("saas-prod", "saas")];
    let lines = edges_to_preimage_lines(&edges);
    assert_eq!(lines, vec!["saas-prod|saas", "saas|saas"]);
}

#[test]
fn projection_hash_matches_known_bytes() {
    let appset_chart = vec![pair("a", "x"), pair("b", "y")];
    let chart_dep = vec![pair("x", "y")];
    let preimage = projection_preimage(&appset_chart, &chart_dep);
    assert_eq!(preimage, "appset-chart-edges:\na|x\nb|y\n\nchart-dep-edges:\nx|y\n");
    let h = projection_hash(&appset_chart, &chart_dep);
    assert!(h.starts_with("sha256:"), "unexpected prefix: {h}");
    assert_eq!(h.len(), "sha256:".len() + 64);
}

#[test]
fn projection_hash_of_empty_sets() {
    // SHA-256 of "appset-chart-edges:\n\nchart-dep-edges:\n".
    let h = projection_hash(&vec![], &vec![]);
    assert_eq!(h.len(), 71);
    assert!(h[7..].chars().all(|c| c.is_ascii_hexdigit() && !c.is_ascii_uppercase()));
    assert_ne!(h, projection_hash(&vec![pair("a", "b")], &vec![]));
}

#[test]
fn text_lines_follows_str_lines() {
    for s in ["", "a", "a\n", "a\r\nb\n\nc", "x\r", "\n\n"] {
        let want: Vec<String> = s.lines().map(|l| l.to_string()).collect();
        assert_eq!(text_lines(s), want, "input {s:?}");
    }
}

fn topology() -> Topology {
    Topology {
        edges: vec![
            TopologyEdge { appset: Some("alpha".to_string()), chart: Some("x".to_string()), edge_type: Some("deploys".to_string()) },
            TopologyEdge { appset: None, chart: None, edge_type: Some("chart_dependency".to_string()) },
        ],
        charts: vec![
            Chart { name: "x".to_string(), dependencies: vec![ChartDep { name: "y".to_string() }, ChartDep { name: "x".to_string() }] },
        ],
    }
}

#[test]
fn verify_agreeing_sides() {
    let digest = MermaidDigest {
        diagrams: vec![
            diagram("deploy-graph", &[("appset_alpha", "alpha"), ("chart_x", "x  v1")], &[("appset_alpha", "chart_x")]),
            diagram("chart-deps", &[("x", "x  v1"), ("y", "y v2<br/><i>external</i>")], &[("x", "y")]),
        ],
    };
    let v = verify(&digest, &topology(), None);
    assert!(!v.mismatch);
    let texts: Vec<&str> = v.messages.iter().map(|m| m.text.as_str()).collect();
    assert_eq!(texts[0], "verify-mermaid: deploy-graph OK — 1 appset→chart edges agree");
    assert_eq!(texts[1], "verify-mermaid: chart-deps OK — 1 dependency edges agree");
    assert!(texts[2].starts_with("verify-mermaid: projection-hash sha256:") && texts[2].ends_with(" (matches)"));
    assert_eq!(v.messages.len(), 3);
}

#[test]
fn verify_reports_missing_edge_and_recorded_drift() {
    let digest = MermaidDigest { diagrams: vec![diagram("deploy-graph", &[], &[])] };
    let v = verify(&digest, &topology(), Some("sha256:0000\n"));
    assert!(v.mismatch);
    let texts: Vec<&str> = v.messages.iter().map(|m| m.text.as_str()).collect();
    assert_eq!(texts[0], "verify-mermaid: deploy-graph MISMATCH");
    assert_eq!(texts[1], "  extra-in-topology: 1 edge(s) only in topology (missing from diagram):");
    assert_eq!(texts[2], "    alpha -> x");
    assert_eq!(texts[3], "verify-mermaid: note — no `chart-deps` diagram in digest");
    assert_eq!(texts[4], "verify-mermaid: projection-hash MISMATCH");
    assert!(texts.contains(&"  on-disk (Python): sha256:0000"));
    assert!(texts.contains(&"  appset-chart-edges:"));
    assert!(texts.contains(&"  x|y"));
    assert!(v.messages.iter().all(|m| m.to_stderr));
}
