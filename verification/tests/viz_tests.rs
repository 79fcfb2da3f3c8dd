use dq::scan::argocd::{AppSetInfo, GeneratorType};
use dq::scan::environments::{ConfigPath, Taxonomy};
use dq::scan::helm::{ChartDependency, ChartInfo, ChartType};
use dq::scan::topology::{Edge, Topology};
use dq::viz::groups::sanitize_id;
use dq::viz::{chart_deps, deploy_graph, index, matrix, mermaid};

fn empty_taxonomy() -> Taxonomy {
    Taxonomy { tenants: vec![], environments: vec![], cloud_providers: vec![], regions: vec![] }
}

fn empty_topology() -> Topology {
    Topology { appsets: vec![], charts: vec![], config_paths: vec![], edges: vec![], taxonomy: empty_taxonomy() }
}

fn web_appset(value_files: Vec<String>) -> AppSetInfo {
    AppSetInfo {
        name: "web-v2".to_string(),
        generator_type: GeneratorType::Cluster,
        cluster_selectors: vec![],
        chart_path: Some("charts/web".to_string()),
        value_files,
        helm_parameters: vec![],
        excluded_tenants: vec![],
        git_file_paths: vec![],
        source_file: "web.yaml".to_string(),
    }
}

fn web_chart() -> ChartInfo {
    ChartInfo {
        name: "web".to_string(),
        version: "1.0.0".to_string(),
        description: "Web app".to_string(),
        chart_type: ChartType::Application,
        dependencies: vec![],
        chart_dir: "charts/web".to_string(),
    }
}

#[test]
fn deploy_graph_render_empty() {
    let html = deploy_graph::render(&empty_topology()).unwrap();
    assert!(html.contains("No deployment data available"));
}

#[test]
fn render_with_deployment() {
    let topo = Topology {
        appsets: vec![web_appset(vec!["some/path.yaml".to_string()])],
        charts: vec![web_chart()],
        config_paths: vec![],
        edges: vec![
            Edge::AppSetToChart { appset: "web-v2".to_string(), chart: "web".to_string() },
            Edge::AppSetToValueFile { appset: "web-v2".to_string(), path: "some/path.yaml".to_string() },
        ],
        taxonomy: empty_taxonomy(),
    };
    let html = deploy_graph::render(&topo).unwrap();
    assert!(html.contains("web-v2"));
    assert!(html.contains("v1.0.0"));
    assert!(html.contains("1 vf"));
    assert!(html.contains("1 charts deployed by 1 appsets"));
}

#[test]
fn render_all_pages() {
    let generated = vec!["matrix.html".to_string(), "deploy-graph.html".to_string(), "chart-deps.html".to_string()];
    let html = index::render(&generated);
    assert!(html.contains("dq viz"));
    assert!(html.contains("matrix.html"));
    assert!(html.contains("deploy-graph.html"));
    assert!(html.contains("chart-deps.html"));
    assert!(html.contains("3 visualizations generated"));
}

#[test]
fn render_partial() {
    let generated = vec!["matrix.html".to_string()];
    let html = index::render(&generated);
    assert!(html.contains("matrix.html"));
    assert!(!html.contains("deploy-graph.html"));
}

#[test]
fn deploy_graph_empty() {
    let md = mermaid::deploy_graph(&empty_topology());
    assert!(md.contains("No deployment data available"));
}

#[test]
fn deploy_graph_with_deployment() {
    let topo = Topology {
        appsets: vec![web_appset(vec![])],
        charts: vec![web_chart()],
        edges: vec![Edge::AppSetToChart { appset: "web-v2".to_string(), chart: "web".to_string() }],
        ..empty_topology()
    };
    let md = mermaid::deploy_graph(&topo);
    assert!(md.contains("```mermaid"));
    assert!(md.contains("web-v2"));
    assert!(md.contains("web"));
    assert!(md.contains("cluster"));
    assert!(md.contains("fill:#1f6feb"));
}

#[test]
fn sanitize_id_replaces_special_chars() {
    assert_eq!(sanitize_id("my-chart"), "my_chart");
    assert_eq!(sanitize_id("a.b/c"), "a_b_c");
    assert_eq!(sanitize_id("simple"), "simple");
}

fn monitoring_topology() -> Topology {
    let charts = vec![
        ChartInfo {
            name: "monitoring".to_string(),
            version: "1.0.0".to_string(),
            description: "Monitoring stack".to_string(),
            chart_type: ChartType::Application,
            dependencies: vec![ChartDependency {
                name: "prometheus".to_string(),
                version: "25.0.0".to_string(),
                repository: "https://prometheus-community.github.io/helm-charts".to_string(),
            }],
            chart_dir: "charts/monitoring".to_string(),
        },
        ChartInfo {
            name: "web".to_string(),
            version: "0.1.0".to_string(),
            description: "Web app".to_string(),
            chart_type: ChartType::Application,
            dependencies: vec![],
            chart_dir: "charts/web".to_string(),
        },
    ];
    let edges = vec![Edge::ChartDependency { parent: "monitoring".to_string(), child: "prometheus".to_string() }];
    Topology { charts, edges, ..empty_topology() }
}

#[test]
fn chart_deps_render_empty() {
    let html = chart_deps::render(&empty_topology()).unwrap();
    assert!(html.contains("No chart data available"));
}

#[test]
fn render_with_deps() {
    let html = chart_deps::render(&monitoring_topology()).unwrap();
    assert!(html.contains("monitoring"));
    assert!(html.contains("prometheus"));
    assert!(html.contains("external"));
    assert!(html.contains("Standalone charts"));
    assert!(html.contains("web"));
}

#[test]
fn chart_deps_render_tree_lines() {
    let html = chart_deps::render(&monitoring_topology()).unwrap();
    assert!(html.contains("<div class=\"tree-node depth-0\"><span class=\"connector\">&#x25BC;</span><span class=\"chart-name\">monitoring</span> <span class=\"version\">v1.0.0</span> <span class=\"chart-type\">application</span> <span class=\"desc\">Monitoring stack</span></div>\n"));
    assert!(html.contains("<div class=\"tree-node depth-1\"><span class=\"connector\">&#x251C;&#x2500;</span><span class=\"chart-name external\">prometheus</span> <span class=\"version\">v25.0.0</span> <span class=\"repo\">https://prometheus-community.github.io/helm-charts</span> <span class=\"external-tag\">external</span></div>\n"));
    assert!(html.contains("<p class=\"stats\">2 charts total, 1 with dependencies (1 dependency edges), 1 standalone</p>"));
}

#[test]
fn chart_deps_render_cycle_terminates() {
    let mut topo = monitoring_topology();
    topo.edges.push(Edge::ChartDependency { parent: "prometheus".to_string(), child: "monitoring".to_string() });
    let html = chart_deps::render(&topo).unwrap();
    assert!(html.contains("2 with dependencies (2 dependency edges)"));
}

#[test]
fn chart_deps_empty() {
    let md = mermaid::chart_deps(&empty_topology());
    assert!(md.contains("No chart data available"));
}

#[test]
fn chart_deps_with_dependencies() {
    let md = mermaid::chart_deps(&monitoring_topology());
    assert!(md.contains("```mermaid"));
    assert!(md.contains("monitoring"));
    assert!(md.contains("prometheus"));
    assert!(md.contains("external"));
    assert!(md.contains("Standalone Charts"));
    assert!(md.contains("web"));
}

#[test]
fn chart_deps_mermaid_exact() {
    let md = mermaid::chart_deps(&monitoring_topology());
    let expected = "# Chart Dependencies\n\n```mermaid\ngraph TD\n    subgraph \"Charts with dependencies\"\n        monitoring[\"monitoring  v1.0.0\"]\n        prometheus[\"prometheus v25.0.0<br/><i>external</i>\"]\n    end\n    monitoring --> prometheus\n```\n\n## Standalone Charts (no dependencies)\n\n- **web** v0.1.0 -- Web app\n\n2 charts total, 1 with dependencies (1 dependency edges), 1 standalone\n";
    assert_eq!(md, expected);
}

#[test]
fn chart_deps_mermaid_cycle_visits_once() {
    let mut topo = monitoring_topology();
    topo.edges.push(Edge::ChartDependency { parent: "prometheus".to_string(), child: "monitoring".to_string() });
    let md = mermaid::chart_deps(&topo);
    assert_eq!(md.matches("monitoring[\"").count(), 1);
    assert!(md.contains("    monitoring --> prometheus\n"));
    assert!(md.contains("    prometheus --> monitoring\n"));
}

#[test]
fn chart_deps_mermaid_truncates_large_graphs() {
    let mut topo = monitoring_topology();
    for i in 0..100 {
        topo.edges.push(Edge::ChartDependency { parent: "hub".to_string(), child: format!("leaf-{i}") });
    }
    let md = mermaid::chart_deps(&topo);
    assert!(md.contains("> **Note:** Showing first 80 nodes out of 104 total to avoid rendering limits."));
    assert!(md.contains("leaf_78"));
    assert!(!md.contains("leaf_79["));
}

fn matrix_paths() -> Vec<ConfigPath> {
    let path = |tenant: &str, env: &str| ConfigPath {
        tenant: tenant.to_string(),
        environment: env.to_string(),
        cloud_provider: "AWS".to_string(),
        region: Some("us-east-1".to_string()),
        file_type: "helm_values".to_string(),
        path: format!("/repo/environments/{tenant}/{env}/AWS/helm_values_files/us-east-1/values.yaml"),
    };
    vec![path("acme", "production"), path("acme", "staging")]
}

fn matrix_taxonomy() -> Taxonomy {
    Taxonomy {
        tenants: vec!["acme".to_string()],
        environments: vec!["production".to_string(), "staging".to_string()],
        cloud_providers: vec!["AWS".to_string()],
        regions: vec![("AWS".to_string(), vec!["us-east-1".to_string()])],
    }
}

#[test]
fn render_empty_topology() {
    let html = matrix::render(&empty_topology()).unwrap();
    assert!(html.contains("No environment data available"));
}

#[test]
fn render_single_cell() {
    let mut paths = matrix_paths();
    paths.truncate(1);
    let topo = Topology {
        config_paths: paths,
        taxonomy: Taxonomy { environments: vec!["production".to_string()], ..matrix_taxonomy() },
        ..empty_topology()
    };
    let html = matrix::render(&topo).unwrap();
    assert!(html.contains("acme"));
    assert!(html.contains("AWS"));
    assert!(html.contains("production"));
    assert!(html.contains("1 tenants"));
}

#[test]
fn matrix_render_cell_and_totals() {
    let topo = Topology { config_paths: matrix_paths(), taxonomy: matrix_taxonomy(), ..empty_topology() };
    let html = matrix::render(&topo).unwrap();
    assert!(html.contains("<td class=\"count-cell\" style=\"background: #0e4429; color: #7ee787;\" title=\"acme / production / AWS: 1 files\">1</td>\n"));
    assert!(html.contains("<th colspan=\"2\" class=\"cloud-header\">AWS</th>"));
    assert!(html.contains("<td class=\"count-cell\" style=\"background: #0e4429; color: #7ee787;\"><strong>1</strong></td>"));
    assert!(html.contains("1 tenants, 2 environments, 1 cloud providers, 2 config files"));
}

#[test]
fn matrix_empty() {
    let md = mermaid::matrix(&empty_topology());
    assert!(md.contains("No environment data available"));
}

#[test]
fn matrix_with_data() {
    let topo = Topology { config_paths: matrix_paths(), taxonomy: matrix_taxonomy(), ..empty_topology() };
    let md = mermaid::matrix(&topo);
    assert!(md.contains("| Tenant |"));
    assert!(md.contains("acme"));
    assert!(md.contains("**1**"));
    assert!(md.contains("| **Total** |"));
}

#[test]
fn matrix_markdown_exact() {
    let topo = Topology { config_paths: matrix_paths(), taxonomy: matrix_taxonomy(), ..empty_topology() };
    let md = mermaid::matrix(&topo);
    let expected = "# Tenant-Environment Matrix\n\n| Tenant | production | staging |\n|--------|-----|-----|\n| acme | **1** | 1 |\n| **Total** | **1** | 1 |\n\n1 tenants, 2 environments, 2 config files\n";
    assert_eq!(md, expected);
}
