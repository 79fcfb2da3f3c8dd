use std::collections::BTreeMap;

use dq::scan::argocd::{parse_appset, AppSetInfo, GeneratorType, HelmParameter, MatchExpression};
use dq::scan::config::ScanConfig;
use dq::scan::discovery::{classify_file, discover_files, FileCategory, FileSystem};
use dq::scan::environments::{build_taxonomy, classify_env_file, walk_environments, ConfigPath, Taxonomy};
use dq::scan::helm::{parse_chart, ChartDependency, ChartInfo, ChartType};
use dq::scan::report::{dot_escape, shorten_value_path, to_dot, to_summary, to_value};
use dq::scan::topology::{build_topology_with_fs, chart_path_matches, Edge, Topology};
use dq::value::Value;
use dq::scan::discovery::sort_paths;
use dq::text::{components, strip_components};

fn from_json(v: serde_json::Value) -> Value {
    match v {
        serde_json::Value::Null => Value::Null,
        serde_json::Value::Bool(b) => Value::bool(b),
        serde_json::Value::Number(n) => {
            if let Some(i) = n.as_i64() {
                Value::integer(i)
            } else if let Some(f) = n.as_f64() {
                Value::float(f.to_bits(), &format!("{f}"))
            } else {
                Value::string(&n.to_string())
            }
        }
        serde_json::Value::String(s) => Value::string(&s),
        serde_json::Value::Array(a) => Value::array(a.into_iter().map(from_json).collect()),
        serde_json::Value::Object(m) => Value::map(m.into_iter().map(|(k, v)| (k, from_json(v))).collect()),
    }
}

fn parse_yaml(input: &str) -> Value {
    from_json(serde_saphyr::from_str::<serde_json::Value>(input).expect("YAML parse failed"))
}

fn yaml_parser(b: &[u8]) -> Result<Value, String> {
    let s = std::str::from_utf8(b).map_err(|e| e.to_string())?;
    serde_saphyr::from_str::<serde_json::Value>(s).map(from_json).map_err(|e| e.to_string())
}

struct MemoryFs {
    files: BTreeMap<String, Vec<u8>>,
}

impl MemoryFs {
    fn new() -> Self {
        MemoryFs { files: BTreeMap::new() }
    }

    fn add_file(&mut self, path: &str, content: &[u8]) {
        self.files.insert(path.to_string(), content.to_vec());
    }
}

impl FileSystem for MemoryFs {
    fn walk_files(&self, root: &str) -> std::io::Result<Vec<String>> {
        Ok(self.files.keys().filter(|p| p.starts_with(root)).cloned().collect())
    }

    fn read_file(&self, path: &str) -> std::io::Result<Vec<u8>> {
        self.files
            .get(path)
            .cloned()
            .ok_or_else(|| std::io::Error::new(std::io::ErrorKind::NotFound, "not found"))
    }
}

fn s(x: &str) -> String {
    x.to_string()
}

// ── config ─────────────────────────────────────────────────────────

#[test]
fn default_config_has_sensible_values() {
    let config = ScanConfig::default();
    assert_eq!(config.environments_dir, "environments");
    assert_eq!(config.chart_filename, "Chart.yaml");
    assert!(config.extensions.contains(&"yaml".to_string()));
    assert!(config.appset_dir_markers.contains(&"cluster-generator".to_string()));
}

#[test]
fn classify_env_dir_maps_known() {
    let config = ScanConfig::default();
    assert_eq!(config.classify_env_dir("helm_values_files"), "helm_values");
    assert_eq!(config.classify_env_dir("argocd"), "argocd_config");
    assert_eq!(config.classify_env_dir("unknown_dir"), "other");
}

#[test]
fn extension_set_generation() {
    let config = ScanConfig { extensions: vec![s("yaml"), s("json"), s("hcl")], ..Default::default() };
    let set = config.extension_set();
    assert_eq!(set.len(), 3);
    assert!(set.iter().any(|e| e == "yaml"));
    assert!(set.iter().any(|e| e == "hcl"));
}

#[test]
fn appset_marker_set_generation() {
    let config = ScanConfig { appset_dir_markers: vec![s("custom-appsets")], ..Default::default() };
    let set = config.appset_marker_set();
    assert_eq!(set.len(), 1);
    assert!(set.iter().any(|m| m == "custom-appsets"));
}

#[test]
fn custom_env_dir_type_map() {
    let map = vec![(s("secrets"), s("vault_secrets")), (s("configs"), s("service_config"))];
    let config = ScanConfig { env_dir_type_map: map, ..Default::default() };
    assert_eq!(config.classify_env_dir("secrets"), "vault_secrets");
    assert_eq!(config.classify_env_dir("configs"), "service_config");
    assert_eq!(config.classify_env_dir("other"), "other");
}

#[test]
fn extension_set_drops_repeats() {
    let config = ScanConfig { extensions: vec![s("yaml"), s("yaml"), s("json")], ..Default::default() };
    assert_eq!(config.extension_set(), vec![s("yaml"), s("json")]);
}

// ── discovery ──────────────────────────────────────────────────────

#[test]
fn discover_yaml_files() {
    let mut fs = MemoryFs::new();
    fs.add_file("/repo/argocd-app/cluster-generator/web-generator.yaml", b"apiVersion: argoproj.io/v1alpha1");
    fs.add_file("/repo/charts/web/Chart.yaml", b"apiVersion: v2");
    fs.add_file("/repo/environments/tenant-a/production/aws/helm_values_files/us-east-2/values.yaml", b"key: value");
    fs.add_file("/repo/README.md", b"# readme");
    let config = ScanConfig::default();
    let files = discover_files(&fs, "/repo", &config).unwrap();
    assert_eq!(files.len(), 3);
    assert!(files.iter().any(|f| f.category == FileCategory::ApplicationSet));
    assert!(files.iter().any(|f| f.category == FileCategory::Chart));
    assert!(files.iter().any(|f| f.category == FileCategory::Values));
}

#[test]
fn classify_config_json() {
    let config = ScanConfig::default();
    let markers = config.appset_marker_set();
    let path = "/repo/environments/tenant-a/production/aws/argocd/us-east-2/config.json";
    assert_eq!(classify_file(path, &config, &markers), FileCategory::Config);
}

#[test]
fn discover_empty_directory() {
    let fs = MemoryFs::new();
    let config = ScanConfig::default();
    let files = discover_files(&fs, "/empty", &config).unwrap();
    assert!(files.is_empty());
}

#[test]
fn discover_filters_non_matching_extensions() {
    let mut fs = MemoryFs::new();
    fs.add_file("/repo/readme.md", b"# readme");
    fs.add_file("/repo/script.sh", b"#!/bin/bash");
    fs.add_file("/repo/data.txt", b"data");
    let config = ScanConfig::default();
    let files = discover_files(&fs, "/repo", &config).unwrap();
    assert!(files.is_empty());
}

#[test]
fn discover_with_custom_appset_markers() {
    let mut fs = MemoryFs::new();
    fs.add_file("/repo/custom-appsets/web.yaml", b"apiVersion: v1");
    let config = ScanConfig { appset_dir_markers: vec![s("custom-appsets")], ..Default::default() };
    let files = discover_files(&fs, "/repo", &config).unwrap();
    assert_eq!(files.len(), 1);
    assert_eq!(files[0].category, FileCategory::ApplicationSet);
}

#[test]
fn discovered_files_come_in_path_order() {
    let mut fs = MemoryFs::new();
    fs.add_file("/repo/a-b/x.yaml", b"");
    fs.add_file("/repo/a/b.yaml", b"");
    let config = ScanConfig::default();
    let files = discover_files(&fs, "/repo", &config).unwrap();
    assert_eq!(files[0].path, "/repo/a/b.yaml");
    assert_eq!(files[1].path, "/repo/a-b/x.yaml");
}

// ── environments ───────────────────────────────────────────────────

#[test]
fn walk_environments_hierarchy() {
    let mut fs = MemoryFs::new();
    fs.add_file("/repo/environments/tenant-a/production/AWS/helm_values_files/us-east-2/values.yaml", b"");
    fs.add_file("/repo/environments/tenant-a/staging/GCP/helm_values_files/us-central1/values.yaml", b"");
    fs.add_file("/repo/environments/tenant-b/production/AWS/argocd/us-east-2/config.json", b"");
    fs.add_file("/repo/environments/tenant-c/staging/AZR/service_config/westeurope/conf.yaml", b"");
    let config = ScanConfig::default();
    let configs = walk_environments(&fs, "/repo/environments", &config).unwrap();
    assert_eq!(configs.len(), 4);
    let first = configs.iter().find(|c| c.tenant == "tenant-a" && c.environment == "production").unwrap();
    assert_eq!(first.cloud_provider, "AWS");
    assert_eq!(first.region.as_deref(), Some("us-east-2"));
    assert_eq!(first.file_type, "helm_values");
    let argocd = configs.iter().find(|c| c.file_type == "argocd_config").unwrap();
    assert_eq!(argocd.tenant, "tenant-b");
    assert_eq!(argocd.region.as_deref(), Some("us-east-2"));
}

#[test]
fn build_taxonomy_counts() {
    let mut fs = MemoryFs::new();
    fs.add_file("/repo/environments/tenant-a/production/AWS/helm_values_files/us-east-2/values.yaml", b"");
    fs.add_file("/repo/environments/tenant-a/staging/GCP/helm_values_files/us-central1/values.yaml", b"");
    fs.add_file("/repo/environments/tenant-b/production/AWS/helm_values_files/us-east-2/values.yaml", b"");
    fs.add_file("/repo/environments/tenant-c/staging/AZR/helm_values_files/westeurope/values.yaml", b"");
    let config = ScanConfig::default();
    let configs = walk_environments(&fs, "/repo/environments", &config).unwrap();
    let taxonomy = build_taxonomy(&configs);
    assert_eq!(taxonomy.tenants.len(), 3);
    assert_eq!(taxonomy.environments.len(), 2);
    assert_eq!(taxonomy.cloud_providers.len(), 3);
    let aws = taxonomy.regions.iter().find(|(k, _)| k == "AWS").unwrap();
    assert_eq!(aws.1.len(), 1);
}

#[test]
fn skips_script_files_at_tenant_level() {
    let mut fs = MemoryFs::new();
    fs.add_file("/repo/environments/generate_configuration_randoms.sh", b"");
    fs.add_file("/repo/environments/tenant-a/production/AWS/helm_values_files/us-east-2/values.yaml", b"");
    let config = ScanConfig::default();
    let configs = walk_environments(&fs, "/repo/environments", &config).unwrap();
    assert_eq!(configs.len(), 1);
    assert_eq!(configs[0].tenant, "tenant-a");
}

#[test]
fn classify_env_file_no_remaining() {
    let config = ScanConfig::default();
    let (ft, region) = classify_env_file(&[], &config);
    assert_eq!(ft, "other");
    assert!(region.is_none());
}

#[test]
fn classify_env_file_with_region() {
    let config = ScanConfig::default();
    let (ft, region) = classify_env_file(&["helm_values_files", "us-east-1", "values.yaml"], &config);
    assert_eq!(ft, "helm_values");
    assert_eq!(region.as_deref(), Some("us-east-1"));
}

#[test]
fn build_taxonomy_empty_input() {
    let taxonomy = build_taxonomy(&[]);
    assert!(taxonomy.tenants.is_empty());
    assert!(taxonomy.environments.is_empty());
    assert!(taxonomy.cloud_providers.is_empty());
    assert!(taxonomy.regions.is_empty());
}

#[test]
fn taxonomy_lists_are_sorted_and_distinct() {
    let cp = |t: &str, c: &str, r: Option<&str>| ConfigPath {
        tenant: s(t),
        environment: s("prod"),
        cloud_provider: s(c),
        region: r.map(s),
        file_type: s("helm_values"),
        path: format!("/e/{t}"),
    };
    let t = build_taxonomy(&[cp("zeta", "GCP", Some("b")), cp("alpha", "AWS", Some("x")), cp("zeta", "AWS", Some("a"))]);
    assert_eq!(t.tenants, vec![s("alpha"), s("zeta")]);
    assert_eq!(t.cloud_providers, vec![s("AWS"), s("GCP")]);
    assert_eq!(t.regions, vec![(s("AWS"), vec![s("a"), s("x")]), (s("GCP"), vec![s("b")])]);
}

// ── ArgoCD ─────────────────────────────────────────────────────────

#[test]
fn parse_cluster_generator_appset() {
    let yaml = r#"
apiVersion: argoproj.io/v1alpha1
kind: ApplicationSet
metadata:
  name: web-app-v2
  namespace: argocd
spec:
  goTemplate: true
  generators:
    - clusters:
        selector:
          matchExpressions:
            - key: web-app
              operator: Exists
            - key: tenant
              operator: NotIn
              values: ["excluded-tenant"]
  template:
    metadata:
      name: 'test'
    spec:
      source:
        repoURL: git@github.com:example-org/example-environments.git
        targetRevision: master
        path: charts/web-app
        helm:
          releaseName: test
          parameters:
            - name: tenant
              value: "my-tenant"
          valueFiles:
            - '../../../../environments/tenant/production/AWS/helm_values_files/us-east-2/web-app-values.yaml'
            - '../../../../environments/tenant/production/AWS/helm_values_files/image-values.yaml'
"#;
    let value = parse_yaml(yaml);
    let info = parse_appset(&value, "web-generator.yaml").unwrap();
    assert_eq!(info.name, "web-app-v2");
    assert_eq!(info.generator_type, GeneratorType::Cluster);
    assert_eq!(info.cluster_selectors.len(), 2);
    assert_eq!(info.cluster_selectors[0].key, "web-app");
    assert_eq!(info.cluster_selectors[0].operator, "Exists");
    assert!(info.cluster_selectors[0].values.is_empty());
    assert_eq!(info.cluster_selectors[1].key, "tenant");
    assert_eq!(info.cluster_selectors[1].operator, "NotIn");
    assert_eq!(info.cluster_selectors[1].values, vec!["excluded-tenant"]);
    assert_eq!(info.excluded_tenants, vec!["excluded-tenant"]);
    assert_eq!(info.chart_path.as_deref(), Some("charts/web-app"));
    assert_eq!(info.value_files.len(), 2);
    assert!(info.value_files[0].contains("web-app-values.yaml"));
    assert_eq!(info.helm_parameters.len(), 1);
    assert_eq!(info.helm_parameters[0].name, "tenant");
    assert_eq!(info.helm_parameters[0].value, "my-tenant");
    assert_eq!(info.source_file, "web-generator.yaml");
}

#[test]
fn parse_git_generator_appset() {
    let yaml = r#"
apiVersion: argoproj.io/v1alpha1
kind: ApplicationSet
metadata:
  name: ingress-nginx
  namespace: argocd
spec:
  generators:
    - git:
        repoURL: git@github.com:example-org/example-environments.git
        revision: master
        files:
          - path: "environments/tenant-a/**/AZR/argocd/**/config.json"
          - path: "environments/tenant-b/staging/AZR/argocd/**/config.json"
          - path: "environments/tenant-c/**/AZR/argocd/**/config.json"
  template:
    metadata:
      name: 'ingress-nginx-test'
    spec:
      source:
        repoURL: git@github.com:example-org/example-environments.git
        targetRevision: master
        path: charts/ingress-nginx
        helm:
          valueFiles:
            - '../../../../environments/tenant/env/AZR/helm_values_files/region/ingress-nginx.yaml'
"#;
    let value = parse_yaml(yaml);
    let info = parse_appset(&value, "ingress-nginx-generator.yaml").unwrap();
    assert_eq!(info.name, "ingress-nginx");
    assert_eq!(info.generator_type, GeneratorType::Git);
    assert_eq!(info.git_file_paths.len(), 3);
    assert!(info.git_file_paths[0].contains("tenant-a"));
    assert!(info.git_file_paths[1].contains("tenant-b"));
    assert!(info.git_file_paths[2].contains("tenant-c"));
    assert!(info.cluster_selectors.is_empty());
    assert_eq!(info.chart_path.as_deref(), Some("charts/ingress-nginx"));
    assert_eq!(info.value_files.len(), 1);
}

#[test]
fn parse_matrix_generator_appset() {
    let yaml = r#"
apiVersion: argoproj.io/v1alpha1
kind: ApplicationSet
metadata:
  name: runner-scale-set-v2
  namespace: argocd
spec:
  goTemplate: true
  generators:
    - matrix:
        generators:
          - clusters:
              selector:
                matchExpressions:
                  - key: runner-scale-set
                    operator: Exists
                  - key: tenant
                    operator: NotIn
                    values: ["excluded-tenant"]
          - list:
              elements:
                - runnerScaleSet: ci-runner
                  namespace: ci
  template:
    metadata:
      name: 'test-name'
    spec:
      source:
        repoURL: git@github.com:example-org/example-environments.git
        targetRevision: master
        path: charts/runner-scale-set
        helm:
          valueFiles:
            - '../../../../environments/cicd/cicd/AWS/helm_values_files/region/runners/values.yaml'
"#;
    let value = parse_yaml(yaml);
    let info = parse_appset(&value, "runner-generator.yaml").unwrap();
    assert_eq!(info.name, "runner-scale-set-v2");
    assert_eq!(info.generator_type, GeneratorType::Matrix);
    assert_eq!(info.cluster_selectors.len(), 2);
    assert_eq!(info.excluded_tenants, vec!["excluded-tenant"]);
    assert_eq!(info.chart_path.as_deref(), Some("charts/runner-scale-set"));
}

#[test]
fn parse_appset_no_generators() {
    let yaml = r#"
apiVersion: argoproj.io/v1alpha1
kind: ApplicationSet
metadata:
  name: empty
spec:
  generators: []
  template:
    metadata:
      name: 'empty'
    spec:
      source:
        path: some/path
"#;
    let value = parse_yaml(yaml);
    let info = parse_appset(&value, "empty.yaml").unwrap();
    assert_eq!(info.generator_type, GeneratorType::Unknown);
    assert!(info.cluster_selectors.is_empty());
}

// ── Helm ───────────────────────────────────────────────────────────

#[test]
fn parse_chart_yaml_basic() {
    let yaml = "\napiVersion: v2\nname: web-app\ndescription: Web application chart.\ntype: application\nversion: 0.1.0\n";
    let value = parse_yaml(yaml);
    let info = parse_chart(&value, "charts/web-app").unwrap();
    assert_eq!(info.name, "web-app");
    assert_eq!(info.version, "0.1.0");
    assert_eq!(info.description, "Web application chart.");
    assert_eq!(info.chart_type, ChartType::Application);
    assert!(info.dependencies.is_empty());
    assert_eq!(info.chart_dir, "charts/web-app");
}

#[test]
fn parse_chart_yaml_with_dependencies() {
    let yaml = "\napiVersion: v2\nname: datadog\nversion: \"3.73.0\"\nappVersion: \"7\"\ndescription: Datadog Agent\ndependencies:\n  - name: datadog\n    version: \"3.73.0\"\n    repository: https://helm.datadoghq.com\n";
    let value = parse_yaml(yaml);
    let info = parse_chart(&value, "saas/kubernetes/helm/datadog").unwrap();
    assert_eq!(info.name, "datadog");
    assert_eq!(info.description, "Datadog Agent");
    assert_eq!(info.dependencies.len(), 1);
    assert_eq!(info.dependencies[0].name, "datadog");
    assert_eq!(info.dependencies[0].repository, "https://helm.datadoghq.com");
}

#[test]
fn parse_chart_yaml_library_type() {
    let yaml = "\napiVersion: v2\nname: common\nversion: \"1.0.0\"\ndescription: Common library chart\ntype: library\n";
    let value = parse_yaml(yaml);
    let info = parse_chart(&value, "charts/common").unwrap();
    assert_eq!(info.chart_type, ChartType::Library);
}

#[test]
fn parse_chart_yaml_no_type_defaults_to_application() {
    let yaml = "\napiVersion: v2\nname: minimal\nversion: \"0.1.0\"\ndescription: Minimal chart\n";
    let value = parse_yaml(yaml);
    let info = parse_chart(&value, "charts/minimal").unwrap();
    assert_eq!(info.chart_type, ChartType::Application);
}

#[test]
fn chart_versions_render_numbers() {
    let value = parse_yaml("name: n\nversion: 3\n");
    assert_eq!(parse_chart(&value, "d").unwrap().version, "3");
    let value = parse_yaml("name: n\nversion: 1.5\n");
    assert_eq!(parse_chart(&value, "d").unwrap().version, "1.5");
}

// ── report ─────────────────────────────────────────────────────────

fn sample_topology() -> Topology {
    let appsets = vec![AppSetInfo {
        name: s("web-app-v2"),
        generator_type: GeneratorType::Cluster,
        cluster_selectors: vec![
            MatchExpression { key: s("web-app"), operator: s("Exists"), values: vec![] },
            MatchExpression { key: s("tenant"), operator: s("NotIn"), values: vec![s("excluded-tenant")] },
        ],
        chart_path: Some(s("charts/web-app")),
        value_files: vec![s("../../../../environments/{{tenant}}/{{env}}/{{cloud}}/helm_values_files/{{region}}/web-app-values.yaml")],
        helm_parameters: vec![HelmParameter { name: s("tenant"), value: s("my-tenant") }],
        excluded_tenants: vec![s("excluded-tenant")],
        git_file_paths: vec![],
        source_file: s("web-generator.yaml"),
    }];
    let charts = vec![
        ChartInfo {
            name: s("web-app"),
            version: s("0.1.0"),
            description: s("Web application"),
            chart_type: ChartType::Application,
            dependencies: vec![],
            chart_dir: s("charts/web-app"),
        },
        ChartInfo {
            name: s("monitoring"),
            version: s("1.0.0"),
            description: s("Monitoring stack"),
            chart_type: ChartType::Application,
            dependencies: vec![ChartDependency {
                name: s("prometheus"),
                version: s("25.0.0"),
                repository: s("https://prometheus-community.github.io/helm-charts"),
            }],
            chart_dir: s("charts/monitoring"),
        },
    ];
    let config_paths = vec![ConfigPath {
        tenant: s("tenant-a"),
        environment: s("production"),
        cloud_provider: s("AWS"),
        region: Some(s("us-east-2")),
        file_type: s("helm_values"),
        path: s("/repo/environments/tenant-a/production/AWS/helm_values_files/us-east-2/values.yaml"),
    }];
    let taxonomy = Taxonomy {
        tenants: vec![s("tenant-a")],
        environments: vec![s("production")],
        cloud_providers: vec![s("AWS")],
        regions: vec![(s("AWS"), vec![s("us-east-2")])],
    };
    let edges = vec![
        Edge::AppSetToChart { appset: s("web-app-v2"), chart: s("web-app") },
        Edge::AppSetToValueFile {
            appset: s("web-app-v2"),
            path: s("../../../../environments/{{tenant}}/{{env}}/{{cloud}}/helm_values_files/{{region}}/web-app-values.yaml"),
        },
        Edge::ChartDependency { parent: s("monitoring"), child: s("prometheus") },
    ];
    Topology { appsets, charts, config_paths, edges, taxonomy }
}

fn empty_topology() -> Topology {
    Topology {
        appsets: vec![],
        charts: vec![],
        config_paths: vec![],
        edges: vec![],
        taxonomy: Taxonomy { tenants: vec![], environments: vec![], cloud_providers: vec![], regions: vec![] },
    }
}

#[test]
fn topology_to_value() {
    let topo = sample_topology();
    let val = to_value(&topo);
    assert!(val.get("appsets").is_some());
    assert!(val.get("charts").is_some());
    assert!(val.get("edges").is_some());
    assert!(val.get("taxonomy").is_some());
    let appsets = val.get("appsets").unwrap().as_array().unwrap();
    assert_eq!(appsets.len(), 1);
    assert_eq!(appsets[0].get("name").unwrap().as_str().unwrap(), "web-app-v2");
    assert_eq!(appsets[0].get("generator_type").unwrap().as_str().unwrap(), "cluster");
    let charts = val.get("charts").unwrap().as_array().unwrap();
    assert_eq!(charts.len(), 2);
    let edges = val.get("edges").unwrap().as_array().unwrap();
    assert_eq!(edges.len(), 3);
    let taxonomy = val.get("taxonomy").unwrap();
    let tenants = taxonomy.get("tenants").unwrap().as_array().unwrap();
    assert_eq!(tenants.len(), 1);
    assert_eq!(tenants[0].as_str().unwrap(), "tenant-a");
}

#[test]
fn topology_to_summary() {
    let topo = sample_topology();
    let summary = to_summary(&topo);
    assert_eq!(summary.get("appsets_count").unwrap().as_i64().unwrap(), 1);
    assert_eq!(summary.get("charts_count").unwrap().as_i64().unwrap(), 2);
    assert_eq!(summary.get("config_paths_count").unwrap().as_i64().unwrap(), 1);
    assert_eq!(summary.get("edges_count").unwrap().as_i64().unwrap(), 3);
    assert_eq!(summary.get("tenants_count").unwrap().as_i64().unwrap(), 1);
    let gen = summary.get("generators_by_type").unwrap();
    assert_eq!(gen.get("cluster").unwrap().as_i64().unwrap(), 1);
    assert_eq!(gen.get("git").unwrap().as_i64().unwrap(), 0);
    let edge_types = summary.get("edges_by_type").unwrap();
    assert_eq!(edge_types.get("appset_to_chart").unwrap().as_i64().unwrap(), 1);
    assert_eq!(edge_types.get("appset_to_value_file").unwrap().as_i64().unwrap(), 1);
    assert_eq!(edge_types.get("chart_dependency").unwrap().as_i64().unwrap(), 1);
    let by_file = summary.get("config_files_by_type").unwrap();
    assert_eq!(by_file.get("helm_values").unwrap().as_i64().unwrap(), 1);
}

#[test]
fn topology_to_dot_produces_valid_output() {
    let topo = sample_topology();
    let dot = to_dot(&topo);
    assert!(dot.starts_with("digraph topology {"));
    assert!(dot.ends_with('}'));
    assert!(dot.contains("appset:web-app-v2"));
    assert!(dot.contains("chart:web-app"));
    assert!(dot.contains("chart:monitoring"));
    assert!(dot.contains("-> \"chart:web-app\""));
    assert!(dot.contains("deploys"));
    assert!(dot.contains("depends"));
    assert!(dot.contains("values"));
}

#[test]
fn shorten_value_path_works() {
    let long = "../../../../environments/{{tenant}}/{{env}}/AWS/helm_values_files/{{region}}/aws-saas-values.yaml";
    let short = shorten_value_path(long);
    assert!(!short.starts_with("../"));
    assert!(short.contains("aws-saas-values.yaml"));
    let medium = "../../../../environments/global/dev/values.yaml";
    let short2 = shorten_value_path(medium);
    assert!(short2.contains("environments"));
    assert!(!short2.starts_with("../"));
}

#[test]
fn topology_to_value_empty() {
    let val = to_value(&empty_topology());
    assert_eq!(val.get("appsets").unwrap().as_array().unwrap().len(), 0);
    assert_eq!(val.get("charts").unwrap().as_array().unwrap().len(), 0);
}

#[test]
fn topology_to_summary_empty() {
    let summary = to_summary(&empty_topology());
    assert_eq!(summary.get("appsets_count").unwrap().as_i64().unwrap(), 0);
    assert_eq!(summary.get("charts_count").unwrap().as_i64().unwrap(), 0);
    assert_eq!(summary.get("edges_count").unwrap().as_i64().unwrap(), 0);
}

#[test]
fn dot_escape_special_chars() {
    assert_eq!(dot_escape("hello\"world"), "hello\\\"world");
    assert_eq!(dot_escape("line\nnewline"), "line\\nnewline");
    assert_eq!(dot_escape("back\\slash"), "back\\\\slash");
}

#[test]
fn dot_of_empty_topology_is_exact() {
    let dot = to_dot(&empty_topology());
    assert_eq!(
        dot,
        "digraph topology {\n  rankdir=LR;\n  node [shape=box];\n\n  // ApplicationSets\n\n  // Helm Charts\n\n  // Edges\n}"
    );
}

#[test]
fn shorten_keeps_short_paths_and_counts_bytes() {
    assert_eq!(shorten_value_path("../../a/b.yaml"), "a/b.yaml");
    let wide = format!("{}/x.yaml", "é".repeat(28));
    assert_eq!(shorten_value_path(&wide), "x.yaml");
}

// ── topology ───────────────────────────────────────────────────────

const APPSET_YAML: &str = r#"apiVersion: argoproj.io/v1alpha1
kind: ApplicationSet
metadata:
  name: web-app-v2
  namespace: argocd
spec:
  generators:
    - clusters:
        selector:
          matchExpressions:
            - key: web-app
              operator: Exists
            - key: tenant
              operator: NotIn
              values: ["excluded-tenant"]
  template:
    metadata:
      name: test
    spec:
      source:
        repoURL: git@github.com:example-org/example-environments.git
        path: charts/web-app
        helm:
          parameters:
            - name: tenant
              value: "my-tenant"
          valueFiles:
            - '../../../../environments/{{tenant}}/{{environment}}/{{cloudProvider}}/helm_values_files/{{region}}/web-app-values.yaml'
"#;

const CHART_YAML: &str = "apiVersion: v2\nname: web-app\ndescription: Web application chart.\ntype: application\nversion: 0.1.0\n";

const CHART_WITH_DEPS_YAML: &str = "apiVersion: v2\nname: monitoring\nversion: \"1.0.0\"\ndescription: Monitoring chart\ndependencies:\n  - name: prometheus\n    version: \"25.0.0\"\n    repository: https://prometheus-community.github.io/helm-charts\n";

#[test]
fn build_topology_edges() {
    let mut fs = MemoryFs::new();
    let config = ScanConfig::default();
    fs.add_file("/repo/argocd-app/cluster-generator/web-generator.yaml", APPSET_YAML.as_bytes());
    fs.add_file("/repo/charts/web-app/Chart.yaml", CHART_YAML.as_bytes());
    fs.add_file("/repo/charts/monitoring/Chart.yaml", CHART_WITH_DEPS_YAML.as_bytes());
    fs.add_file("/repo/environments/tenant-a/production/AWS/helm_values_files/us-east-2/web-app-values.yaml", b"key: value");
    let result = build_topology_with_fs(&fs, "/repo", &config, &yaml_parser).unwrap();
    let topo = &result.topology;
    assert_eq!(topo.appsets.len(), 1);
    assert_eq!(topo.appsets[0].name, "web-app-v2");
    assert_eq!(topo.charts.len(), 2);
    let to_chart = topo.edges.iter().filter(|e| matches!(e, Edge::AppSetToChart { .. })).count();
    assert_eq!(to_chart, 1);
    let to_vf = topo.edges.iter().filter(|e| matches!(e, Edge::AppSetToValueFile { .. })).count();
    assert_eq!(to_vf, 1);
    let deps = topo.edges.iter().filter(|e| matches!(e, Edge::ChartDependency { .. })).count();
    assert_eq!(deps, 1);
    let edge = topo.edges.iter().find(|e| matches!(e, Edge::AppSetToChart { .. })).unwrap();
    match edge {
        Edge::AppSetToChart { appset, chart } => {
            assert_eq!(appset, "web-app-v2");
            assert_eq!(chart, "web-app");
        }
        _ => unreachable!(),
    }
    assert_eq!(topo.config_paths.len(), 1);
    assert_eq!(topo.taxonomy.tenants, vec![s("tenant-a")]);
}

#[test]
fn chart_path_matching() {
    assert!(chart_path_matches("charts/web-app", "charts/web-app"));
    assert!(chart_path_matches("charts/web-app/", "charts/web-app"));
    assert!(!chart_path_matches("charts/web-app", "charts/monitoring"));
}

#[test]
fn value_file_resolution() {
    let mut fs = MemoryFs::new();
    let config = ScanConfig::default();
    let appset1_yaml = r#"apiVersion: argoproj.io/v1alpha1
kind: ApplicationSet
metadata:
  name: web-app-v2
spec:
  generators:
    - clusters:
        selector:
          matchExpressions:
            - key: web-app
              operator: Exists
  template:
    metadata:
      name: test
    spec:
      source:
        path: charts/web-app
        helm:
          valueFiles:
            - '../../../../environments/{{tenant}}/{{environment}}/{{cloudProvider}}/helm_values_files/{{region}}/web-app-values.yaml'
            - '../../../../environments/{{tenant}}/{{environment}}/{{cloudProvider}}/helm_values_files/{{region}}/configmap-sha-values.yaml'
"#;
    fs.add_file("/repo/argocd-app/cluster-generator/web-generator.yaml", appset1_yaml.as_bytes());
    fs.add_file("/repo/charts/web-app/Chart.yaml", CHART_YAML.as_bytes());
    fs.add_file("/repo/environments/tenant-a/production/AWS/helm_values_files/us-east-2/web-app-values.yaml", b"key: value");
    fs.add_file("/repo/environments/tenant-a/production/AWS/helm_values_files/us-east-2/configmap-sha-values.yaml", b"sha: abc123");
    let result = build_topology_with_fs(&fs, "/repo", &config, &yaml_parser).unwrap();
    let topo = &result.topology;
    let vf_edges: Vec<_> = topo.edges.iter().filter(|e| matches!(e, Edge::AppSetToValueFile { .. })).collect();
    assert_eq!(vf_edges.len(), 2);
    for edge in &vf_edges {
        match edge {
            Edge::AppSetToValueFile { appset, .. } => assert_eq!(appset, "web-app-v2"),
            _ => unreachable!(),
        }
    }
    let paths: Vec<&str> = vf_edges
        .iter()
        .map(|e| match e {
            Edge::AppSetToValueFile { path, .. } => path.as_str(),
            _ => unreachable!(),
        })
        .collect();
    assert!(paths.iter().any(|p| p.contains("{{tenant}}")));
    assert!(paths.iter().any(|p| p.contains("web-app-values")));
    assert!(paths.iter().any(|p| p.contains("configmap-sha")));
}

#[test]
fn unparsable_document_stops_the_scan() {
    let mut fs = MemoryFs::new();
    fs.add_file("/repo/charts/x/Chart.yaml", b"name: [unclosed");
    let config = ScanConfig::default();
    match build_topology_with_fs(&fs, "/repo", &config, &yaml_parser) {
        Err(dq::scan::ScanError::YamlParse { path, .. }) => assert_eq!(path, "/repo/charts/x/Chart.yaml"),
        _ => panic!("expected a YAML error"),
    }
}

#[test]
fn taxonomy_ignores_order_and_repeats() {
    let cp = |t: &str, c: &str, r: Option<&str>| ConfigPath {
        tenant: s(t),
        environment: s("prod"),
        cloud_provider: s(c),
        region: r.map(s),
        file_type: s("helm_values"),
        path: format!("/e/{t}"),
    };
    let a = vec![cp("zeta", "GCP", Some("b")), cp("alpha", "AWS", Some("x"))];
    let b = vec![cp("alpha", "AWS", Some("x")), cp("zeta", "GCP", Some("b")), cp("alpha", "AWS", Some("x"))];
    let ta = build_taxonomy(&a);
    let tb = build_taxonomy(&b);
    assert_eq!(ta.tenants, tb.tenants);
    assert_eq!(ta.environments, tb.environments);
    assert_eq!(ta.cloud_providers, tb.cloud_providers);
    assert_eq!(ta.regions, tb.regions);
}

#[test]
fn taxonomy_of_joined_lists_is_the_union() {
    let cp = |t: &str, c: &str, r: Option<&str>| ConfigPath {
        tenant: s(t),
        environment: s("prod"),
        cloud_provider: s(c),
        region: r.map(s),
        file_type: s("helm_values"),
        path: format!("/e/{t}"),
    };
    let joined = vec![cp("b", "AWS", Some("east")), cp("a", "AWS", Some("west"))];
    let t = build_taxonomy(&joined);
    assert_eq!(t.tenants, vec![s("a"), s("b")]);
    assert_eq!(t.regions, vec![(s("AWS"), vec![s("east"), s("west")])]);
}

#[test]
fn to_value_lists_taxonomy_names_in_order_once() {
    let mut topo = empty_topology();
    topo.taxonomy = Taxonomy {
        tenants: vec![s("zeta"), s("alpha"), s("zeta")],
        environments: vec![s("prod"), s("dev")],
        cloud_providers: vec![s("GCP"), s("AWS")],
        regions: vec![(s("GCP"), vec![s("b")]), (s("AWS"), vec![s("x"), s("a")]), (s("GCP"), vec![s("a"), s("b")])],
    };
    let val = to_value(&topo);
    let tax = val.get("taxonomy").unwrap();
    let tenants: Vec<&str> = tax.get("tenants").unwrap().as_array().unwrap().iter().map(|v| v.as_str().unwrap()).collect();
    assert_eq!(tenants, vec!["alpha", "zeta"]);
    let envs: Vec<&str> = tax.get("environments").unwrap().as_array().unwrap().iter().map(|v| v.as_str().unwrap()).collect();
    assert_eq!(envs, vec!["dev", "prod"]);
    let regions = tax.get("regions").unwrap();
    assert_eq!(regions.keys(), vec!["AWS", "GCP"]);
    let gcp: Vec<&str> = regions.get("GCP").unwrap().as_array().unwrap().iter().map(|v| v.as_str().unwrap()).collect();
    assert_eq!(gcp, vec!["a", "b"]);
    let summary = to_summary(&topo);
    assert_eq!(summary.get("tenants_count").unwrap().as_i64().unwrap(), 2);
}

#[test]
fn paths_sort_component_by_component() {
    let v = vec![s("a/./c"), s("a/b")];
    assert_eq!(sort_paths(v), vec![s("a/b"), s("a/./c")]);
    let v = vec![s("-x"), s("../x"), s("/x")];
    assert_eq!(sort_paths(v), vec![s("/x"), s("../x"), s("-x")]);
    let v = vec![s("a-b"), s("a/b")];
    assert_eq!(sort_paths(v), vec![s("a/b"), s("a-b")]);
}

#[test]
fn paths_with_the_same_components_keep_their_order() {
    let v = vec![s("a//b"), s("a/b"), s("a")];
    assert_eq!(sort_paths(v), vec![s("a"), s("a//b"), s("a/b")]);
}

#[test]
fn a_leading_dot_is_a_component() {
    assert_eq!(components("./a/b"), vec![s("."), s("a"), s("b")]);
    assert_eq!(components("a/./b"), vec![s("a"), s("b")]);
    assert_eq!(strip_components("envs/t/e/c/f", "./envs"), None);
    assert_eq!(strip_components("./envs/t/f", "./envs"), Some(vec![s("t"), s("f")]));
}
