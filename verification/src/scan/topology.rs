//! The topology graph: ApplicationSets, charts, configuration paths and
//! taxonomy, connected by typed edges.
use vstd::prelude::*;
use crate::scan::argocd::{AppSetInfo, parse_appset, appset_of};
use crate::scan::config::ScanConfig;
use crate::scan::discovery::{DiscoveredFile, FileCategory, FileFormat, FileSystem, discover_files, discover_spec, discovered_view, discovered_views, name_or_empty};
use crate::scan::environments::{ConfigPath, Taxonomy, build_taxonomy, config_path_views, taxonomy_of, walk_environments, walk_spec};
use crate::scan::helm::{ChartInfo, parse_chart, chart_of};
use crate::scan::ScanError;
use crate::text::{join_with, join_spec, path_join, path_join_spec, relative_components, chars_of, str_eq, string_from_range, strings_view, to_owned_string, push_str, file_name, strip_components, components_spec, is_absolute};
use crate::value::{Val, Value};

verus! {

/// A typed edge of the topology graph.
#[derive(Debug)]
pub enum Edge {
    /// An ApplicationSet deploys a chart.
    AppSetToChart { appset: String, chart: String },
    /// An ApplicationSet reads a value file (a template path).
    AppSetToValueFile { appset: String, path: String },
    /// A chart depends on another chart.
    ChartDependency { parent: String, child: String },
}

/// Model of an edge.
pub enum EdgeView {
    AppSetToChart(Seq<char>, Seq<char>),
    AppSetToValueFile(Seq<char>, Seq<char>),
    ChartDependency(Seq<char>, Seq<char>),
}

/// Model of an edge.
pub open spec fn edge_view(e: Edge) -> EdgeView {
    match e {
        Edge::AppSetToChart { appset, chart } => EdgeView::AppSetToChart(appset@, chart@),
        Edge::AppSetToValueFile { appset, path } => EdgeView::AppSetToValueFile(appset@, path@),
        Edge::ChartDependency { parent, child } => EdgeView::ChartDependency(parent@, child@),
    }
}

/// Model of a list of edges.
pub open spec fn edge_views(s: Seq<Edge>) -> Seq<EdgeView> {
    Seq::new(s.len(), |i: int| edge_view(s[i]))
}

/// The complete topology of a scanned repository.
#[derive(Debug)]
pub struct Topology {
    /// All parsed ApplicationSets.
    pub appsets: Vec<AppSetInfo>,
    /// All parsed Helm charts.
    pub charts: Vec<ChartInfo>,
    /// All environment configuration paths.
    pub config_paths: Vec<ConfigPath>,
    /// Typed edges between the above.
    pub edges: Vec<Edge>,
    /// Aggregated taxonomy of the environments.
    pub taxonomy: Taxonomy,
}

/// The result of a scan.
#[derive(Debug)]
pub struct ScanResult {
    pub topology: Topology,
}

// ── Chart path matching ────────────────────────────────────────────

/// `s` without its leading `/` characters.
pub open spec fn trim_leading_slashes(s: Seq<char>) -> Seq<char>
    decreases s.len(),
{
    if s.len() > 0 && s[0] == '/' {
        trim_leading_slashes(s.drop_first())
    } else {
        s
    }
}

/// `s` without its trailing `/` characters.
pub open spec fn trim_trailing_slashes(s: Seq<char>) -> Seq<char>
    decreases s.len(),
{
    if s.len() > 0 && s.last() == '/' {
        trim_trailing_slashes(s.drop_last())
    } else {
        s
    }
}

/// A path with its leading and trailing slashes removed.
pub open spec fn normalize_dir(s: Seq<char>) -> Seq<char> {
    trim_trailing_slashes(trim_leading_slashes(s))
}

fn normalize(s: &str) -> (r: String)
    ensures
        r@ == normalize_dir(s@),
{
    let cs = chars_of(s);
    let mut a: usize = 0;
    assert(s@.subrange(0, s@.len() as int) =~= s@);
    while a < cs.len() && cs[a] == '/'
        invariant
            cs@ == s@,
            a <= cs@.len(),
            trim_leading_slashes(s@) == trim_leading_slashes(s@.subrange(a as int, s@.len() as int)),
        decreases cs@.len() - a,
    {
        assert(s@.subrange(a as int, s@.len() as int).drop_first() =~= s@.subrange(a + 1, s@.len() as int));
        a = a + 1;
    }
    proof {
        if a == 0 {
            assert(s@.subrange(0, s@.len() as int) =~= s@);
        }
    }
    let ghost lead = s@.subrange(a as int, s@.len() as int);
    assert(trim_leading_slashes(lead) == lead);
    let mut b: usize = cs.len();
    assert(lead.subrange(0, lead.len() as int) =~= lead);
    while b > a && cs[b - 1] == '/'
        invariant
            cs@ == s@,
            a <= b <= cs@.len(),
            lead == s@.subrange(a as int, s@.len() as int),
            trim_trailing_slashes(lead) == trim_trailing_slashes(s@.subrange(a as int, b as int)),
        decreases b,
    {
        assert(s@.subrange(a as int, b as int).drop_last() =~= s@.subrange(a as int, b - 1));
        b = b - 1;
    }
    string_from_range(cs.as_slice(), a, b)
}

/// Whether an ApplicationSet's chart path names a chart directory (both
/// compared without leading or trailing slashes).
pub fn chart_path_matches(appset_chart_path: &str, chart_dir: &str) -> (r: bool)
    ensures
        r == (normalize_dir(appset_chart_path@) == normalize_dir(chart_dir@)),
{
    let a = normalize(appset_chart_path);
    let b = normalize(chart_dir);
    str_eq(a.as_str(), b.as_str())
}

// ── Edges ──────────────────────────────────────────────────────────

/// Chart edges of one ApplicationSet over the first `n` charts.
pub open spec fn chart_links(name: Seq<char>, cp: Seq<char>, charts: Seq<ChartInfo>, n: int) -> Seq<EdgeView>
    decreases n,
{
    if n <= 0 || n > charts.len() {
        Seq::empty()
    } else {
        chart_links(name, cp, charts, n - 1) + if normalize_dir(cp) == normalize_dir(charts[n - 1].chart_dir@) {
            seq![EdgeView::AppSetToChart(name, charts[n - 1].name@)]
        } else {
            Seq::empty()
        }
    }
}

/// Edges of one ApplicationSet: its charts, then its value files.
pub open spec fn appset_edges(a: AppSetInfo, charts: Seq<ChartInfo>) -> Seq<EdgeView> {
    (match a.chart_path {
        Some(cp) => chart_links(a.name@, cp@, charts, charts.len() as int),
        None => Seq::empty(),
    }) + Seq::new(a.value_files@.len(), |i: int| EdgeView::AppSetToValueFile(a.name@, a.value_files@[i]@))
}

/// Edges of the first `n` ApplicationSets.
pub open spec fn appsets_edges(apps: Seq<AppSetInfo>, charts: Seq<ChartInfo>, n: int) -> Seq<EdgeView>
    decreases n,
{
    if n <= 0 || n > apps.len() {
        Seq::empty()
    } else {
        appsets_edges(apps, charts, n - 1) + appset_edges(apps[n - 1], charts)
    }
}

/// Dependency edges of the first `n` charts.
pub open spec fn dependency_edges(charts: Seq<ChartInfo>, n: int) -> Seq<EdgeView>
    decreases n,
{
    if n <= 0 || n > charts.len() {
        Seq::empty()
    } else {
        let c = charts[n - 1];
        dependency_edges(charts, n - 1) + Seq::new(c.dependencies@.len(), |i: int| EdgeView::ChartDependency(c.name@, c.dependencies@[i].name@))
    }
}

/// All edges: ApplicationSet edges in order, then chart dependencies.
pub open spec fn edges_spec(apps: Seq<AppSetInfo>, charts: Seq<ChartInfo>) -> Seq<EdgeView> {
    appsets_edges(apps, charts, apps.len() as int) + dependency_edges(charts, charts.len() as int)
}

/// Builds the edges between ApplicationSets, charts and value files.
pub fn build_edges(appsets: &[AppSetInfo], charts: &[ChartInfo]) -> (r: Vec<Edge>)
    ensures
        edge_views(r@) == edges_spec(appsets@, charts@),
{
    let mut edges: Vec<Edge> = Vec::new();
    let mut i: usize = 0;
    assert(edge_views(edges@) =~= appsets_edges(appsets@, charts@, 0));
    while i < appsets.len()
        invariant
            i <= appsets@.len(),
            edge_views(edges@) == appsets_edges(appsets@, charts@, i as int),
        decreases appsets@.len() - i,
    {
        let a = &appsets[i];
        let ghost e0 = edge_views(edges@);
        match &a.chart_path {
            Some(cp) => {
                let mut j: usize = 0;
                assert(edge_views(edges@) =~= e0 + chart_links(a.name@, cp@, charts@, 0));
                while j < charts.len()
                    invariant
                        i < appsets@.len(),
                        *a == appsets@[i as int],
                        a.chart_path == Some(*cp),
                        j <= charts@.len(),
                        edge_views(edges@) == e0 + chart_links(a.name@, cp@, charts@, j as int),
                    decreases charts@.len() - j,
                {
                    let ghost before = edge_views(edges@);
                    if chart_path_matches(cp.as_str(), charts[j].chart_dir.as_str()) {
                        let e = Edge::AppSetToChart { appset: to_owned_string(a.name.as_str()), chart: to_owned_string(charts[j].name.as_str()) };
                        edges.push(e);
                        assert(edge_views(edges@) =~= before.push(edge_view(e)));
                    }
                    assert(edge_views(edges@) =~= e0 + chart_links(a.name@, cp@, charts@, j + 1));
                    j = j + 1;
                }
            },
            None => {
                assert(edge_views(edges@) =~= e0 + Seq::empty());
            },
        }
        let ghost e1 = edge_views(edges@);
        let mut k: usize = 0;
        while k < a.value_files.len()
            invariant
                i < appsets@.len(),
                *a == appsets@[i as int],
                k <= a.value_files@.len(),
                edge_views(edges@) == e1 + Seq::new(k as nat, |m: int| EdgeView::AppSetToValueFile(a.name@, a.value_files@[m]@)),
            decreases a.value_files@.len() - k,
        {
            let ghost before = edge_views(edges@);
            let e = Edge::AppSetToValueFile { appset: to_owned_string(a.name.as_str()), path: to_owned_string(a.value_files[k].as_str()) };
            edges.push(e);
            assert(edge_views(edges@) =~= before.push(edge_view(e)));
            assert(edge_views(edges@) =~= e1 + Seq::new((k + 1) as nat, |m: int| EdgeView::AppSetToValueFile(a.name@, a.value_files@[m]@)));
            k = k + 1;
        }
        assert(edge_views(edges@) =~= appsets_edges(appsets@, charts@, i + 1));
        i = i + 1;
    }
    let ghost e2 = edge_views(edges@);
    let mut c: usize = 0;
    assert(edge_views(edges@) =~= e2 + dependency_edges(charts@, 0));
    while c < charts.len()
        invariant
            c <= charts@.len(),
            e2 == appsets_edges(appsets@, charts@, appsets@.len() as int),
            edge_views(edges@) == e2 + dependency_edges(charts@, c as int),
        decreases charts@.len() - c,
    {
        let ch = &charts[c];
        let ghost e3 = edge_views(edges@);
        let mut d: usize = 0;
        while d < ch.dependencies.len()
            invariant
                c < charts@.len(),
                *ch == charts@[c as int],
                d <= ch.dependencies@.len(),
                edge_views(edges@) == e3 + Seq::new(d as nat, |m: int| EdgeView::ChartDependency(ch.name@, ch.dependencies@[m].name@)),
            decreases ch.dependencies@.len() - d,
        {
            let ghost before = edge_views(edges@);
            let e = Edge::ChartDependency { parent: to_owned_string(ch.name.as_str()), child: to_owned_string(ch.dependencies[d].name.as_str()) };
            edges.push(e);
            assert(edge_views(edges@) =~= before.push(edge_view(e)));
            assert(edge_views(edges@) =~= e3 + Seq::new((d + 1) as nat, |m: int| EdgeView::ChartDependency(ch.name@, ch.dependencies@[m].name@)));
            d = d + 1;
        }
        assert(edge_views(edges@) =~= e2 + dependency_edges(charts@, c + 1));
        c = c + 1;
    }
    edges
}

/// The topology made of these parts: edges built from the
/// ApplicationSets and charts, taxonomy aggregated from the paths.
pub open spec fn assembled(t: Topology, appsets: Seq<AppSetInfo>, charts: Seq<ChartInfo>, paths: Seq<ConfigPath>) -> bool {
    &&& t.appsets@ == appsets
    &&& t.charts@ == charts
    &&& t.config_paths@ == paths
    &&& edge_views(t.edges@) == edges_spec(appsets, charts)
    &&& taxonomy_of(t.taxonomy, paths)
}

/// Assembles a topology from its parsed parts.
pub fn assemble_topology(appsets: Vec<AppSetInfo>, charts: Vec<ChartInfo>, config_paths: Vec<ConfigPath>) -> (t: Topology)
    ensures
        assembled(t, appsets@, charts@, config_paths@),
{
    let taxonomy = build_taxonomy(config_paths.as_slice());
    let edges = build_edges(appsets.as_slice(), charts.as_slice());
    Topology { appsets, charts, config_paths, edges, taxonomy }
}


// ── Scanning a tree ────────────────────────────────────────────────

/// Directory of a chart, relative to the root: the components of the
/// `Chart.yaml` path below the root without the file itself, or the empty
/// string when the file is not below the root.
pub open spec fn chart_dir_of(path: Seq<char>, root: Seq<char>) -> Seq<char> {
    match relative_components(path, root) {
        Some(c) => if c.len() >= 1 { join_spec(c.drop_last(), "/"@) } else { Seq::empty() },
        None => Seq::empty(),
    }
}

fn chart_dir(path: &str, root: &str) -> (r: String)
    ensures
        r@ == chart_dir_of(path@, root@),
{
    match strip_components(path, root) {
        Some(mut c) => {
            if c.len() >= 1 {
                let ghost cv = crate::text::strings_view(c@);
                c.pop();
                assert(crate::text::strings_view(c@) =~= cv.drop_last());
                join_with(&c, "/")
            } else {
                String::new()
            }
        },
        None => String::new(),
    }
}

/// The paths of the discovered files of category `c`, in order.
pub open spec fn paths_in(d: Seq<(Seq<char>, FileFormat, FileCategory)>, c: FileCategory) -> Seq<Seq<char>>
    decreases d.len(),
{
    if d.len() == 0 {
        Seq::empty()
    } else {
        let pre = paths_in(d.drop_last(), c);
        if d.last().2 == c {
            pre.push(d.last().0)
        } else {
            pre
        }
    }
}

/// `a` is the metadata of some document read from the file at `path`,
/// with the file's name as its source.
pub open spec fn appset_read_from(a: AppSetInfo, path: Seq<char>) -> bool {
    exists|v: Val| #[trigger] appset_of(a, v, name_or_empty(path))
}

/// `c` is the metadata of some document read from the `Chart.yaml` at
/// `path`, with its directory taken relative to `root`.
pub open spec fn chart_read_from(c: ChartInfo, path: Seq<char>, root: Seq<char>) -> bool {
    exists|v: Val| #[trigger] chart_of(c, v, chart_dir_of(path, root))
}

/// One ApplicationSet per path, in order, each read from its file.
pub open spec fn appsets_from(s: Seq<AppSetInfo>, paths: Seq<Seq<char>>) -> bool {
    &&& s.len() == paths.len()
    &&& forall|k: int| 0 <= k < s.len() ==> #[trigger] appset_read_from(s[k], paths[k])
}

/// One chart per path, in order, each read from its file.
pub open spec fn charts_from(s: Seq<ChartInfo>, paths: Seq<Seq<char>>, root: Seq<char>) -> bool {
    &&& s.len() == paths.len()
    &&& forall|k: int| 0 <= k < s.len() ==> #[trigger] chart_read_from(s[k], paths[k], root)
}

/// The ApplicationSets and charts of `t` are those of the files in `d`:
/// one for each ApplicationSet file and one for each `Chart.yaml`, in
/// the order the files were discovered.
pub open spec fn scanned_from(t: Topology, d: Seq<(Seq<char>, FileFormat, FileCategory)>, root: Seq<char>) -> bool {
    &&& appsets_from(t.appsets@, paths_in(d, FileCategory::ApplicationSet))
    &&& charts_from(t.charts@, paths_in(d, FileCategory::Chart), root)
}

/// `p` is the path of a discovered ApplicationSet file or `Chart.yaml`.
pub open spec fn names_read_file(d: Seq<(Seq<char>, FileFormat, FileCategory)>, p: Seq<char>) -> bool {
    exists|k: int|
        0 <= k < d.len() && #[trigger] d[k].0 == p && (d[k].2 == FileCategory::ApplicationSet || d[k].2 == FileCategory::Chart)
}

/// The configuration paths are those of some listing of the
/// environments directory, or none when it could not be walked.
pub open spec fn environments_from(c: Seq<ConfigPath>, env_root: Seq<char>, cfg: ScanConfig) -> bool {
    c.len() == 0 || exists|l: Seq<Seq<char>>| config_path_views(c) == #[trigger] walk_spec(l, env_root, cfg)
}

proof fn lemma_paths_in_step(d: Seq<(Seq<char>, FileFormat, FileCategory)>, i: int, c: FileCategory)
    requires
        0 <= i < d.len(),
    ensures
        paths_in(d.take(i + 1), c) == if d[i].2 == c {
            paths_in(d.take(i), c).push(d[i].0)
        } else {
            paths_in(d.take(i), c)
        },
{
    assert(d.take(i + 1).drop_last() =~= d.take(i));
    assert(d.take(i + 1).last() == d[i]);
}

proof fn lemma_appsets_from_push(s: Seq<AppSetInfo>, paths: Seq<Seq<char>>, x: AppSetInfo, v: Val, path: Seq<char>)
    requires
        appsets_from(s, paths),
        appset_of(x, v, name_or_empty(path)),
    ensures
        appsets_from(s.push(x), paths.push(path)),
{
    assert(appset_read_from(x, path));
    assert forall|k: int| 0 <= k < s.push(x).len() implies #[trigger] appset_read_from(s.push(x)[k], paths.push(path)[k]) by {
        if k < s.len() {
            assert(s.push(x)[k] == s[k]);
            assert(paths.push(path)[k] == paths[k]);
        }
    }
}

proof fn lemma_charts_from_push(s: Seq<ChartInfo>, paths: Seq<Seq<char>>, root: Seq<char>, x: ChartInfo, v: Val, path: Seq<char>)
    requires
        charts_from(s, paths, root),
        chart_of(x, v, chart_dir_of(path, root)),
    ensures
        charts_from(s.push(x), paths.push(path), root),
{
    assert(chart_read_from(x, path, root));
    assert forall|k: int| 0 <= k < s.push(x).len() implies #[trigger] chart_read_from(s.push(x)[k], paths.push(path)[k], root) by {
        if k < s.len() {
            assert(s.push(x)[k] == s[k]);
            assert(paths.push(path)[k] == paths[k]);
        }
    }
}

/// Reads the ApplicationSet files among `discovered`, in order, with
/// `parse_yaml`; the first file that cannot be read or parsed stops the
/// reading with its error.
fn read_appsets<F: FileSystem, P: Fn(&[u8]) -> Result<Value, String>>(
    fs: &F,
    discovered: &Vec<DiscoveredFile>,
    parse_yaml: &P,
) -> (r: Result<Vec<AppSetInfo>, ScanError>)
    requires
        forall|b: &[u8]| parse_yaml.requires((b,)),
    ensures
        r matches Ok(a) ==> appsets_from(a@, paths_in(discovered_views(discovered@), FileCategory::ApplicationSet)),
        r matches Err(ScanError::YamlParse { path, .. }) ==> names_read_file(discovered_views(discovered@), path@),
        r is Err ==> r matches Err(ScanError::Io(_)) || r matches Err(ScanError::YamlParse { .. }),
{
    let ghost dv = discovered_views(discovered@);
    let mut appsets: Vec<AppSetInfo> = Vec::new();
    let mut i: usize = 0;
    assert(dv.take(0) =~= Seq::<(Seq<char>, FileFormat, FileCategory)>::empty());
    while i < discovered.len()
        invariant
            forall|b: &[u8]| parse_yaml.requires((b,)),
            dv == discovered_views(discovered@),
            i <= discovered@.len(),
            appsets_from(appsets@, paths_in(dv.take(i as int), FileCategory::ApplicationSet)),
        decreases discovered@.len() - i,
    {
        let file = &discovered[i];
        proof {
            lemma_paths_in_step(dv, i as int, FileCategory::ApplicationSet);
            assert(dv[i as int] == discovered_view(*file));
        }
        if file.category == FileCategory::ApplicationSet {
            let content = match fs.read_file(file.path.as_str()) {
                Ok(c) => c,
                Err(e) => return Err(ScanError::Io(e)),
            };
            let value = match parse_yaml(content.as_slice()) {
                Ok(v) => v,
                Err(message) => {
                    let path = to_owned_string(file.path.as_str());
                    assert(names_read_file(dv, path@));
                    let r: Result<Vec<AppSetInfo>, ScanError> = Err(ScanError::YamlParse { path, message });
                    assert(r->Err_0->YamlParse_path@ == path@);
                    return r;
                },
            };
            let source = match file_name(file.path.as_str()) {
                Some(n) => n,
                None => String::new(),
            };
            match parse_appset(&value, source.as_str()) {
                Ok(info) => {
                    proof {
                        lemma_appsets_from_push(appsets@, paths_in(dv.take(i as int), FileCategory::ApplicationSet), info, value@, file.path@);
                    }
                    appsets.push(info);
                },
                Err(_) => {},
            }
        }
        i = i + 1;
    }
    assert(dv.take(discovered@.len() as int) =~= dv);
    Ok(appsets)
}

/// Reads the `Chart.yaml` files among `discovered`, in order, with
/// `parse_yaml`, each chart's directory taken relative to `root`; the
/// first file that cannot be read or parsed stops the reading with its
/// error.
fn read_charts<F: FileSystem, P: Fn(&[u8]) -> Result<Value, String>>(
    fs: &F,
    root: &str,
    discovered: &Vec<DiscoveredFile>,
    parse_yaml: &P,
) -> (r: Result<Vec<ChartInfo>, ScanError>)
    requires
        forall|b: &[u8]| parse_yaml.requires((b,)),
    ensures
        r matches Ok(c) ==> charts_from(c@, paths_in(discovered_views(discovered@), FileCategory::Chart), root@),
        r matches Err(ScanError::YamlParse { path, .. }) ==> names_read_file(discovered_views(discovered@), path@),
        r is Err ==> r matches Err(ScanError::Io(_)) || r matches Err(ScanError::YamlParse { .. }),
{
    let ghost dv = discovered_views(discovered@);
    let mut charts: Vec<ChartInfo> = Vec::new();
    let mut i: usize = 0;
    assert(dv.take(0) =~= Seq::<(Seq<char>, FileFormat, FileCategory)>::empty());
    while i < discovered.len()
        invariant
            forall|b: &[u8]| parse_yaml.requires((b,)),
            dv == discovered_views(discovered@),
            i <= discovered@.len(),
            charts_from(charts@, paths_in(dv.take(i as int), FileCategory::Chart), root@),
        decreases discovered@.len() - i,
    {
        let file = &discovered[i];
        proof {
            lemma_paths_in_step(dv, i as int, FileCategory::Chart);
            assert(dv[i as int] == discovered_view(*file));
        }
        if file.category == FileCategory::Chart {
            let content = match fs.read_file(file.path.as_str()) {
                Ok(c) => c,
                Err(e) => return Err(ScanError::Io(e)),
            };
            let value = match parse_yaml(content.as_slice()) {
                Ok(v) => v,
                Err(message) => {
                    let path = to_owned_string(file.path.as_str());
                    assert(names_read_file(dv, path@));
                    let r: Result<Vec<ChartInfo>, ScanError> = Err(ScanError::YamlParse { path, message });
                    assert(r->Err_0->YamlParse_path@ == path@);
                    return r;
                },
            };
            let dir = chart_dir(file.path.as_str(), root);
            match parse_chart(&value, dir.as_str()) {
                Ok(info) => {
                    proof {
                        lemma_charts_from_push(charts@, paths_in(dv.take(i as int), FileCategory::Chart), root@, info, value@, file.path@);
                    }
                    charts.push(info);
                },
                Err(_) => {},
            }
        }
        i = i + 1;
    }
    assert(dv.take(discovered@.len() as int) =~= dv);
    Ok(charts)
}

/// Builds the topology of the tree below `root` on `fs`, reading YAML
/// documents with `parse_yaml`: every ApplicationSet file first, then
/// every `Chart.yaml`, each in discovery order.  The first file that
/// cannot be read stops the scan with [`ScanError::Io`], the first
/// document that does not parse with [`ScanError::YamlParse`] naming its
/// file; a missing environments directory gives no configuration paths.
/// Whatever the filesystem and the parser give back, a result holds one
/// ApplicationSet for each discovered ApplicationSet file and one chart
/// for each discovered `Chart.yaml`, in discovery order, each read from
/// its own file; its configuration paths are those of the environments
/// directory below `root`; its edges and taxonomy are those its parts
/// determine.
pub fn build_topology_with_fs<F: FileSystem, P: Fn(&[u8]) -> Result<Value, String>>(
    fs: &F,
    root: &str,
    config: &ScanConfig,
    parse_yaml: &P,
) -> (r: Result<ScanResult, ScanError>)
    requires
        forall|b: &[u8]| parse_yaml.requires((b,)),
    ensures
        r matches Ok(res) ==> {
            &&& exists|l: Seq<Seq<char>>| #[trigger] scanned_from(res.topology, discover_spec(l, *config), root@)
            &&& environments_from(res.topology.config_paths@, path_join_spec(root@, config.environments_dir@), *config)
            &&& edge_views(res.topology.edges@) == edges_spec(res.topology.appsets@, res.topology.charts@)
            &&& taxonomy_of(res.topology.taxonomy, res.topology.config_paths@)
        },
        r matches Err(ScanError::YamlParse { path, .. }) ==> exists|l: Seq<Seq<char>>|
            #[trigger] names_read_file(discover_spec(l, *config), path@),
        r is Err ==> r matches Err(ScanError::Io(_)) || r matches Err(ScanError::YamlParse { .. }),
{
    let discovered = match discover_files(fs, root, config) {
        Ok(d) => d,
        Err(e) => return Err(ScanError::Io(e)),
    };
    let ghost l = choose|l: Seq<Seq<char>>| discovered_views(discovered@) == discover_spec(l, *config);
    let appsets = match read_appsets(fs, &discovered, parse_yaml) {
        Ok(a) => a,
        Err(e) => {
            assert(e matches ScanError::YamlParse { path, .. } ==> names_read_file(discover_spec(l, *config), path@));
            return Err(e);
        },
    };
    let charts = match read_charts(fs, root, &discovered, parse_yaml) {
        Ok(c) => c,
        Err(e) => {
            assert(e matches ScanError::YamlParse { path, .. } ==> names_read_file(discover_spec(l, *config), path@));
            return Err(e);
        },
    };
    let env_root = path_join(root, config.environments_dir.as_str());
    let config_paths = match walk_environments(fs, env_root.as_str(), config) {
        Ok(c) => c,
        Err(_) => Vec::new(),
    };
    let topology = assemble_topology(appsets, charts, config_paths);
    assert(scanned_from(topology, discover_spec(l, *config), root@));
    Ok(ScanResult { topology })
}

proof fn lemma_trim_leading(s: Seq<char>)
    ensures
        trim_leading_slashes(s).len() == 0 || trim_leading_slashes(s)[0] != '/',
    decreases s.len(),
{
    if s.len() > 0 && s[0] == '/' {
        lemma_trim_leading(s.drop_first());
    }
}

proof fn lemma_trim_trailing(s: Seq<char>)
    ensures
        trim_trailing_slashes(s).len() <= s.len(),
        trim_trailing_slashes(s) == s.take(trim_trailing_slashes(s).len() as int),
        trim_trailing_slashes(s).len() == 0 || trim_trailing_slashes(s).last() != '/',
    decreases s.len(),
{
    if s.len() > 0 && s.last() == '/' {
        lemma_trim_trailing(s.drop_last());
        let t = trim_trailing_slashes(s.drop_last());
        assert(s.drop_last().take(t.len() as int) =~= s.take(t.len() as int));
    } else {
        assert(s.take(s.len() as int) =~= s);
    }
}

proof fn lemma_normalize_idempotent(a: Seq<char>)
    ensures
        normalize_dir(normalize_dir(a)) == normalize_dir(a),
{
    let x = trim_leading_slashes(a);
    lemma_trim_leading(a);
    lemma_trim_trailing(x);
    let y = trim_trailing_slashes(x);
    if y.len() > 0 {
        assert(y[0] == x[0]);
    }
    assert(trim_leading_slashes(y) == y);
    assert(trim_trailing_slashes(y) == y);
}

/// Whether an ApplicationSet's chart path names a chart directory does
/// not depend on which side is which, nor on leading or trailing slashes.
pub proof fn law_chart_path_match_symmetric(a: Seq<char>, b: Seq<char>)
    ensures
        (normalize_dir(a) == normalize_dir(b)) == (normalize_dir(b) == normalize_dir(a)),
        normalize_dir(normalize_dir(a)) == normalize_dir(a),
{
    lemma_normalize_idempotent(a);
}

} // verus!
