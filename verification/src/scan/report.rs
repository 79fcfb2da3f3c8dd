//! Reports of a topology: a structured [`Value`], Graphviz DOT, and summary
//! statistics.
use vstd::prelude::*;
use crate::scan::argocd::{AppSetInfo, GeneratorType, HelmParameter, MatchExpression, generator_name};
use crate::scan::environments::{ConfigPath, Taxonomy};
use crate::scan::helm::{ChartDependency, ChartInfo, ChartType, chart_type_name};
use crate::scan::topology::{Edge, Topology};
use crate::text::{str_eq, strings_view, to_owned_string, push_str, push_char, chars_of, join_with, join_spec, file_name, file_name_spec, string_from_range};
use crate::value::{Value, Val, lemma_view_values, view_values, view_entries};
use crate::viz::groups::{distinct_names, sorted_distinct};

verus! {

// ── Value building blocks ──────────────────────────────────────────

/// An array of strings.
pub open spec fn strs_val(s: Seq<Seq<char>>) -> Val {
    Val::Array(Seq::new(s.len(), |i: int| Val::Str(s[i])))
}

fn strings_value(v: &Vec<String>) -> (r: Value)
    ensures
        r@ == strs_val(strings_view(v@)),
{
    let mut out: Vec<Value> = Vec::new();
    let mut i: usize = 0;
    while i < v.len()
        invariant
            i <= v@.len(),
            out@.len() == i,
            forall|j: int| 0 <= j < i ==> #[trigger] out@[j]@ == Val::Str(v@[j]@),
        decreases v@.len() - i,
    {
        out.push(Value::string(v[i].as_str()));
        i = i + 1;
    }
    proof { lemma_view_values(out@); }
    assert(view_values(out@) =~= Seq::new(v@.len(), |j: int| Val::Str(strings_view(v@)[j])));
    Value::Array(out)
}

fn key(k: &str) -> (r: String)
    ensures
        r@ == k@,
{
    to_owned_string(k)
}

// ── Topology as a value ────────────────────────────────────────────

/// A Helm parameter as an object.
pub open spec fn param_val(p: HelmParameter) -> Val {
    Val::Object(seq![("name"@, Val::Str(p.name@)), ("value"@, Val::Str(p.value@))])
}

/// A match expression as an object.
pub open spec fn selector_val(m: MatchExpression) -> Val {
    Val::Object(seq![("key"@, Val::Str(m.key@)), ("operator"@, Val::Str(m.operator@)), ("values"@, strs_val(strings_view(m.values@)))])
}

/// An ApplicationSet as an object.
pub open spec fn appset_val(a: AppSetInfo) -> Val {
    Val::Object(seq![
        ("name"@, Val::Str(a.name@)),
        ("generator_type"@, Val::Str(generator_name(a.generator_type))),
        ("chart_path"@, match a.chart_path { Some(p) => Val::Str(p@), None => Val::Null }),
        ("value_files"@, strs_val(strings_view(a.value_files@))),
        ("helm_parameters"@, Val::Array(Seq::new(a.helm_parameters@.len(), |i: int| param_val(a.helm_parameters@[i])))),
        ("excluded_tenants"@, strs_val(strings_view(a.excluded_tenants@))),
        ("cluster_selectors"@, Val::Array(Seq::new(a.cluster_selectors@.len(), |i: int| selector_val(a.cluster_selectors@[i])))),
        ("git_file_paths"@, strs_val(strings_view(a.git_file_paths@))),
        ("source_file"@, Val::Str(a.source_file@)),
    ])
}

/// A chart dependency as an object.
pub open spec fn dependency_val(d: ChartDependency) -> Val {
    Val::Object(seq![("name"@, Val::Str(d.name@)), ("version"@, Val::Str(d.version@)), ("repository"@, Val::Str(d.repository@))])
}

/// A chart as an object.
pub open spec fn chart_val(c: ChartInfo) -> Val {
    Val::Object(seq![
        ("name"@, Val::Str(c.name@)),
        ("version"@, Val::Str(c.version@)),
        ("description"@, Val::Str(c.description@)),
        ("chart_type"@, Val::Str(chart_type_name(c.chart_type))),
        ("chart_dir"@, Val::Str(c.chart_dir@)),
        ("dependencies"@, Val::Array(Seq::new(c.dependencies@.len(), |i: int| dependency_val(c.dependencies@[i])))),
    ])
}

/// An edge as an object tagged with its type.
pub open spec fn edge_val(e: Edge) -> Val {
    match e {
        Edge::AppSetToChart { appset, chart } => Val::Object(seq![("type"@, Val::Str("appset_to_chart"@)), ("appset"@, Val::Str(appset@)), ("chart"@, Val::Str(chart@))]),
        Edge::AppSetToValueFile { appset, path } => Val::Object(seq![("type"@, Val::Str("appset_to_value_file"@)), ("appset"@, Val::Str(appset@)), ("path"@, Val::Str(path@))]),
        Edge::ChartDependency { parent, child } => Val::Object(seq![("type"@, Val::Str("chart_dependency"@)), ("parent"@, Val::Str(parent@)), ("child"@, Val::Str(child@))]),
    }
}

/// The regions listed under provider `k` in the first `n` entries, in
/// order, repeats kept.
pub open spec fn regions_under(r: Seq<(String, Vec<String>)>, k: Seq<char>, n: int) -> Seq<Seq<char>>
    decreases n,
{
    if n <= 0 || n > r.len() {
        Seq::empty()
    } else if r[n - 1].0@ == k {
        regions_under(r, k, n - 1) + strings_view(r[n - 1].1@)
    } else {
        regions_under(r, k, n - 1)
    }
}

/// The providers of a region table.
pub open spec fn provider_names(r: Seq<(String, Vec<String>)>) -> Seq<Seq<char>> {
    Seq::new(r.len(), |i: int| r[i].0@)
}

/// The sorted distinct names of a list, as a set of names is listed.
pub open spec fn name_set(s: Seq<Seq<char>>) -> Seq<Seq<char>> {
    distinct_names(s, s.len() as int)
}

/// The regions as an object from provider to region list: providers in
/// ascending order, each once, with the ascending distinct regions
/// listed under it anywhere in the table.
pub open spec fn regions_val(r: Seq<(String, Vec<String>)>) -> Val {
    let keys = name_set(provider_names(r));
    Val::Object(Seq::new(keys.len(), |i: int| (keys[i], strs_val(name_set(regions_under(r, keys[i], r.len() as int))))))
}

/// The taxonomy as an object; each list as a set of names, in ascending
/// order and without repeats.
pub open spec fn taxonomy_val(t: Taxonomy) -> Val {
    Val::Object(seq![
        ("tenants"@, strs_val(name_set(strings_view(t.tenants@)))),
        ("environments"@, strs_val(name_set(strings_view(t.environments@)))),
        ("cloud_providers"@, strs_val(name_set(strings_view(t.cloud_providers@)))),
        ("regions"@, regions_val(t.regions@)),
    ])
}

/// The whole topology as an object.
pub open spec fn topology_val(t: Topology) -> Val {
    Val::Object(seq![
        ("appsets"@, Val::Array(Seq::new(t.appsets@.len(), |i: int| appset_val(t.appsets@[i])))),
        ("charts"@, Val::Array(Seq::new(t.charts@.len(), |i: int| chart_val(t.charts@[i])))),
        ("edges"@, Val::Array(Seq::new(t.edges@.len(), |i: int| edge_val(t.edges@[i])))),
        ("taxonomy"@, taxonomy_val(t.taxonomy)),
        ("config_paths_count"@, Val::Int(t.config_paths@.len() as i64)),
    ])
}

fn param_value(p: &HelmParameter) -> (r: Value)
    ensures
        r@ == param_val(*p),
{
    let m = vec![(key("name"), Value::string(p.name.as_str())), (key("value"), Value::string(p.value.as_str()))];
    assert(view_entries(m@) =~= seq![("name"@, Val::Str(p.name@)), ("value"@, Val::Str(p.value@))]);
    Value::Object(m)
}

fn selector_value(s: &MatchExpression) -> (r: Value)
    ensures
        r@ == selector_val(*s),
{
    let m = vec![
        (key("key"), Value::string(s.key.as_str())),
        (key("operator"), Value::string(s.operator.as_str())),
        (key("values"), strings_value(&s.values)),
    ];
    assert(view_entries(m@) =~= seq![("key"@, Val::Str(s.key@)), ("operator"@, Val::Str(s.operator@)), ("values"@, strs_val(strings_view(s.values@)))]);
    Value::Object(m)
}

fn appset_value(a: &AppSetInfo) -> (r: Value)
    ensures
        r@ == appset_val(*a),
{
    let mut params: Vec<Value> = Vec::new();
    let mut i: usize = 0;
    while i < a.helm_parameters.len()
        invariant
            i <= a.helm_parameters@.len(),
            params@.len() == i,
            forall|j: int| 0 <= j < i ==> #[trigger] params@[j]@ == param_val(a.helm_parameters@[j]),
        decreases a.helm_parameters@.len() - i,
    {
        params.push(param_value(&a.helm_parameters[i]));
        i = i + 1;
    }
    proof { lemma_view_values(params@); }
    assert(view_values(params@) =~= Seq::new(a.helm_parameters@.len(), |j: int| param_val(a.helm_parameters@[j])));
    let mut sels: Vec<Value> = Vec::new();
    let mut i: usize = 0;
    while i < a.cluster_selectors.len()
        invariant
            i <= a.cluster_selectors@.len(),
            sels@.len() == i,
            forall|j: int| 0 <= j < i ==> #[trigger] sels@[j]@ == selector_val(a.cluster_selectors@[j]),
        decreases a.cluster_selectors@.len() - i,
    {
        sels.push(selector_value(&a.cluster_selectors[i]));
        i = i + 1;
    }
    proof { lemma_view_values(sels@); }
    assert(view_values(sels@) =~= Seq::new(a.cluster_selectors@.len(), |j: int| selector_val(a.cluster_selectors@[j])));
    let chart_path = match &a.chart_path {
        Some(p) => Value::string(p.as_str()),
        None => Value::Null,
    };
    let m = vec![
        (key("name"), Value::string(a.name.as_str())),
        (key("generator_type"), Value::string(a.generator_type.name())),
        (key("chart_path"), chart_path),
        (key("value_files"), strings_value(&a.value_files)),
        (key("helm_parameters"), Value::Array(params)),
        (key("excluded_tenants"), strings_value(&a.excluded_tenants)),
        (key("cluster_selectors"), Value::Array(sels)),
        (key("git_file_paths"), strings_value(&a.git_file_paths)),
        (key("source_file"), Value::string(a.source_file.as_str())),
    ];
    assert(view_entries(m@) =~= match appset_val(*a) { Val::Object(e) => e, _ => Seq::empty() });
    Value::Object(m)
}

fn dependency_value(d: &ChartDependency) -> (r: Value)
    ensures
        r@ == dependency_val(*d),
{
    let m = vec![
        (key("name"), Value::string(d.name.as_str())),
        (key("version"), Value::string(d.version.as_str())),
        (key("repository"), Value::string(d.repository.as_str())),
    ];
    assert(view_entries(m@) =~= seq![("name"@, Val::Str(d.name@)), ("version"@, Val::Str(d.version@)), ("repository"@, Val::Str(d.repository@))]);
    Value::Object(m)
}

fn chart_value(c: &ChartInfo) -> (r: Value)
    ensures
        r@ == chart_val(*c),
{
    let mut deps: Vec<Value> = Vec::new();
    let mut i: usize = 0;
    while i < c.dependencies.len()
        invariant
            i <= c.dependencies@.len(),
            deps@.len() == i,
            forall|j: int| 0 <= j < i ==> #[trigger] deps@[j]@ == dependency_val(c.dependencies@[j]),
        decreases c.dependencies@.len() - i,
    {
        deps.push(dependency_value(&c.dependencies[i]));
        i = i + 1;
    }
    proof { lemma_view_values(deps@); }
    assert(view_values(deps@) =~= Seq::new(c.dependencies@.len(), |j: int| dependency_val(c.dependencies@[j])));
    let m = vec![
        (key("name"), Value::string(c.name.as_str())),
        (key("version"), Value::string(c.version.as_str())),
        (key("description"), Value::string(c.description.as_str())),
        (key("chart_type"), Value::string(c.chart_type.name())),
        (key("chart_dir"), Value::string(c.chart_dir.as_str())),
        (key("dependencies"), Value::Array(deps)),
    ];
    assert(view_entries(m@) =~= match chart_val(*c) { Val::Object(e) => e, _ => Seq::empty() });
    Value::Object(m)
}

fn edge_value(e: &Edge) -> (r: Value)
    ensures
        r@ == edge_val(*e),
{
    match e {
        Edge::AppSetToChart { appset, chart } => {
            let m = vec![(key("type"), Value::string("appset_to_chart")), (key("appset"), Value::string(appset.as_str())), (key("chart"), Value::string(chart.as_str()))];
            assert(view_entries(m@) =~= seq![("type"@, Val::Str("appset_to_chart"@)), ("appset"@, Val::Str(appset@)), ("chart"@, Val::Str(chart@))]);
            Value::Object(m)
        },
        Edge::AppSetToValueFile { appset, path } => {
            let m = vec![(key("type"), Value::string("appset_to_value_file")), (key("appset"), Value::string(appset.as_str())), (key("path"), Value::string(path.as_str()))];
            assert(view_entries(m@) =~= seq![("type"@, Val::Str("appset_to_value_file"@)), ("appset"@, Val::Str(appset@)), ("path"@, Val::Str(path@))]);
            Value::Object(m)
        },
        Edge::ChartDependency { parent, child } => {
            let m = vec![(key("type"), Value::string("chart_dependency")), (key("parent"), Value::string(parent.as_str())), (key("child"), Value::string(child.as_str()))];
            assert(view_entries(m@) =~= seq![("type"@, Val::Str("chart_dependency"@)), ("parent"@, Val::Str(parent@)), ("child"@, Val::Str(child@))]);
            Value::Object(m)
        },
    }
}

fn regions_listed(r: &Vec<(String, Vec<String>)>, k: &str) -> (out: Vec<String>)
    ensures
        strings_view(out@) == regions_under(r@, k@, r@.len() as int),
{
    let mut out: Vec<String> = Vec::new();
    let mut i: usize = 0;
    while i < r.len()
        invariant
            i <= r@.len(),
            strings_view(out@) == regions_under(r@, k@, i as int),
        decreases r@.len() - i,
    {
        if str_eq(r[i].0.as_str(), k) {
            let l = &r[i].1;
            let ghost o0 = strings_view(out@);
            let mut j: usize = 0;
            while j < l.len()
                invariant
                    j <= l@.len(),
                    strings_view(out@) == o0 + strings_view(l@).take(j as int),
                decreases l@.len() - j,
            {
                let ghost before = strings_view(out@);
                out.push(to_owned_string(l[j].as_str()));
                assert(strings_view(out@) =~= before.push(l@[j as int]@));
                assert(strings_view(l@).take(j + 1) =~= strings_view(l@).take(j as int).push(l@[j as int]@));
                j = j + 1;
            }
            assert(strings_view(l@).take(l@.len() as int) =~= strings_view(l@));
        }
        i = i + 1;
    }
    out
}

fn regions_value(r: &Vec<(String, Vec<String>)>) -> (v: Value)
    ensures
        v@ == regions_val(r@),
{
    let mut providers: Vec<String> = Vec::new();
    let mut i: usize = 0;
    while i < r.len()
        invariant
            i <= r@.len(),
            strings_view(providers@) == provider_names(r@).take(i as int),
        decreases r@.len() - i,
    {
        let ghost before = strings_view(providers@);
        providers.push(to_owned_string(r[i].0.as_str()));
        assert(strings_view(providers@) =~= before.push(r@[i as int].0@));
        assert(strings_view(providers@) =~= provider_names(r@).take(i + 1));
        i = i + 1;
    }
    assert(provider_names(r@).take(r@.len() as int) =~= provider_names(r@));
    let keys = sorted_distinct(&providers);
    let ghost kv = strings_view(keys@);
    let mut m: Vec<(String, Value)> = Vec::new();
    let mut j: usize = 0;
    while j < keys.len()
        invariant
            kv == strings_view(keys@),
            kv == name_set(provider_names(r@)),
            j <= keys@.len(),
            view_entries(m@) == Seq::new(j as nat, |x: int| (kv[x], strs_val(name_set(regions_under(r@, kv[x], r@.len() as int))))),
        decreases keys@.len() - j,
    {
        let k = keys[j].as_str();
        assert(kv[j as int] == k@);
        let listed = regions_listed(r, k);
        let regions = sorted_distinct(&listed);
        let ghost before = view_entries(m@);
        let e = (to_owned_string(k), strings_value(&regions));
        m.push(e);
        assert(view_entries(m@) =~= before.push((k@, strs_val(name_set(regions_under(r@, k@, r@.len() as int))))));
        assert(view_entries(m@) =~= Seq::new((j + 1) as nat, |x: int| (kv[x], strs_val(name_set(regions_under(r@, kv[x], r@.len() as int))))));
        j = j + 1;
    }
    Value::Object(m)
}

proof fn lemma_name_set_len(s: Seq<Seq<char>>, n: int)
    requires
        0 <= n <= s.len(),
    ensures
        distinct_names(s, n).len() <= n,
    decreases n,
{
    if n > 0 {
        lemma_name_set_len(s, n - 1);
        crate::viz::groups::lemma_first_name_bounds(distinct_names(s, n - 1), s[n - 1]);
    }
}

/// The number of distinct names of a list.
fn name_count(v: &Vec<String>) -> (r: usize)
    ensures
        r == name_set(strings_view(v@)).len(),
        r <= v@.len(),
{
    proof { lemma_name_set_len(strings_view(v@), v@.len() as int); }
    sorted_distinct(v).len()
}

fn name_set_value(v: &Vec<String>) -> (r: Value)
    ensures
        r@ == strs_val(name_set(strings_view(v@))),
{
    strings_value(&sorted_distinct(v))
}

fn taxonomy_value(t: &Taxonomy) -> (r: Value)
    ensures
        r@ == taxonomy_val(*t),
{
    let m = vec![
        (key("tenants"), name_set_value(&t.tenants)),
        (key("environments"), name_set_value(&t.environments)),
        (key("cloud_providers"), name_set_value(&t.cloud_providers)),
        (key("regions"), regions_value(&t.regions)),
    ];
    assert(view_entries(m@) =~= match taxonomy_val(*t) { Val::Object(e) => e, _ => Seq::empty() });
    Value::Object(m)
}

/// The full topology as a structured value: ApplicationSets, charts,
/// edges, taxonomy and the number of configuration paths.
pub fn to_value(topology: &Topology) -> (r: Value)
    requires
        topology.config_paths@.len() <= i64::MAX,
    ensures
        r@ == topology_val(*topology),
{
    let mut appsets: Vec<Value> = Vec::new();
    let mut i: usize = 0;
    while i < topology.appsets.len()
        invariant
            i <= topology.appsets@.len(),
            appsets@.len() == i,
            forall|j: int| 0 <= j < i ==> #[trigger] appsets@[j]@ == appset_val(topology.appsets@[j]),
        decreases topology.appsets@.len() - i,
    {
        appsets.push(appset_value(&topology.appsets[i]));
        i = i + 1;
    }
    proof { lemma_view_values(appsets@); }
    assert(view_values(appsets@) =~= Seq::new(topology.appsets@.len(), |j: int| appset_val(topology.appsets@[j])));
    let mut charts: Vec<Value> = Vec::new();
    let mut i: usize = 0;
    while i < topology.charts.len()
        invariant
            i <= topology.charts@.len(),
            charts@.len() == i,
            forall|j: int| 0 <= j < i ==> #[trigger] charts@[j]@ == chart_val(topology.charts@[j]),
        decreases topology.charts@.len() - i,
    {
        charts.push(chart_value(&topology.charts[i]));
        i = i + 1;
    }
    proof { lemma_view_values(charts@); }
    assert(view_values(charts@) =~= Seq::new(topology.charts@.len(), |j: int| chart_val(topology.charts@[j])));
    let mut edges: Vec<Value> = Vec::new();
    let mut i: usize = 0;
    while i < topology.edges.len()
        invariant
            i <= topology.edges@.len(),
            edges@.len() == i,
            forall|j: int| 0 <= j < i ==> #[trigger] edges@[j]@ == edge_val(topology.edges@[j]),
        decreases topology.edges@.len() - i,
    {
        edges.push(edge_value(&topology.edges[i]));
        i = i + 1;
    }
    proof { lemma_view_values(edges@); }
    assert(view_values(edges@) =~= Seq::new(topology.edges@.len(), |j: int| edge_val(topology.edges@[j])));
    let m = vec![
        (key("appsets"), Value::Array(appsets)),
        (key("charts"), Value::Array(charts)),
        (key("edges"), Value::Array(edges)),
        (key("taxonomy"), taxonomy_value(&topology.taxonomy)),
        (key("config_paths_count"), Value::Int(topology.config_paths.len() as i64)),
    ];
    assert(view_entries(m@) =~= match topology_val(*topology) { Val::Object(e) => e, _ => Seq::empty() });
    Value::Object(m)
}


// ── Summary ────────────────────────────────────────────────────────

/// ApplicationSets among the first `n` with generator kind `g`.
pub open spec fn count_gen(a: Seq<AppSetInfo>, g: GeneratorType, n: int) -> int
    decreases n,
{
    if n <= 0 || n > a.len() {
        0
    } else {
        count_gen(a, g, n - 1) + if a[n - 1].generator_type == g { 1int } else { 0int }
    }
}

/// Charts among the first `n` of type `t`.
pub open spec fn count_chart_type(c: Seq<ChartInfo>, t: ChartType, n: int) -> int
    decreases n,
{
    if n <= 0 || n > c.len() {
        0
    } else {
        count_chart_type(c, t, n - 1) + if c[n - 1].chart_type == t { 1int } else { 0int }
    }
}

/// Edge kind: 0 deploys, 1 value file, 2 dependency.
pub open spec fn edge_kind(e: Edge) -> int {
    match e {
        Edge::AppSetToChart { .. } => 0,
        Edge::AppSetToValueFile { .. } => 1,
        Edge::ChartDependency { .. } => 2,
    }
}

/// Edges among the first `n` of kind `k`.
pub open spec fn count_edge_kind(e: Seq<Edge>, k: int, n: int) -> int
    decreases n,
{
    if n <= 0 || n > e.len() {
        0
    } else {
        count_edge_kind(e, k, n - 1) + if edge_kind(e[n - 1]) == k { 1int } else { 0int }
    }
}

/// Position of the first counter named `k`, or -1.
pub open spec fn counter_find(m: Seq<(Seq<char>, int)>, k: Seq<char>) -> int
    decreases m.len(),
{
    if m.len() == 0 {
        -1
    } else if m.last().0 == k && counter_find(m.drop_last(), k) == -1 {
        m.len() - 1
    } else {
        counter_find(m.drop_last(), k)
    }
}

/// File types of the first `n` configuration paths with their counts, in
/// order of first occurrence.
pub open spec fn type_counts(c: Seq<ConfigPath>, n: int) -> Seq<(Seq<char>, int)>
    decreases n,
{
    if n <= 0 || n > c.len() {
        Seq::empty()
    } else {
        let m = type_counts(c, n - 1);
        let k = c[n - 1].file_type@;
        let i = counter_find(m, k);
        if i >= 0 {
            m.update(i, (k, m[i].1 + 1))
        } else {
            m.push((k, 1int))
        }
    }
}

/// The counters as an object of integers.
pub open spec fn counters_val(m: Seq<(Seq<char>, int)>) -> Val {
    Val::Object(Seq::new(m.len(), |i: int| (m[i].0, Val::Int(m[i].1 as i64))))
}

/// Summary statistics of a topology.
pub open spec fn summary_val(t: Topology) -> Val {
    let a = t.appsets@;
    let c = t.charts@;
    let e = t.edges@;
    Val::Object(seq![
        ("appsets_count"@, Val::Int(a.len() as i64)),
        ("charts_count"@, Val::Int(c.len() as i64)),
        ("config_paths_count"@, Val::Int(t.config_paths@.len() as i64)),
        ("edges_count"@, Val::Int(e.len() as i64)),
        ("tenants_count"@, Val::Int(name_set(strings_view(t.taxonomy.tenants@)).len() as i64)),
        ("environments_count"@, Val::Int(name_set(strings_view(t.taxonomy.environments@)).len() as i64)),
        ("cloud_providers_count"@, Val::Int(name_set(strings_view(t.taxonomy.cloud_providers@)).len() as i64)),
        ("generators_by_type"@, Val::Object(seq![
            ("cluster"@, Val::Int(count_gen(a, GeneratorType::Cluster, a.len() as int) as i64)),
            ("git"@, Val::Int(count_gen(a, GeneratorType::Git, a.len() as int) as i64)),
            ("matrix"@, Val::Int(count_gen(a, GeneratorType::Matrix, a.len() as int) as i64)),
            ("list"@, Val::Int(count_gen(a, GeneratorType::List, a.len() as int) as i64)),
            ("unknown"@, Val::Int(count_gen(a, GeneratorType::Unknown, a.len() as int) as i64)),
        ])),
        ("charts_by_type"@, Val::Object(seq![
            ("application"@, Val::Int(count_chart_type(c, ChartType::Application, c.len() as int) as i64)),
            ("library"@, Val::Int(count_chart_type(c, ChartType::Library, c.len() as int) as i64)),
        ])),
        ("config_files_by_type"@, counters_val(type_counts(t.config_paths@, t.config_paths@.len() as int))),
        ("edges_by_type"@, Val::Object(seq![
            ("appset_to_chart"@, Val::Int(count_edge_kind(e, 0, e.len() as int) as i64)),
            ("appset_to_value_file"@, Val::Int(count_edge_kind(e, 1, e.len() as int) as i64)),
            ("chart_dependency"@, Val::Int(count_edge_kind(e, 2, e.len() as int) as i64)),
        ])),
    ])
}

/// Every list of the topology is short enough to count in an `i64`.
pub open spec fn countable(t: Topology) -> bool {
    &&& t.appsets@.len() <= i64::MAX
    &&& t.charts@.len() <= i64::MAX
    &&& t.config_paths@.len() <= i64::MAX
    &&& t.edges@.len() <= i64::MAX
    &&& t.taxonomy.tenants@.len() <= i64::MAX
    &&& t.taxonomy.environments@.len() <= i64::MAX
    &&& t.taxonomy.cloud_providers@.len() <= i64::MAX
}

proof fn lemma_counter_find(m: Seq<(Seq<char>, int)>, k: Seq<char>)
    ensures
        -1 <= counter_find(m, k) < m.len(),
        counter_find(m, k) >= 0 ==> m[counter_find(m, k)].0 == k,
        counter_find(m, k) >= 0 ==> forall|j: int| 0 <= j < counter_find(m, k) ==> m[j].0 != k,
        counter_find(m, k) == -1 ==> forall|j: int| 0 <= j < m.len() ==> m[j].0 != k,
    decreases m.len(),
{
    if m.len() > 0 {
        lemma_counter_find(m.drop_last(), k);
        assert forall|j: int| 0 <= j < m.len() - 1 implies m[j] == m.drop_last()[j] by {}
    }
}

proof fn lemma_type_counts_bounded(c: Seq<ConfigPath>, n: int)
    requires
        0 <= n <= c.len(),
    ensures
        forall|j: int| 0 <= j < type_counts(c, n).len() ==> 1 <= #[trigger] type_counts(c, n)[j].1 <= n,
        type_counts(c, n).len() <= n,
    decreases n,
{
    if n > 0 {
        lemma_type_counts_bounded(c, n - 1);
        lemma_counter_find(type_counts(c, n - 1), c[n - 1].file_type@);
    }
}

fn int_value(n: usize) -> (r: Value)
    requires
        n <= i64::MAX,
    ensures
        r@ == Val::Int(n as i64),
{
    Value::Int(n as i64)
}

/// Summary statistics: counts of everything, and breakdowns by generator
/// kind, chart type, configuration file type and edge kind.
pub fn to_summary(topology: &Topology) -> (r: Value)
    requires
        countable(*topology),
    ensures
        r@ == summary_val(*topology),
{
    let a = &topology.appsets;
    let mut cluster: i64 = 0;
    let mut git: i64 = 0;
    let mut matrix: i64 = 0;
    let mut list: i64 = 0;
    let mut unknown: i64 = 0;
    let mut i: usize = 0;
    while i < a.len()
        invariant
            a@ == topology.appsets@,
            a@.len() <= i64::MAX,
            i <= a@.len(),
            cluster == count_gen(a@, GeneratorType::Cluster, i as int),
            git == count_gen(a@, GeneratorType::Git, i as int),
            matrix == count_gen(a@, GeneratorType::Matrix, i as int),
            list == count_gen(a@, GeneratorType::List, i as int),
            unknown == count_gen(a@, GeneratorType::Unknown, i as int),
            cluster + git + matrix + list + unknown == i,
            0 <= cluster && 0 <= git && 0 <= matrix && 0 <= list && 0 <= unknown,
        decreases a@.len() - i,
    {
        match a[i].generator_type {
            GeneratorType::Cluster => cluster = cluster + 1,
            GeneratorType::Git => git = git + 1,
            GeneratorType::Matrix => matrix = matrix + 1,
            GeneratorType::List => list = list + 1,
            GeneratorType::Unknown => unknown = unknown + 1,
        }
        i = i + 1;
    }
    let generators = vec![
        (key("cluster"), Value::Int(cluster)),
        (key("git"), Value::Int(git)),
        (key("matrix"), Value::Int(matrix)),
        (key("list"), Value::Int(list)),
        (key("unknown"), Value::Int(unknown)),
    ];
    let c = &topology.charts;
    let mut app: i64 = 0;
    let mut lib: i64 = 0;
    let mut i: usize = 0;
    while i < c.len()
        invariant
            c@ == topology.charts@,
            c@.len() <= i64::MAX,
            i <= c@.len(),
            app == count_chart_type(c@, ChartType::Application, i as int),
            lib == count_chart_type(c@, ChartType::Library, i as int),
            app + lib == i,
            0 <= app && 0 <= lib,
        decreases c@.len() - i,
    {
        match c[i].chart_type {
            ChartType::Application => app = app + 1,
            ChartType::Library => lib = lib + 1,
        }
        i = i + 1;
    }
    let chart_types = vec![(key("application"), Value::Int(app)), (key("library"), Value::Int(lib))];
    let e = &topology.edges;
    let mut to_chart: i64 = 0;
    let mut to_vf: i64 = 0;
    let mut deps: i64 = 0;
    let mut i: usize = 0;
    while i < e.len()
        invariant
            e@ == topology.edges@,
            e@.len() <= i64::MAX,
            i <= e@.len(),
            to_chart == count_edge_kind(e@, 0, i as int),
            to_vf == count_edge_kind(e@, 1, i as int),
            deps == count_edge_kind(e@, 2, i as int),
            to_chart + to_vf + deps == i,
            0 <= to_chart && 0 <= to_vf && 0 <= deps,
        decreases e@.len() - i,
    {
        match &e[i] {
            Edge::AppSetToChart { .. } => to_chart = to_chart + 1,
            Edge::AppSetToValueFile { .. } => to_vf = to_vf + 1,
            Edge::ChartDependency { .. } => deps = deps + 1,
        }
        i = i + 1;
    }
    let edge_kinds = vec![
        (key("appset_to_chart"), Value::Int(to_chart)),
        (key("appset_to_value_file"), Value::Int(to_vf)),
        (key("chart_dependency"), Value::Int(deps)),
    ];
    let p = &topology.config_paths;
    let mut counts: Vec<(String, i64)> = Vec::new();
    let mut i: usize = 0;
    let ghost cv = Seq::new(counts@.len(), |j: int| (counts@[j].0@, counts@[j].1 as int));
    assert(Seq::new(counts@.len(), |j: int| (counts@[j].0@, counts@[j].1 as int)) =~= type_counts(p@, 0));
    while i < p.len()
        invariant
            p@ == topology.config_paths@,
            p@.len() <= i64::MAX,
            i <= p@.len(),
            Seq::new(counts@.len(), |j: int| (counts@[j].0@, counts@[j].1 as int)) == type_counts(p@, i as int),
        decreases p@.len() - i,
    {
        let ghost m = type_counts(p@, i as int);
        proof {
            lemma_type_counts_bounded(p@, i as int);
            lemma_counter_find(m, p@[i as int].file_type@);
        }
        let k = p[i].file_type.as_str();
        let mut j: usize = 0;
        while j < counts.len() && !str_eq(counts[j].0.as_str(), k)
            invariant
                j <= counts@.len(),
                m == Seq::new(counts@.len(), |x: int| (counts@[x].0@, counts@[x].1 as int)),
                forall|x: int| 0 <= x < j ==> m[x].0 != k@,
            decreases counts@.len() - j,
        {
            assert(m[j as int].0 == counts@[j as int].0@);
            j = j + 1;
        }
        if j < counts.len() {
            assert(m[j as int].0 == k@);
            assert(counter_find(m, k@) == j) by {
                if counter_find(m, k@) < j {
                    assert(m[counter_find(m, k@)].0 == k@);
                }
            }
            assert(m[j as int].1 <= i);
            let c0 = counts[j].1;
            counts.set(j, (to_owned_string(k), c0 + 1));
            assert(Seq::new(counts@.len(), |x: int| (counts@[x].0@, counts@[x].1 as int)) =~= m.update(j as int, (k@, m[j as int].1 + 1)));
        } else {
            assert(counter_find(m, k@) == -1) by {
                if counter_find(m, k@) >= 0 {
                    assert(m[counter_find(m, k@)].0 == k@);
                }
            }
            counts.push((to_owned_string(k), 1));
            assert(Seq::new(counts@.len(), |x: int| (counts@[x].0@, counts@[x].1 as int)) =~= m.push((k@, 1int)));
        }
        i = i + 1;
    }
    let ghost fin = type_counts(p@, p@.len() as int);
    let mut type_entries: Vec<(String, Value)> = Vec::new();
    let mut i: usize = 0;
    while i < counts.len()
        invariant
            i <= counts@.len(),
            type_entries@.len() == i,
            forall|j: int| #![trigger type_entries@[j]] 0 <= j < i ==> type_entries@[j].0@ == counts@[j].0@ && type_entries@[j].1@ == Val::Int(counts@[j].1),
        decreases counts@.len() - i,
    {
        type_entries.push((to_owned_string(counts[i].0.as_str()), Value::Int(counts[i].1)));
        i = i + 1;
    }
    assert(view_entries(type_entries@) =~= match counters_val(fin) { Val::Object(x) => x, _ => Seq::empty() }) by {
        assert forall|j: int| 0 <= j < type_entries@.len() implies view_entries(type_entries@)[j] == (fin[j].0, Val::Int(fin[j].1 as i64)) by {
            assert(type_entries@[j].0@ == counts@[j].0@ && type_entries@[j].1@ == Val::Int(counts@[j].1));
        }
    }
    let t = &topology.taxonomy;
    let ghost sv = summary_val(*topology);
    let gv = Value::Object(generators);
    assert(gv@ == sv->Object_0[7].1) by {
        assert(view_entries(generators@) =~= sv->Object_0[7].1->Object_0);
    }
    let cv2 = Value::Object(chart_types);
    assert(cv2@ == sv->Object_0[8].1) by {
        assert(view_entries(chart_types@) =~= sv->Object_0[8].1->Object_0);
    }
    let ev = Value::Object(edge_kinds);
    assert(ev@ == sv->Object_0[10].1) by {
        assert(view_entries(edge_kinds@) =~= sv->Object_0[10].1->Object_0);
    }
    let tv = Value::Object(type_entries);
    assert(tv@ == sv->Object_0[9].1);
    let m = vec![
        (key("appsets_count"), int_value(topology.appsets.len())),
        (key("charts_count"), int_value(topology.charts.len())),
        (key("config_paths_count"), int_value(topology.config_paths.len())),
        (key("edges_count"), int_value(topology.edges.len())),
        (key("tenants_count"), int_value(name_count(&t.tenants))),
        (key("environments_count"), int_value(name_count(&t.environments))),
        (key("cloud_providers_count"), int_value(name_count(&t.cloud_providers))),
        (key("generators_by_type"), gv),
        (key("charts_by_type"), cv2),
        (key("config_files_by_type"), tv),
        (key("edges_by_type"), ev),
    ];
    assert(view_entries(m@) =~= match summary_val(*topology) { Val::Object(x) => x, _ => Seq::empty() });
    Value::Object(m)
}


// ── Partial views ──────────────────────────────────────────────────

/// An ApplicationSet in the short listing form.
pub open spec fn appset_brief_val(a: AppSetInfo) -> Val {
    Val::Object(seq![
        ("name"@, Val::Str(a.name@)),
        ("generator_type"@, Val::Str(generator_name(a.generator_type))),
        ("chart_path"@, match a.chart_path { Some(p) => Val::Str(p@), None => Val::Null }),
        ("value_files"@, strs_val(strings_view(a.value_files@))),
        ("excluded_tenants"@, strs_val(strings_view(a.excluded_tenants@))),
    ])
}

/// A chart in the short listing form (an empty description is null).
pub open spec fn chart_brief_val(c: ChartInfo) -> Val {
    Val::Object(seq![
        ("name"@, Val::Str(c.name@)),
        ("version"@, Val::Str(c.version@)),
        ("chart_type"@, Val::Str(chart_type_name(c.chart_type))),
        ("description"@, if c.description@.len() == 0 { Val::Null } else { Val::Str(c.description@) }),
    ])
}

/// Just the ApplicationSets, as an array.
pub fn appsets_to_value(appsets: &[AppSetInfo]) -> (r: Value)
    ensures
        r@ == Val::Array(Seq::new(appsets@.len(), |i: int| appset_brief_val(appsets@[i]))),
{
    let mut out: Vec<Value> = Vec::new();
    let mut i: usize = 0;
    while i < appsets.len()
        invariant
            i <= appsets@.len(),
            out@.len() == i,
            forall|j: int| 0 <= j < i ==> #[trigger] out@[j]@ == appset_brief_val(appsets@[j]),
        decreases appsets@.len() - i,
    {
        let a = &appsets[i];
        let chart_path = match &a.chart_path {
            Some(p) => Value::string(p.as_str()),
            None => Value::Null,
        };
        let m = vec![
            (key("name"), Value::string(a.name.as_str())),
            (key("generator_type"), Value::string(a.generator_type.name())),
            (key("chart_path"), chart_path),
            (key("value_files"), strings_value(&a.value_files)),
            (key("excluded_tenants"), strings_value(&a.excluded_tenants)),
        ];
        assert(view_entries(m@) =~= appset_brief_val(*a)->Object_0);
        out.push(Value::Object(m));
        i = i + 1;
    }
    proof { lemma_view_values(out@); }
    assert(view_values(out@) =~= Seq::new(appsets@.len(), |i: int| appset_brief_val(appsets@[i])));
    Value::Array(out)
}

/// Just the charts, as an array.
pub fn charts_to_value(charts: &[ChartInfo]) -> (r: Value)
    ensures
        r@ == Val::Array(Seq::new(charts@.len(), |i: int| chart_brief_val(charts@[i]))),
{
    let mut out: Vec<Value> = Vec::new();
    let mut i: usize = 0;
    while i < charts.len()
        invariant
            i <= charts@.len(),
            out@.len() == i,
            forall|j: int| 0 <= j < i ==> #[trigger] out@[j]@ == chart_brief_val(charts@[j]),
        decreases charts@.len() - i,
    {
        let c = &charts[i];
        let description = if c.description.as_str().unicode_len() == 0 {
            Value::Null
        } else {
            Value::string(c.description.as_str())
        };
        let m = vec![
            (key("name"), Value::string(c.name.as_str())),
            (key("version"), Value::string(c.version.as_str())),
            (key("chart_type"), Value::string(c.chart_type.name())),
            (key("description"), description),
        ];
        assert(view_entries(m@) =~= chart_brief_val(*c)->Object_0);
        out.push(Value::Object(m));
        i = i + 1;
    }
    proof { lemma_view_values(out@); }
    assert(view_values(out@) =~= Seq::new(charts@.len(), |i: int| chart_brief_val(charts@[i])));
    Value::Array(out)
}

/// The environments view: taxonomy lists, regions and the number of
/// configuration paths.
pub open spec fn environments_val(n: nat, t: Taxonomy) -> Val {
    Val::Object(seq![
        ("tenants"@, strs_val(name_set(strings_view(t.tenants@)))),
        ("environments"@, strs_val(name_set(strings_view(t.environments@)))),
        ("cloud_providers"@, strs_val(name_set(strings_view(t.cloud_providers@)))),
        ("regions"@, regions_val(t.regions@)),
        ("config_paths_count"@, Val::Int(n as i64)),
    ])
}

/// Environments and taxonomy as a value.
pub fn environments_to_value(config_paths: &[ConfigPath], taxonomy: &Taxonomy) -> (r: Value)
    requires
        config_paths@.len() <= i64::MAX,
    ensures
        r@ == environments_val(config_paths@.len(), *taxonomy),
{
    let m = vec![
        (key("tenants"), name_set_value(&taxonomy.tenants)),
        (key("environments"), name_set_value(&taxonomy.environments)),
        (key("cloud_providers"), name_set_value(&taxonomy.cloud_providers)),
        (key("regions"), regions_value(&taxonomy.regions)),
        (key("config_paths_count"), int_value(config_paths.len())),
    ];
    assert(view_entries(m@) =~= environments_val(config_paths@.len(), *taxonomy)->Object_0);
    Value::Object(m)
}

// ── DOT ────────────────────────────────────────────────────────────

/// One character escaped for a DOT string.
pub open spec fn dot_char(c: char) -> Seq<char> {
    if c == '\\' {
        seq!['\\', '\\']
    } else if c == '"' {
        seq!['\\', '"']
    } else if c == '\n' {
        seq!['\\', 'n']
    } else {
        seq![c]
    }
}

/// A string escaped for DOT: backslashes, quotes and newlines.
pub open spec fn dot_escape_spec(s: Seq<char>) -> Seq<char>
    decreases s.len(),
{
    if s.len() == 0 {
        Seq::empty()
    } else {
        dot_escape_spec(s.drop_last()) + dot_char(s.last())
    }
}

/// Escapes backslashes, double quotes and newlines for a DOT string.
pub fn dot_escape(s: &str) -> (r: String)
    ensures
        r@ == dot_escape_spec(s@),
{
    let cs = chars_of(s);
    let mut r = String::new();
    let mut i: usize = 0;
    assert(r@ =~= dot_escape_spec(s@.subrange(0, 0)));
    while i < cs.len()
        invariant
            cs@ == s@,
            i <= cs@.len(),
            r@ == dot_escape_spec(s@.subrange(0, i as int)),
        decreases cs@.len() - i,
    {
        let ghost nxt = s@.subrange(0, i + 1);
        assert(nxt.drop_last() =~= s@.subrange(0, i as int));
        let c = cs[i];
        assert(nxt.last() == c);
        let ghost before = r@;
        if c == '\\' {
            push_char(&mut r, '\\');
            push_char(&mut r, '\\');
        } else if c == '"' {
            push_char(&mut r, '\\');
            push_char(&mut r, '"');
        } else if c == '\n' {
            push_char(&mut r, '\\');
            push_char(&mut r, 'n');
        } else {
            push_char(&mut r, c);
        }
        assert(r@ =~= before + dot_char(c));
        i = i + 1;
    }
    assert(s@.subrange(0, s@.len() as int) =~= s@);
    r
}

/// UTF-8 width of a character.
pub open spec fn utf8_width(c: char) -> nat {
    if (c as u32) < 0x80 { 1 } else if (c as u32) < 0x800 { 2 } else if (c as u32) < 0x10000 { 3 } else { 4 }
}

/// Length of a string in UTF-8 bytes (what `str::len` counts).
pub open spec fn utf8_len(s: Seq<char>) -> nat
    decreases s.len(),
{
    if s.len() == 0 {
        0
    } else {
        utf8_len(s.drop_last()) + utf8_width(s.last())
    }
}

/// `s` without its leading `../` segments.
pub open spec fn strip_parent_prefixes(s: Seq<char>) -> Seq<char>
    decreases s.len(),
{
    if s.len() >= 3 && s[0] == '.' && s[1] == '.' && s[2] == '/' {
        strip_parent_prefixes(s.subrange(3, s.len() as int))
    } else {
        s
    }
}

/// A value file path shortened for a label: leading `../` segments
/// dropped, and a result longer than 60 bytes reduced to its file name.
pub open spec fn shorten_spec(path: Seq<char>) -> Seq<char> {
    let s = strip_parent_prefixes(path);
    if utf8_len(s) > 60 {
        match file_name_spec(s) {
            Some(n) => n,
            None => s,
        }
    } else {
        s
    }
}

fn exceeds_utf8_len(cs: &Vec<char>, limit: usize) -> (r: bool)
    ensures
        r == (utf8_len(cs@) > limit),
{
    let mut total: usize = 0;
    let mut i: usize = 0;
    assert(cs@.subrange(0, 0) =~= Seq::<char>::empty());
    while i < cs.len()
        invariant
            i <= cs@.len(),
            total == utf8_len(cs@.subrange(0, i as int)),
            total <= limit,
        decreases cs@.len() - i,
    {
        let c = cs[i];
        let ghost nxt = cs@.subrange(0, i + 1);
        assert(nxt.drop_last() =~= cs@.subrange(0, i as int));
        let w: usize = if (c as u32) < 0x80 { 1 } else if (c as u32) < 0x800 { 2 } else if (c as u32) < 0x10000 { 3 } else { 4 };
        if w > limit - total {
            proof { lemma_utf8_len_prefix(cs@, i + 1); }
            return true;
        }
        total = total + w;
        i = i + 1;
    }
    assert(cs@.subrange(0, cs@.len() as int) =~= cs@);
    false
}

proof fn lemma_utf8_len_prefix(s: Seq<char>, k: int)
    requires
        0 <= k <= s.len(),
    ensures
        utf8_len(s.subrange(0, k)) <= utf8_len(s),
    decreases s.len() - k,
{
    if k < s.len() {
        lemma_utf8_len_prefix(s, k + 1);
        assert(s.subrange(0, k + 1).drop_last() =~= s.subrange(0, k));
    } else {
        assert(s.subrange(0, k) =~= s);
    }
}

/// Shortens a value file path for a DOT label (see [`shorten_spec`]).
pub fn shorten_value_path(path: &str) -> (r: String)
    ensures
        r@ == shorten_spec(path@),
{
    let cs = chars_of(path);
    let mut a: usize = 0;
    assert(path@.subrange(0, path@.len() as int) =~= path@);
    while cs.len() - a >= 3 && cs[a] == '.' && cs[a + 1] == '.' && cs[a + 2] == '/'
        invariant
            cs@ == path@,
            a <= cs@.len(),
            strip_parent_prefixes(path@) == strip_parent_prefixes(path@.subrange(a as int, path@.len() as int)),
        decreases cs@.len() - a,
    {
        let ghost cur = path@.subrange(a as int, path@.len() as int);
        assert(cur.subrange(3, cur.len() as int) =~= path@.subrange(a + 3, path@.len() as int));
        a = a + 3;
    }
    let ghost cur = path@.subrange(a as int, path@.len() as int);
    assert(strip_parent_prefixes(cur) == cur);
    let s = string_from_range(cs.as_slice(), a, cs.len());
    let scs = chars_of(s.as_str());
    if exceeds_utf8_len(&scs, 60) {
        match file_name(s.as_str()) {
            Some(n) => n,
            None => s,
        }
    } else {
        s
    }
}

/// Lines for one edge.
pub open spec fn edge_dot_lines(e: Edge) -> Seq<Seq<char>> {
    match e {
        Edge::AppSetToChart { appset, chart } => seq![
            "  \"appset:"@ + dot_escape_spec(appset@) + "\" -> \"chart:"@ + dot_escape_spec(chart@) + "\" [label=\"deploys\"];"@,
        ],
        Edge::AppSetToValueFile { appset, path } => {
            let short = shorten_spec(path@);
            let id = "vf:"@ + appset@ + ":"@ + short;
            seq![
                "  \""@ + dot_escape_spec(id) + "\" [label=\""@ + dot_escape_spec(short) + "\", shape=note, style=filled, fillcolor=\"#FFF176\"];"@,
                "  \"appset:"@ + dot_escape_spec(appset@) + "\" -> \""@ + dot_escape_spec(id) + "\" [label=\"values\", style=dashed];"@,
            ]
        },
        Edge::ChartDependency { parent, child } => seq![
            "  \"chart:"@ + dot_escape_spec(parent@) + "\" -> \"chart:"@ + dot_escape_spec(child@) + "\" [label=\"depends\", style=dotted];"@,
        ],
    }
}

/// The node line of an ApplicationSet (its label holds a literal `\n`).
pub open spec fn appset_dot_line(a: AppSetInfo) -> Seq<char> {
    "  \"appset:"@ + dot_escape_spec(a.name@) + "\" [label=\""@
        + dot_escape_spec(a.name@ + "\\n["@ + generator_name(a.generator_type) + "]"@)
        + "\", style=filled, fillcolor=\"#4FC3F7\"];"@
}

/// The node line of a chart (its label holds a literal `\n`).
pub open spec fn chart_dot_line(c: ChartInfo) -> Seq<char> {
    "  \"chart:"@ + dot_escape_spec(c.name@) + "\" [label=\""@
        + dot_escape_spec(c.name@ + "\\n"@ + c.version@)
        + "\", style=filled, fillcolor=\"#81C784\"];"@
}

/// Edge lines of the first `n` edges.
pub open spec fn edges_dot_lines(e: Seq<Edge>, n: int) -> Seq<Seq<char>>
    decreases n,
{
    if n <= 0 || n > e.len() {
        Seq::empty()
    } else {
        edges_dot_lines(e, n - 1) + edge_dot_lines(e[n - 1])
    }
}

/// All lines of the DOT rendering.
pub open spec fn dot_lines(t: Topology) -> Seq<Seq<char>> {
    seq!["digraph topology {"@, "  rankdir=LR;"@, "  node [shape=box];"@, ""@, "  // ApplicationSets"@]
        + Seq::new(t.appsets@.len(), |i: int| appset_dot_line(t.appsets@[i]))
        + seq![""@, "  // Helm Charts"@]
        + Seq::new(t.charts@.len(), |i: int| chart_dot_line(t.charts@[i]))
        + seq![""@, "  // Edges"@]
        + edges_dot_lines(t.edges@, t.edges@.len() as int)
        + seq!["}"@]
}

/// The DOT rendering: the lines joined with newlines.
pub open spec fn dot_spec(t: Topology) -> Seq<char> {
    join_spec(dot_lines(t), "\n"@)
}

fn appset_line(a: &AppSetInfo) -> (r: String)
    ensures
        r@ == appset_dot_line(*a),
{
    let mut label = to_owned_string(a.name.as_str());
    push_str(&mut label, "\\n[");
    push_str(&mut label, a.generator_type.name());
    push_str(&mut label, "]");
    let mut r = to_owned_string("  \"appset:");
    push_str(&mut r, dot_escape(a.name.as_str()).as_str());
    push_str(&mut r, "\" [label=\"");
    push_str(&mut r, dot_escape(label.as_str()).as_str());
    push_str(&mut r, "\", style=filled, fillcolor=\"#4FC3F7\"];");
    r
}

fn chart_line(c: &ChartInfo) -> (r: String)
    ensures
        r@ == chart_dot_line(*c),
{
    let mut label = to_owned_string(c.name.as_str());
    push_str(&mut label, "\\n");
    push_str(&mut label, c.version.as_str());
    let mut r = to_owned_string("  \"chart:");
    push_str(&mut r, dot_escape(c.name.as_str()).as_str());
    push_str(&mut r, "\" [label=\"");
    push_str(&mut r, dot_escape(label.as_str()).as_str());
    push_str(&mut r, "\", style=filled, fillcolor=\"#81C784\"];");
    r
}

fn push_edge_lines(lines: &mut Vec<String>, e: &Edge)
    ensures
        strings_view(final(lines)@) == strings_view(old(lines)@) + edge_dot_lines(*e),
{
    let ghost before = strings_view(lines@);
    match e {
        Edge::AppSetToChart { appset, chart } => {
            let mut l = to_owned_string("  \"appset:");
            push_str(&mut l, dot_escape(appset.as_str()).as_str());
            push_str(&mut l, "\" -> \"chart:");
            push_str(&mut l, dot_escape(chart.as_str()).as_str());
            push_str(&mut l, "\" [label=\"deploys\"];");
            lines.push(l);
            assert(strings_view(lines@) =~= before + edge_dot_lines(*e));
        },
        Edge::AppSetToValueFile { appset, path } => {
            let short = shorten_value_path(path.as_str());
            let mut id = to_owned_string("vf:");
            push_str(&mut id, appset.as_str());
            push_str(&mut id, ":");
            push_str(&mut id, short.as_str());
            let esc_id = dot_escape(id.as_str());
            let mut l1 = to_owned_string("  \"");
            push_str(&mut l1, esc_id.as_str());
            push_str(&mut l1, "\" [label=\"");
            push_str(&mut l1, dot_escape(short.as_str()).as_str());
            push_str(&mut l1, "\", shape=note, style=filled, fillcolor=\"#FFF176\"];");
            let mut l2 = to_owned_string("  \"appset:");
            push_str(&mut l2, dot_escape(appset.as_str()).as_str());
            push_str(&mut l2, "\" -> \"");
            push_str(&mut l2, esc_id.as_str());
            push_str(&mut l2, "\" [label=\"values\", style=dashed];");
            lines.push(l1);
            lines.push(l2);
            assert(strings_view(lines@) =~= before + edge_dot_lines(*e));
        },
        Edge::ChartDependency { parent, child } => {
            let mut l = to_owned_string("  \"chart:");
            push_str(&mut l, dot_escape(parent.as_str()).as_str());
            push_str(&mut l, "\" -> \"chart:");
            push_str(&mut l, dot_escape(child.as_str()).as_str());
            push_str(&mut l, "\" [label=\"depends\", style=dotted];");
            lines.push(l);
            assert(strings_view(lines@) =~= before + edge_dot_lines(*e));
        },
    }
}

fn push_line(lines: &mut Vec<String>, s: &str)
    ensures
        strings_view(final(lines)@) == strings_view(old(lines)@).push(s@),
{
    let ghost before = strings_view(lines@);
    lines.push(to_owned_string(s));
    assert(strings_view(lines@) =~= before.push(s@));
}

/// The Graphviz DOT rendering of the topology: ApplicationSet nodes,
/// chart nodes, and one or two lines per edge.
pub fn to_dot(topology: &Topology) -> (r: String)
    ensures
        r@ == dot_spec(*topology),
{
    let mut lines: Vec<String> = Vec::new();
    push_line(&mut lines, "digraph topology {");
    push_line(&mut lines, "  rankdir=LR;");
    push_line(&mut lines, "  node [shape=box];");
    push_line(&mut lines, "");
    push_line(&mut lines, "  // ApplicationSets");
    let ghost l0 = strings_view(lines@);
    let mut i: usize = 0;
    while i < topology.appsets.len()
        invariant
            i <= topology.appsets@.len(),
            strings_view(lines@) == l0 + Seq::new(i as nat, |j: int| appset_dot_line(topology.appsets@[j])),
        decreases topology.appsets@.len() - i,
    {
        let ghost before = strings_view(lines@);
        let l = appset_line(&topology.appsets[i]);
        let ghost lv = l@;
        lines.push(l);
        assert(strings_view(lines@) =~= before.push(lv));
        assert(strings_view(lines@) =~= l0 + Seq::new((i + 1) as nat, |j: int| appset_dot_line(topology.appsets@[j])));
        i = i + 1;
    }
    push_line(&mut lines, "");
    push_line(&mut lines, "  // Helm Charts");
    let ghost l1 = strings_view(lines@);
    let mut i: usize = 0;
    while i < topology.charts.len()
        invariant
            i <= topology.charts@.len(),
            strings_view(lines@) == l1 + Seq::new(i as nat, |j: int| chart_dot_line(topology.charts@[j])),
        decreases topology.charts@.len() - i,
    {
        let ghost before = strings_view(lines@);
        let l = chart_line(&topology.charts[i]);
        let ghost lv = l@;
        lines.push(l);
        assert(strings_view(lines@) =~= before.push(lv));
        assert(strings_view(lines@) =~= l1 + Seq::new((i + 1) as nat, |j: int| chart_dot_line(topology.charts@[j])));
        i = i + 1;
    }
    push_line(&mut lines, "");
    push_line(&mut lines, "  // Edges");
    let ghost l2 = strings_view(lines@);
    let mut i: usize = 0;
    assert(strings_view(lines@) =~= l2 + edges_dot_lines(topology.edges@, 0));
    while i < topology.edges.len()
        invariant
            i <= topology.edges@.len(),
            strings_view(lines@) == l2 + edges_dot_lines(topology.edges@, i as int),
        decreases topology.edges@.len() - i,
    {
        push_edge_lines(&mut lines, &topology.edges[i]);
        assert(strings_view(lines@) =~= l2 + edges_dot_lines(topology.edges@, i + 1));
        i = i + 1;
    }
    push_line(&mut lines, "}");
    assert(strings_view(lines@) =~= dot_lines(*topology));
    join_with(&lines, "\n")
}

} // verus!
