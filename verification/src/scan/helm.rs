//! Helm `Chart.yaml` documents: name, version, description, chart type and
//! dependencies.
use vstd::prelude::*;
use crate::scan::ScanError;
use crate::text::{i64_text, int_text, str_eq, to_owned_string};
use crate::value::{Value, Val, val_get, opt_as_str, opt_array_or_empty, opt_str_or_empty, view_values, opt_view, array_or_empty, str_or_empty, opt_string};

verus! {

/// Metadata of a Helm chart.
#[derive(Debug)]
pub struct ChartInfo {
    /// Chart name.
    pub name: String,
    /// Chart version.
    pub version: String,
    /// Human-readable description.
    pub description: String,
    /// `application` or `library`.
    pub chart_type: ChartType,
    /// Subchart requirements.
    pub dependencies: Vec<ChartDependency>,
    /// Directory of the chart, relative to the repository root.
    pub chart_dir: String,
}

/// Helm chart type.
#[derive(Debug, Clone, Copy, PartialEq, Eq, Structural, Hash)]
pub enum ChartType {
    Application,
    Library,
}

/// Lowercase name of a chart type.
pub open spec fn chart_type_name(t: ChartType) -> Seq<char> {
    match t {
        ChartType::Application => "application"@,
        ChartType::Library => "library"@,
    }
}

impl ChartType {
    /// The lowercase name (`application` or `library`).
    pub fn name(&self) -> (r: &'static str)
        ensures
            r@ == chart_type_name(*self),
    {
        match self {
            ChartType::Application => "application",
            ChartType::Library => "library",
        }
    }
}

/// A dependency entry of `Chart.yaml`.
#[derive(Debug)]
pub struct ChartDependency {
    /// Dependency chart name.
    pub name: String,
    /// Required version.
    pub version: String,
    /// Helm repository URL.
    pub repository: String,
}

/// The `version` field as text: a string as it is, a float as it
/// displays, an integer in decimal; anything else gives the empty string.
pub open spec fn version_spec(v: Val) -> Seq<char> {
    match val_get(v, "version"@) {
        Some(Val::Str(s)) => s,
        Some(Val::Float(_, t)) => t,
        Some(Val::Int(n)) => int_text(n as int),
        _ => Seq::empty(),
    }
}

/// Model of a dependency.
pub open spec fn dep_view(d: ChartDependency) -> (Seq<char>, Seq<char>, Seq<char>) {
    (d.name@, d.version@, d.repository@)
}

/// Model of a list of dependencies.
pub open spec fn dep_views(s: Seq<ChartDependency>) -> Seq<(Seq<char>, Seq<char>, Seq<char>)> {
    Seq::new(s.len(), |i: int| dep_view(s[i]))
}

/// The dependency an element describes, when it has a string name.
pub open spec fn dep_of(e: Val) -> Option<(Seq<char>, Seq<char>, Seq<char>)> {
    match opt_as_str(val_get(e, "name"@)) {
        Some(n) => Some((n, version_spec(e), opt_str_or_empty(val_get(e, "repository"@)))),
        None => None,
    }
}

/// The dependencies among the elements of `a`.
pub open spec fn deps_in(a: Seq<Val>) -> Seq<(Seq<char>, Seq<char>, Seq<char>)>
    decreases a.len(),
{
    if a.len() == 0 {
        Seq::empty()
    } else {
        let pre = deps_in(a.drop_last());
        match dep_of(a.last()) {
            Some(d) => pre.push(d),
            None => pre,
        }
    }
}

/// `info` is the metadata of the chart document `v` in directory `dir`.
pub open spec fn chart_of(info: ChartInfo, v: Val, dir: Seq<char>) -> bool {
    &&& info.name@ == opt_str_or_empty(val_get(v, "name"@))
    &&& info.version@ == version_spec(v)
    &&& info.description@ == opt_str_or_empty(val_get(v, "description"@))
    &&& info.chart_type == (if opt_as_str(val_get(v, "type"@)) == Some("library"@) { ChartType::Library } else { ChartType::Application })
    &&& dep_views(info.dependencies@) == deps_in(opt_array_or_empty(val_get(v, "dependencies"@)))
    &&& info.chart_dir@ == dir
}

fn extract_version(value: &Value) -> (r: String)
    ensures
        r@ == version_spec(value@),
{
    match value.get("version") {
        Some(Value::String(s)) => to_owned_string(s.as_str()),
        Some(Value::Float(f)) => to_owned_string(f.text.as_str()),
        Some(Value::Int(n)) => i64_text(*n),
        _ => String::new(),
    }
}

/// Reads a `Chart.yaml` document.  Every document is accepted: missing
/// fields give empty values, and a type other than `library` means an
/// application chart.
pub fn parse_chart(value: &Value, chart_dir: &str) -> (r: Result<ChartInfo, ScanError>)
    ensures
        r matches Ok(info) && chart_of(info, value@, chart_dir@),
{
    let name = str_or_empty(value.get("name"));
    let version = extract_version(value);
    let description = str_or_empty(value.get("description"));
    let chart_type = match value.get("type") {
        Some(t) => match t.as_str() {
            Some(s) => if str_eq(s, "library") { ChartType::Library } else { ChartType::Application },
            None => ChartType::Application,
        },
        None => ChartType::Application,
    };
    let deps = array_or_empty(value.get("dependencies"));
    let ghost av = view_values(deps@);
    let mut dependencies: Vec<ChartDependency> = Vec::new();
    let mut i: usize = 0;
    assert(dep_views(dependencies@) =~= deps_in(av.subrange(0, 0)));
    while i < deps.len()
        invariant
            av == view_values(deps@),
            i <= deps@.len(),
            dep_views(dependencies@) == deps_in(av.subrange(0, i as int)),
        decreases deps@.len() - i,
    {
        let ghost nxt = av.subrange(0, i + 1);
        assert(nxt.drop_last() =~= av.subrange(0, i as int));
        let dep = &deps[i];
        assert(nxt.last() == dep@);
        let ghost before = dep_views(dependencies@);
        match opt_string(dep.get("name")) {
            Some(dep_name) => {
                let d = ChartDependency {
                    name: dep_name,
                    version: extract_version(dep),
                    repository: str_or_empty(dep.get("repository")),
                };
                dependencies.push(d);
                assert(dep_views(dependencies@) =~= before.push(dep_view(d)));
            },
            None => {},
        }
        i = i + 1;
    }
    assert(av.subrange(0, deps@.len() as int) =~= av);
    Ok(ChartInfo { name, version, description, chart_type, dependencies, chart_dir: to_owned_string(chart_dir) })
}

} // verus!
