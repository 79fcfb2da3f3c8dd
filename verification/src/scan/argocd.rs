//! ArgoCD ApplicationSet documents: generator type, cluster selectors,
//! chart path, value files, Helm parameters and excluded tenants.
use vstd::prelude::*;
use crate::scan::ScanError;
use crate::text::{str_eq, strings_view, to_owned_string};
use crate::value::{Value, Val, val_get, select_spec, opt_as_str, opt_array_or_empty, opt_str_or_empty, strs_in, view_values, opt_view, strings_of, array_or_empty, str_or_empty, opt_string};

verus! {

/// Metadata of one ApplicationSet.
#[derive(Debug)]
pub struct AppSetInfo {
    /// `metadata.name`.
    pub name: String,
    /// Kind of the first generator.
    pub generator_type: GeneratorType,
    /// Cluster selector match expressions (cluster and matrix generators).
    pub cluster_selectors: Vec<MatchExpression>,
    /// `spec.template.spec.source.path`.
    pub chart_path: Option<String>,
    /// `spec.template.spec.source.helm.valueFiles`.
    pub value_files: Vec<String>,
    /// `spec.template.spec.source.helm.parameters`.
    pub helm_parameters: Vec<HelmParameter>,
    /// Tenants excluded by `NotIn` expressions on the `tenant` key.
    pub excluded_tenants: Vec<String>,
    /// File paths of git generators.
    pub git_file_paths: Vec<String>,
    /// The file the document came from.
    pub source_file: String,
}

/// The kind of generator an ApplicationSet uses.
#[derive(Debug, Clone, Copy, PartialEq, Eq, Structural, Hash)]
pub enum GeneratorType {
    Cluster,
    Git,
    Matrix,
    List,
    Unknown,
}

/// Lowercase name of a generator kind.
pub open spec fn generator_name(g: GeneratorType) -> Seq<char> {
    match g {
        GeneratorType::Cluster => "cluster"@,
        GeneratorType::Git => "git"@,
        GeneratorType::Matrix => "matrix"@,
        GeneratorType::List => "list"@,
        GeneratorType::Unknown => "unknown"@,
    }
}

impl GeneratorType {
    /// The lowercase name (`cluster`, `git`, `matrix`, `list`, `unknown`).
    pub fn name(&self) -> (r: &'static str)
        ensures
            r@ == generator_name(*self),
    {
        match self {
            GeneratorType::Cluster => "cluster",
            GeneratorType::Git => "git",
            GeneratorType::Matrix => "matrix",
            GeneratorType::List => "list",
            GeneratorType::Unknown => "unknown",
        }
    }
}

/// A Kubernetes label selector expression.
#[derive(Debug)]
pub struct MatchExpression {
    pub key: String,
    pub operator: String,
    pub values: Vec<String>,
}

/// A Helm parameter.
#[derive(Debug)]
pub struct HelmParameter {
    pub name: String,
    pub value: String,
}

/// Model of a match expression.
pub open spec fn match_view(m: MatchExpression) -> (Seq<char>, Seq<char>, Seq<Seq<char>>) {
    (m.key@, m.operator@, strings_view(m.values@))
}

/// Model of a list of match expressions.
pub open spec fn match_views(s: Seq<MatchExpression>) -> Seq<(Seq<char>, Seq<char>, Seq<Seq<char>>)> {
    Seq::new(s.len(), |i: int| match_view(s[i]))
}

/// Model of a list of Helm parameters.
pub open spec fn param_views(s: Seq<HelmParameter>) -> Seq<(Seq<char>, Seq<char>)> {
    Seq::new(s.len(), |i: int| (s[i].name@, s[i].value@))
}

/// A string field of an object value.
pub open spec fn field_str(v: Val, k: Seq<char>) -> Option<Seq<char>> {
    opt_as_str(val_get(v, k))
}

/// The match expression an element describes, when `key` and
/// `operator` are strings; missing or non-string values give none.
pub open spec fn match_of(e: Val) -> Option<(Seq<char>, Seq<char>, Seq<Seq<char>>)> {
    match (field_str(e, "key"@), field_str(e, "operator"@)) {
        (Some(k), Some(o)) => Some((k, o, strs_in(opt_array_or_empty(val_get(e, "values"@))))),
        _ => None,
    }
}

/// The match expressions of the elements of `a`.
pub open spec fn matches_in(a: Seq<Val>) -> Seq<(Seq<char>, Seq<char>, Seq<Seq<char>>)>
    decreases a.len(),
{
    if a.len() == 0 {
        Seq::empty()
    } else {
        let pre = matches_in(a.drop_last());
        match match_of(a.last()) {
            Some(m) => pre.push(m),
            None => pre,
        }
    }
}

/// The match expressions of a clusters generator.
pub open spec fn cluster_matches(c: Val) -> Seq<(Seq<char>, Seq<char>, Seq<Seq<char>>)> {
    matches_in(opt_array_or_empty(select_spec(c, "selector.matchExpressions"@)))
}

/// The `path` strings of the elements of `a`.
pub open spec fn paths_in(a: Seq<Val>) -> Seq<Seq<char>>
    decreases a.len(),
{
    if a.len() == 0 {
        Seq::empty()
    } else {
        let pre = paths_in(a.drop_last());
        match field_str(a.last(), "path"@) {
            Some(p) => pre.push(p),
            None => pre,
        }
    }
}

/// The file paths of a git generator.
pub open spec fn git_paths(g: Val) -> Seq<Seq<char>> {
    paths_in(opt_array_or_empty(val_get(g, "files"@)))
}

/// Selectors of the nested generators of a matrix, first `n` of them.
pub open spec fn matrix_matches(a: Seq<Val>, n: int) -> Seq<(Seq<char>, Seq<char>, Seq<Seq<char>>)>
    decreases n,
{
    if n <= 0 || n > a.len() {
        Seq::empty()
    } else {
        matrix_matches(a, n - 1) + match val_get(a[n - 1], "clusters"@) {
            Some(c) => cluster_matches(c),
            None => Seq::empty(),
        }
    }
}

/// Git paths of the nested generators of a matrix, first `n` of them.
pub open spec fn matrix_git_paths(a: Seq<Val>, n: int) -> Seq<Seq<char>>
    decreases n,
{
    if n <= 0 || n > a.len() {
        Seq::empty()
    } else {
        matrix_git_paths(a, n - 1) + match val_get(a[n - 1], "git"@) {
            Some(g) => git_paths(g),
            None => Seq::empty(),
        }
    }
}

/// Generator kind, selectors and git paths, from the first generator.
pub open spec fn generators_spec(gens: Seq<Val>) -> (GeneratorType, Seq<(Seq<char>, Seq<char>, Seq<Seq<char>>)>, Seq<Seq<char>>) {
    if gens.len() == 0 {
        (GeneratorType::Unknown, Seq::empty(), Seq::empty())
    } else {
        let first = gens[0];
        match val_get(first, "matrix"@) {
            Some(m) => {
                let nested = opt_array_or_empty(select_spec(m, "generators"@));
                (GeneratorType::Matrix, matrix_matches(nested, nested.len() as int), matrix_git_paths(nested, nested.len() as int))
            },
            None => match val_get(first, "clusters"@) {
                Some(c) => (GeneratorType::Cluster, cluster_matches(c), Seq::empty()),
                None => match val_get(first, "git"@) {
                    Some(g) => (GeneratorType::Git, Seq::empty(), git_paths(g)),
                    None => if val_get(first, "list"@) is Some {
                        (GeneratorType::List, Seq::empty(), Seq::empty())
                    } else {
                        (GeneratorType::Unknown, Seq::empty(), Seq::empty())
                    },
                },
            },
        }
    }
}

/// Values of the selectors with key `tenant` and operator `NotIn`, in order.
pub open spec fn excluded_spec(s: Seq<(Seq<char>, Seq<char>, Seq<Seq<char>>)>) -> Seq<Seq<char>>
    decreases s.len(),
{
    if s.len() == 0 {
        Seq::empty()
    } else {
        excluded_spec(s.drop_last()) + if s.last().0 == "tenant"@ && s.last().1 == "NotIn"@ {
            s.last().2
        } else {
            Seq::empty()
        }
    }
}

/// The parameter an element describes, when `name` and `value` are strings.
pub open spec fn param_of(e: Val) -> Option<(Seq<char>, Seq<char>)> {
    match (field_str(e, "name"@), field_str(e, "value"@)) {
        (Some(n), Some(v)) => Some((n, v)),
        _ => None,
    }
}

/// The Helm parameters of the elements of `a`.
pub open spec fn params_in(a: Seq<Val>) -> Seq<(Seq<char>, Seq<char>)>
    decreases a.len(),
{
    if a.len() == 0 {
        Seq::empty()
    } else {
        let pre = params_in(a.drop_last());
        match param_of(a.last()) {
            Some(p) => pre.push(p),
            None => pre,
        }
    }
}

/// `info` is the metadata of the ApplicationSet document `v` read from `src`.
pub open spec fn appset_of(info: AppSetInfo, v: Val, src: Seq<char>) -> bool {
    let gens = generators_spec(opt_array_or_empty(select_spec(v, "spec.generators"@)));
    &&& info.name@ == opt_str_or_empty(select_spec(v, "metadata.name"@))
    &&& info.generator_type == gens.0
    &&& match_views(info.cluster_selectors@) == gens.1
    &&& strings_view(info.git_file_paths@) == gens.2
    &&& strings_view(info.excluded_tenants@) == excluded_spec(gens.1)
    &&& match info.chart_path {
        Some(p) => opt_as_str(select_spec(v, "spec.template.spec.source.path"@)) == Some(p@),
        None => opt_as_str(select_spec(v, "spec.template.spec.source.path"@)) is None,
    }
    &&& strings_view(info.value_files@) == strs_in(opt_array_or_empty(select_spec(v, "spec.template.spec.source.helm.valueFiles"@)))
    &&& param_views(info.helm_parameters@) == params_in(opt_array_or_empty(select_spec(v, "spec.template.spec.source.helm.parameters"@)))
    &&& info.source_file@ == src
}

fn match_expressions_of(exprs: &[Value], out: &mut Vec<MatchExpression>)
    ensures
        match_views(final(out)@) == match_views(old(out)@) + matches_in(view_values(exprs@)),
{
    let ghost start = match_views(out@);
    let ghost av = view_values(exprs@);
    let mut i: usize = 0;
    assert(start + matches_in(av.subrange(0, 0)) =~= start);
    while i < exprs.len()
        invariant
            av == view_values(exprs@),
            i <= exprs@.len(),
            match_views(out@) == start + matches_in(av.subrange(0, i as int)),
        decreases exprs@.len() - i,
    {
        let ghost nxt = av.subrange(0, i + 1);
        assert(nxt.drop_last() =~= av.subrange(0, i as int));
        let e = &exprs[i];
        assert(nxt.last() == e@);
        let ghost before = match_views(out@);
        let k = opt_string(e.get("key"));
        let o = opt_string(e.get("operator"));
        match (k, o) {
            (Some(key), Some(operator)) => {
                let values = strings_of(array_or_empty(e.get("values")));
                let m = MatchExpression { key, operator, values };
                out.push(m);
                assert(match_views(out@) =~= before.push(match_view(m)));
            },
            _ => {},
        }
        i = i + 1;
    }
    assert(av.subrange(0, exprs@.len() as int) =~= av);
}

fn cluster_matches_of(c: &Value, out: &mut Vec<MatchExpression>)
    ensures
        match_views(final(out)@) == match_views(old(out)@) + cluster_matches(c@),
{
    match_expressions_of(array_or_empty(c.select("selector.matchExpressions")), out);
}

fn git_paths_of(g: &Value, out: &mut Vec<String>)
    ensures
        strings_view(final(out)@) == strings_view(old(out)@) + git_paths(g@),
{
    let files = array_or_empty(g.get("files"));
    let ghost start = strings_view(out@);
    let ghost av = view_values(files@);
    let mut i: usize = 0;
    assert(start + paths_in(av.subrange(0, 0)) =~= start);
    while i < files.len()
        invariant
            av == view_values(files@),
            av == opt_array_or_empty(val_get(g@, "files"@)),
            i <= files@.len(),
            strings_view(out@) == start + paths_in(av.subrange(0, i as int)),
        decreases files@.len() - i,
    {
        let ghost nxt = av.subrange(0, i + 1);
        assert(nxt.drop_last() =~= av.subrange(0, i as int));
        assert(nxt.last() == files@[i as int]@);
        let ghost before = strings_view(out@);
        match opt_string(files[i].get("path")) {
            Some(p) => {
                out.push(p);
                assert(strings_view(out@) =~= before.push(p@));
            },
            None => {},
        }
        i = i + 1;
    }
    assert(av.subrange(0, files@.len() as int) =~= av);
}

fn parse_generators(gens: &[Value]) -> (r: (GeneratorType, Vec<MatchExpression>, Vec<String>))
    ensures
        (r.0, match_views(r.1@), strings_view(r.2@)) == generators_spec(view_values(gens@)),
{
    let mut sels: Vec<MatchExpression> = Vec::new();
    let mut gits: Vec<String> = Vec::new();
    assert(match_views(sels@) =~= Seq::empty());
    assert(strings_view(gits@) =~= Seq::empty());
    if gens.len() == 0 {
        return (GeneratorType::Unknown, sels, gits);
    }
    let first = &gens[0];
    assert(view_values(gens@)[0] == first@);
    if let Some(matrix) = first.get("matrix") {
        let nested = array_or_empty(matrix.select("generators"));
        let ghost nv = view_values(nested@);
        let mut i: usize = 0;
        while i < nested.len()
            invariant
                nv == view_values(nested@),
                i <= nested@.len(),
                match_views(sels@) == matrix_matches(nv, i as int),
                strings_view(gits@) == matrix_git_paths(nv, i as int),
            decreases nested@.len() - i,
        {
            let g = &nested[i];
            assert(nv[i as int] == g@);
            let ghost s0 = match_views(sels@);
            let ghost g0 = strings_view(gits@);
            if let Some(c) = g.get("clusters") {
                cluster_matches_of(c, &mut sels);
            } else {
                assert(match_views(sels@) =~= s0 + Seq::empty());
            }
            if let Some(gt) = g.get("git") {
                git_paths_of(gt, &mut gits);
            } else {
                assert(strings_view(gits@) =~= g0 + Seq::empty());
            }
            i = i + 1;
        }
        return (GeneratorType::Matrix, sels, gits);
    }
    if let Some(c) = first.get("clusters") {
        cluster_matches_of(c, &mut sels);
        assert(match_views(sels@) =~= cluster_matches(c@));
        return (GeneratorType::Cluster, sels, gits);
    }
    if let Some(g) = first.get("git") {
        git_paths_of(g, &mut gits);
        assert(strings_view(gits@) =~= git_paths(g@));
        return (GeneratorType::Git, sels, gits);
    }
    if first.get("list").is_some() {
        return (GeneratorType::List, sels, gits);
    }
    (GeneratorType::Unknown, sels, gits)
}

fn excluded_tenants(sels: &Vec<MatchExpression>) -> (r: Vec<String>)
    ensures
        strings_view(r@) == excluded_spec(match_views(sels@)),
{
    let ghost mv = match_views(sels@);
    let mut r: Vec<String> = Vec::new();
    let mut i: usize = 0;
    assert(strings_view(r@) =~= excluded_spec(mv.subrange(0, 0)));
    while i < sels.len()
        invariant
            mv == match_views(sels@),
            i <= sels@.len(),
            strings_view(r@) == excluded_spec(mv.subrange(0, i as int)),
        decreases sels@.len() - i,
    {
        let ghost nxt = mv.subrange(0, i + 1);
        assert(nxt.drop_last() =~= mv.subrange(0, i as int));
        assert(nxt.last() == match_view(sels@[i as int]));
        let e = &sels[i];
        let ghost before = strings_view(r@);
        if str_eq(e.key.as_str(), "tenant") && str_eq(e.operator.as_str(), "NotIn") {
            let mut j: usize = 0;
            while j < e.values.len()
                invariant
                    i < sels@.len(),
                    *e == sels@[i as int],
                    j <= e.values@.len(),
                    strings_view(r@) == before + strings_view(e.values@).subrange(0, j as int),
                decreases e.values@.len() - j,
            {
                let ghost b2 = strings_view(r@);
                r.push(to_owned_string(e.values[j].as_str()));
                assert(strings_view(r@) =~= b2.push(e.values@[j as int]@));
                assert(strings_view(r@) =~= before + strings_view(e.values@).subrange(0, j + 1));
                j = j + 1;
            }
            assert(strings_view(e.values@).subrange(0, e.values@.len() as int) =~= strings_view(e.values@));
        } else {
            assert(strings_view(r@) =~= before + Seq::empty());
        }
        assert(strings_view(r@) =~= excluded_spec(nxt));
        i = i + 1;
    }
    assert(mv.subrange(0, sels@.len() as int) =~= mv);
    r
}

fn helm_parameters(ps: &[Value]) -> (r: Vec<HelmParameter>)
    ensures
        param_views(r@) == params_in(view_values(ps@)),
{
    let ghost av = view_values(ps@);
    let mut r: Vec<HelmParameter> = Vec::new();
    let mut i: usize = 0;
    assert(param_views(r@) =~= params_in(av.subrange(0, 0)));
    while i < ps.len()
        invariant
            av == view_values(ps@),
            i <= ps@.len(),
            param_views(r@) == params_in(av.subrange(0, i as int)),
        decreases ps@.len() - i,
    {
        let ghost nxt = av.subrange(0, i + 1);
        assert(nxt.drop_last() =~= av.subrange(0, i as int));
        assert(nxt.last() == ps@[i as int]@);
        let ghost before = param_views(r@);
        match (opt_string(ps[i].get("name")), opt_string(ps[i].get("value"))) {
            (Some(name), Some(value)) => {
                let hp = HelmParameter { name, value };
                r.push(hp);
                assert(param_views(r@) =~= before.push((hp.name@, hp.value@)));
            },
            _ => {},
        }
        i = i + 1;
    }
    assert(av.subrange(0, ps@.len() as int) =~= av);
    r
}

/// Reads an ApplicationSet document.  Every document is accepted: missing
/// parts give empty or absent fields.
pub fn parse_appset(value: &Value, source_file: &str) -> (r: Result<AppSetInfo, ScanError>)
    ensures
        r matches Ok(info) && appset_of(info, value@, source_file@),
{
    let name = str_or_empty(value.select("metadata.name"));
    let generators = array_or_empty(value.select("spec.generators"));
    let (generator_type, cluster_selectors, git_file_paths) = parse_generators(generators);
    let excluded = excluded_tenants(&cluster_selectors);
    let chart_path = opt_string(value.select("spec.template.spec.source.path"));
    let value_files = strings_of(array_or_empty(value.select("spec.template.spec.source.helm.valueFiles")));
    let helm_params = helm_parameters(array_or_empty(value.select("spec.template.spec.source.helm.parameters")));
    Ok(AppSetInfo {
        name,
        generator_type,
        cluster_selectors,
        chart_path,
        value_files,
        helm_parameters: helm_params,
        excluded_tenants: excluded,
        git_file_paths,
        source_file: to_owned_string(source_file),
    })
}

} // verus!
