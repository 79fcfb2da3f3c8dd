//! Sorted groupings shared by the views: names grouped under sorted keys,
//! sorted name sets, and the lookups the views make on a topology.
use vstd::prelude::*;
use crate::scan::argocd::{AppSetInfo, generator_name};
use crate::scan::environments::ConfigPath;
use crate::scan::helm::{ChartDependency, ChartInfo, dep_view};
use crate::scan::topology::Edge;
use crate::text::{chars_of, push_char, str_eq, str_less, str_lt, strings_view, to_owned_string};

verus! {

/// Model of a grouping: keys with their member lists.
pub open spec fn groups_view(g: Seq<(String, Vec<String>)>) -> Seq<(Seq<char>, Seq<Seq<char>>)> {
    Seq::new(g.len(), |i: int| (g[i].0@, strings_view(g[i].1@)))
}

/// Position of the first key not below `k` (in `str_lt` order).
pub open spec fn first_not_below<M>(g: Seq<(Seq<char>, M)>, k: Seq<char>) -> int
    decreases g.len(),
{
    if g.len() == 0 {
        0
    } else if !str_lt(g[0].0, k) {
        0
    } else {
        first_not_below(g.drop_first(), k) + 1
    }
}

/// `m` added to the group of key `k`, the group created at its sorted
/// place when it does not exist.
pub open spec fn group_add(g: Seq<(Seq<char>, Seq<Seq<char>>)>, k: Seq<char>, m: Seq<char>) -> Seq<(Seq<char>, Seq<Seq<char>>)> {
    let p = first_not_below(g, k);
    if 0 <= p < g.len() && g[p].0 == k {
        g.update(p, (k, g[p].1.push(m)))
    } else {
        g.insert(p, (k, seq![m]))
    }
}

/// Position of the first name not below `k`.
pub open spec fn first_name_not_below(s: Seq<Seq<char>>, k: Seq<char>) -> int
    decreases s.len(),
{
    if s.len() == 0 {
        0
    } else if !str_lt(s[0], k) {
        0
    } else {
        first_name_not_below(s.drop_first(), k) + 1
    }
}

/// `k` added to a sorted name list, unless it is there.
pub open spec fn name_add(s: Seq<Seq<char>>, k: Seq<char>) -> Seq<Seq<char>> {
    let p = first_name_not_below(s, k);
    if 0 <= p < s.len() && s[p] == k { s } else { s.insert(p, k) }
}

proof fn lemma_first_not_below_bounds<M>(g: Seq<(Seq<char>, M)>, k: Seq<char>)
    ensures
        0 <= first_not_below(g, k) <= g.len(),
    decreases g.len(),
{
    if g.len() > 0 && str_lt(g[0].0, k) {
        lemma_first_not_below_bounds(g.drop_first(), k);
    }
}

pub(crate) proof fn lemma_first_name_bounds(s: Seq<Seq<char>>, k: Seq<char>)
    ensures
        0 <= first_name_not_below(s, k) <= s.len(),
    decreases s.len(),
{
    if s.len() > 0 && str_lt(s[0], k) {
        lemma_first_name_bounds(s.drop_first(), k);
    }
}

/// Adds `m` to the group of `k` (see [`group_add`]).
pub fn group_push(g: &mut Vec<(String, Vec<String>)>, k: &str, m: &str)
    ensures
        groups_view(final(g)@) == group_add(groups_view(old(g)@), k@, m@),
{
    let ghost gv = groups_view(g@);
    let mut p: usize = 0;
    assert(gv.subrange(0, gv.len() as int) =~= gv);
    while p < g.len() && str_less(g[p].0.as_str(), k)
        invariant
            gv == groups_view(g@),
            p <= g@.len(),
            first_not_below(gv, k@) == first_not_below(gv.subrange(p as int, gv.len() as int), k@) + p,
        decreases g@.len() - p,
    {
        let ghost rest = gv.subrange(p as int, gv.len() as int);
        assert(rest.drop_first() =~= gv.subrange(p + 1, gv.len() as int));
        assert(rest[0].0 == g@[p as int].0@);
        p = p + 1;
    }
    proof {
        let rest = gv.subrange(p as int, gv.len() as int);
        if p < g@.len() {
            assert(rest[0].0 == g@[p as int].0@);
        }
        assert(first_not_below(gv, k@) == p);
    }
    if p < g.len() && str_eq(g[p].0.as_str(), k) {
        let (key, mut members) = g.remove(p);
        let ghost before_m = strings_view(members@);
        members.push(to_owned_string(m));
        assert(strings_view(members@) =~= before_m.push(m@));
        g.insert(p, (key, members));
        assert(groups_view(g@) =~= gv.update(p as int, (k@, gv[p as int].1.push(m@))));
    } else {
        let members = vec![to_owned_string(m)];
        assert(strings_view(members@) =~= seq![m@]);
        g.insert(p, (to_owned_string(k), members));
        assert(groups_view(g@) =~= gv.insert(p as int, (k@, seq![m@])));
    }
}

/// Adds `k` to a sorted name list (see [`name_add`]).
pub fn name_insert(s: &mut Vec<String>, k: &str)
    ensures
        strings_view(final(s)@) == name_add(strings_view(old(s)@), k@),
{
    let ghost sv = strings_view(s@);
    let mut p: usize = 0;
    assert(sv.subrange(0, sv.len() as int) =~= sv);
    while p < s.len() && str_less(s[p].as_str(), k)
        invariant
            sv == strings_view(s@),
            p <= s@.len(),
            first_name_not_below(sv, k@) == first_name_not_below(sv.subrange(p as int, sv.len() as int), k@) + p,
        decreases s@.len() - p,
    {
        let ghost rest = sv.subrange(p as int, sv.len() as int);
        assert(rest.drop_first() =~= sv.subrange(p + 1, sv.len() as int));
        assert(rest[0] == s@[p as int]@);
        p = p + 1;
    }
    proof {
        let rest = sv.subrange(p as int, sv.len() as int);
        if p < s@.len() {
            assert(rest[0] == s@[p as int]@);
        }
    }
    if p < s.len() && str_eq(s[p].as_str(), k) {
        return;
    }
    s.insert(p, to_owned_string(k));
    assert(strings_view(s@) =~= sv.insert(p as int, k@));
}

/// Whether a sorted-or-not name list holds `k`.
pub fn names_contain(s: &Vec<String>, k: &str) -> (r: bool)
    ensures
        r == strings_view(s@).contains(k@),
{
    crate::text::strings_contain(s, k)
}

// ── Topology lookups ───────────────────────────────────────────────

/// Chart and ApplicationSet of each deploy edge among the first `n`.
pub open spec fn deploy_pairs(e: Seq<Edge>, n: int) -> Seq<(Seq<char>, Seq<char>)>
    decreases n,
{
    if n <= 0 || n > e.len() {
        Seq::empty()
    } else {
        deploy_pairs(e, n - 1) + match e[n - 1] {
            Edge::AppSetToChart { appset, chart } => seq![(chart@, appset@)],
            _ => Seq::empty(),
        }
    }
}

/// Groups of the first `n` pairs, keyed by their first component.
pub open spec fn groups_of(p: Seq<(Seq<char>, Seq<char>)>, n: int) -> Seq<(Seq<char>, Seq<Seq<char>>)>
    decreases n,
{
    if n <= 0 || n > p.len() {
        Seq::empty()
    } else {
        group_add(groups_of(p, n - 1), p[n - 1].0, p[n - 1].1)
    }
}

/// Sorted distinct second components of the first `n` pairs.
pub open spec fn members_of(p: Seq<(Seq<char>, Seq<char>)>, n: int) -> Seq<Seq<char>>
    decreases n,
{
    if n <= 0 || n > p.len() {
        Seq::empty()
    } else {
        name_add(members_of(p, n - 1), p[n - 1].1)
    }
}

/// The generator kind of the last ApplicationSet named `name` among the
/// first `n`, if any.
pub open spec fn last_gen(a: Seq<AppSetInfo>, name: Seq<char>, n: int) -> Option<Seq<char>>
    decreases n,
{
    if n <= 0 || n > a.len() {
        None
    } else if a[n - 1].name@ == name {
        Some(generator_name(a[n - 1].generator_type))
    } else {
        last_gen(a, name, n - 1)
    }
}

/// The generator kind shown for an ApplicationSet name: that of the last
/// ApplicationSet with the name, or `unknown`.
pub open spec fn gen_of(a: Seq<AppSetInfo>, name: Seq<char>) -> Seq<char> {
    match last_gen(a, name, a.len() as int) {
        Some(g) => g,
        None => "unknown"@,
    }
}

/// The generator kind shown for an ApplicationSet name.
pub fn gen_for(a: &[AppSetInfo], name: &str) -> (r: &'static str)
    ensures
        r@ == gen_of(a@, name@),
{
    let mut i: usize = a.len();
    while i > 0
        invariant
            i <= a@.len(),
            last_gen(a@, name@, a@.len() as int) == last_gen(a@, name@, i as int),
        decreases i,
    {
        if str_eq(a[i - 1].name.as_str(), name) {
            return a[i - 1].generator_type.name();
        }
        i = i - 1;
    }
    "unknown"
}

/// Groups deploy edges by chart (sorted), with the deploying
/// ApplicationSets of each in edge order.
pub fn chart_groups(e: &[Edge]) -> (r: Vec<(String, Vec<String>)>)
    ensures
        groups_view(r@) == groups_of(deploy_pairs(e@, e@.len() as int), deploy_pairs(e@, e@.len() as int).len() as int),
{
    let mut g: Vec<(String, Vec<String>)> = Vec::new();
    let mut i: usize = 0;
    assert(groups_view(g@) =~= groups_of(deploy_pairs(e@, 0), 0));
    while i < e.len()
        invariant
            i <= e@.len(),
            groups_view(g@) == groups_of(deploy_pairs(e@, i as int), deploy_pairs(e@, i as int).len() as int),
        decreases e@.len() - i,
    {
        let ghost pre = deploy_pairs(e@, i as int);
        match &e[i] {
            Edge::AppSetToChart { appset, chart } => {
                let ghost nxt = pre + seq![(chart@, appset@)];
                assert(deploy_pairs(e@, i + 1) == nxt);
                assert(nxt.subrange(0, pre.len() as int) =~= pre);
                proof { lemma_groups_prefix(nxt, pre.len() as int); }
                group_push(&mut g, chart.as_str(), appset.as_str());
            },
            _ => {
                assert(deploy_pairs(e@, i + 1) =~= pre);
            },
        }
        i = i + 1;
    }
    g
}

proof fn lemma_groups_prefix(p: Seq<(Seq<char>, Seq<char>)>, n: int)
    requires
        0 <= n <= p.len(),
    ensures
        groups_of(p, n) == groups_of(p.subrange(0, n), n),
        members_of(p, n) == members_of(p.subrange(0, n), n),
    decreases n,
{
    if n > 0 {
        lemma_groups_prefix(p, n - 1);
        lemma_groups_prefix(p.subrange(0, n), n - 1);
        assert(p.subrange(0, n).subrange(0, n - 1) =~= p.subrange(0, n - 1));
    }
}

/// The distinct ApplicationSet names with a deploy edge, sorted.
pub fn linked_names(e: &[Edge]) -> (r: Vec<String>)
    ensures
        strings_view(r@) == members_of(deploy_pairs(e@, e@.len() as int), deploy_pairs(e@, e@.len() as int).len() as int),
{
    let mut s: Vec<String> = Vec::new();
    let mut i: usize = 0;
    assert(strings_view(s@) =~= members_of(deploy_pairs(e@, 0), 0));
    while i < e.len()
        invariant
            i <= e@.len(),
            strings_view(s@) == members_of(deploy_pairs(e@, i as int), deploy_pairs(e@, i as int).len() as int),
        decreases e@.len() - i,
    {
        let ghost pre = deploy_pairs(e@, i as int);
        match &e[i] {
            Edge::AppSetToChart { appset, chart } => {
                let ghost nxt = pre + seq![(chart@, appset@)];
                assert(deploy_pairs(e@, i + 1) == nxt);
                assert(nxt.subrange(0, pre.len() as int) =~= pre);
                proof { lemma_groups_prefix(nxt, pre.len() as int); }
                name_insert(&mut s, appset.as_str());
            },
            _ => {
                assert(deploy_pairs(e@, i + 1) =~= pre);
            },
        }
        i = i + 1;
    }
    s
}

/// Mermaid node id: ASCII letters, digits and `_` kept, anything else `_`.
pub open spec fn sanitize_spec(s: Seq<char>) -> Seq<char> {
    Seq::new(s.len(), |i: int| if ('a' <= s[i] <= 'z') || ('A' <= s[i] <= 'Z') || ('0' <= s[i] <= '9') || s[i] == '_' { s[i] } else { '_' })
}

/// Turns a name into a valid Mermaid node id.
pub fn sanitize_id(name: &str) -> (r: String)
    ensures
        r@ == sanitize_spec(name@),
{
    let cs = chars_of(name);
    let mut r = String::new();
    let mut i: usize = 0;
    while i < cs.len()
        invariant
            cs@ == name@,
            i <= cs@.len(),
            r@ == sanitize_spec(name@).subrange(0, i as int),
        decreases cs@.len() - i,
    {
        let c = cs[i];
        let keep = ('a' <= c && c <= 'z') || ('A' <= c && c <= 'Z') || ('0' <= c && c <= '9') || c == '_';
        push_char(&mut r, if keep { c } else { '_' });
        assert(r@ =~= sanitize_spec(name@).subrange(0, i + 1));
        i = i + 1;
    }
    assert(sanitize_spec(name@).subrange(0, cs@.len() as int) =~= sanitize_spec(name@));
    r
}


// ── Chart dependencies ─────────────────────────────────────────────

/// Parent and child of each chart dependency edge among the first `n`.
pub open spec fn dep_pairs(e: Seq<Edge>, n: int) -> Seq<(Seq<char>, Seq<char>)>
    decreases n,
{
    if n <= 0 || n > e.len() {
        Seq::empty()
    } else {
        dep_pairs(e, n - 1) + match e[n - 1] {
            Edge::ChartDependency { parent, child } => seq![(parent@, child@)],
            _ => Seq::empty(),
        }
    }
}

/// The dependency tree of a list of edges: each parent (sorted) with its
/// children in edge order.
pub open spec fn dep_groups(e: Seq<Edge>) -> Seq<(Seq<char>, Seq<Seq<char>>)> {
    let p = dep_pairs(e, e.len() as int);
    groups_of(p, p.len() as int)
}

/// The sorted distinct names that are some chart's dependency.
pub open spec fn dependents(e: Seq<Edge>) -> Seq<Seq<char>> {
    let p = dep_pairs(e, e.len() as int);
    members_of(p, p.len() as int)
}

/// Groups chart dependency edges by parent (see [`dep_groups`]).
pub fn dependency_groups(e: &[Edge]) -> (r: Vec<(String, Vec<String>)>)
    ensures
        groups_view(r@) == dep_groups(e@),
{
    let mut g: Vec<(String, Vec<String>)> = Vec::new();
    let mut i: usize = 0;
    assert(groups_view(g@) =~= groups_of(dep_pairs(e@, 0), 0));
    while i < e.len()
        invariant
            i <= e@.len(),
            groups_view(g@) == groups_of(dep_pairs(e@, i as int), dep_pairs(e@, i as int).len() as int),
        decreases e@.len() - i,
    {
        let ghost pre = dep_pairs(e@, i as int);
        match &e[i] {
            Edge::ChartDependency { parent, child } => {
                let ghost nxt = pre + seq![(parent@, child@)];
                assert(dep_pairs(e@, i + 1) == nxt);
                assert(nxt.subrange(0, pre.len() as int) =~= pre);
                proof { lemma_groups_prefix(nxt, pre.len() as int); }
                group_push(&mut g, parent.as_str(), child.as_str());
            },
            _ => {
                assert(dep_pairs(e@, i + 1) =~= pre);
            },
        }
        i = i + 1;
    }
    g
}

/// The names that are some chart's dependency (see [`dependents`]).
pub fn dependent_names(e: &[Edge]) -> (r: Vec<String>)
    ensures
        strings_view(r@) == dependents(e@),
{
    let mut s: Vec<String> = Vec::new();
    let mut i: usize = 0;
    assert(strings_view(s@) =~= members_of(dep_pairs(e@, 0), 0));
    while i < e.len()
        invariant
            i <= e@.len(),
            strings_view(s@) == members_of(dep_pairs(e@, i as int), dep_pairs(e@, i as int).len() as int),
        decreases e@.len() - i,
    {
        let ghost pre = dep_pairs(e@, i as int);
        match &e[i] {
            Edge::ChartDependency { parent, child } => {
                let ghost nxt = pre + seq![(parent@, child@)];
                assert(dep_pairs(e@, i + 1) == nxt);
                assert(nxt.subrange(0, pre.len() as int) =~= pre);
                proof { lemma_groups_prefix(nxt, pre.len() as int); }
                name_insert(&mut s, child.as_str());
            },
            _ => {
                assert(dep_pairs(e@, i + 1) =~= pre);
            },
        }
        i = i + 1;
    }
    s
}

/// The number of chart dependency edges.
pub fn dependency_edge_count(e: &[Edge]) -> (r: usize)
    ensures
        r == dep_pairs(e@, e@.len() as int).len(),
{
    let mut c: usize = 0;
    let mut i: usize = 0;
    while i < e.len()
        invariant
            i <= e@.len(),
            c == dep_pairs(e@, i as int).len(),
            c <= i,
        decreases e@.len() - i,
    {
        match &e[i] {
            Edge::ChartDependency { .. } => {
                c = c + 1;
            },
            _ => {},
        }
        i = i + 1;
    }
    c
}

/// The members of the first group keyed `k`, if there is one.
pub open spec fn lookup(g: Seq<(Seq<char>, Seq<Seq<char>>)>, k: Seq<char>) -> Option<Seq<Seq<char>>>
    decreases g.len(),
{
    if g.len() == 0 {
        None
    } else if g[0].0 == k {
        Some(g[0].1)
    } else {
        lookup(g.drop_first(), k)
    }
}

/// Position of the first group keyed `k`, if there is one.
pub fn find_group(g: &Vec<(String, Vec<String>)>, k: &str) -> (r: Option<usize>)
    ensures
        match r {
            Some(i) => i < g@.len() && lookup(groups_view(g@), k@) == Some(strings_view(g@[i as int].1@)),
            None => lookup(groups_view(g@), k@) is None,
        },
{
    let ghost gv = groups_view(g@);
    let mut i: usize = 0;
    assert(gv.subrange(0, gv.len() as int) =~= gv);
    while i < g.len()
        invariant
            gv == groups_view(g@),
            i <= g@.len(),
            lookup(gv, k@) == lookup(gv.subrange(i as int, gv.len() as int), k@),
        decreases g@.len() - i,
    {
        let ghost rest = gv.subrange(i as int, gv.len() as int);
        assert(rest[0] == (g@[i as int].0@, strings_view(g@[i as int].1@)));
        if str_eq(g[i].0.as_str(), k) {
            return Some(i);
        }
        assert(rest.drop_first() =~= gv.subrange(i + 1, gv.len() as int));
        i = i + 1;
    }
    None
}

/// The last chart named `name` among the first `n`.
pub open spec fn last_chart(c: Seq<ChartInfo>, name: Seq<char>, n: int) -> Option<ChartInfo>
    decreases n,
{
    if n <= 0 || n > c.len() {
        None
    } else if c[n - 1].name@ == name {
        Some(c[n - 1])
    } else {
        last_chart(c, name, n - 1)
    }
}

/// The chart a name stands for: the last chart with that name.
pub open spec fn chart_named(c: Seq<ChartInfo>, name: Seq<char>) -> Option<ChartInfo> {
    last_chart(c, name, c.len() as int)
}

/// The chart a name stands for (see [`chart_named`]).
pub fn chart_for<'a>(c: &'a [ChartInfo], name: &str) -> (r: Option<&'a ChartInfo>)
    ensures
        match r {
            Some(x) => chart_named(c@, name@) == Some(*x),
            None => chart_named(c@, name@) is None,
        },
{
    let mut i: usize = c.len();
    while i > 0
        invariant
            i <= c@.len(),
            last_chart(c@, name@, c@.len() as int) == last_chart(c@, name@, i as int),
        decreases i,
    {
        if str_eq(c[i - 1].name.as_str(), name) {
            return Some(&c[i - 1]);
        }
        i = i - 1;
    }
    None
}

/// The first dependency named `name` in a dependency list.
pub open spec fn dep_in(d: Seq<ChartDependency>, name: Seq<char>) -> Option<(Seq<char>, Seq<char>, Seq<char>)>
    decreases d.len(),
{
    if d.len() == 0 {
        None
    } else if d[0].name@ == name {
        Some(dep_view(d[0]))
    } else {
        dep_in(d.drop_first(), name)
    }
}

/// The first dependency named `name`, searching the charts in order and
/// each chart's dependencies in order.
pub open spec fn find_dep(c: Seq<ChartInfo>, name: Seq<char>) -> Option<(Seq<char>, Seq<char>, Seq<char>)>
    decreases c.len(),
{
    if c.len() == 0 {
        None
    } else {
        match dep_in(c[0].dependencies@, name) {
            Some(d) => Some(d),
            None => find_dep(c.drop_first(), name),
        }
    }
}

fn dep_in_list<'a>(d: &'a Vec<ChartDependency>, name: &str) -> (r: Option<&'a ChartDependency>)
    ensures
        match r {
            Some(x) => dep_in(d@, name@) == Some(dep_view(*x)),
            None => dep_in(d@, name@) is None,
        },
{
    let mut j: usize = 0;
    assert(d@.subrange(0, d@.len() as int) =~= d@);
    while j < d.len()
        invariant
            j <= d@.len(),
            dep_in(d@, name@) == dep_in(d@.subrange(j as int, d@.len() as int), name@),
        decreases d@.len() - j,
    {
        if str_eq(d[j].name.as_str(), name) {
            return Some(&d[j]);
        }
        assert(d@.subrange(j as int, d@.len() as int).drop_first() =~= d@.subrange(j + 1, d@.len() as int));
        j = j + 1;
    }
    None
}

/// The first dependency named `name` (see [`find_dep`]).
pub fn find_dependency<'a>(c: &'a [ChartInfo], name: &str) -> (r: Option<&'a ChartDependency>)
    ensures
        match r {
            Some(x) => find_dep(c@, name@) == Some(dep_view(*x)),
            None => find_dep(c@, name@) is None,
        },
{
    let mut i: usize = 0;
    assert(c@.subrange(0, c@.len() as int) =~= c@);
    while i < c.len()
        invariant
            i <= c@.len(),
            find_dep(c@, name@) == find_dep(c@.subrange(i as int, c@.len() as int), name@),
        decreases c@.len() - i,
    {
        let ghost rest = c@.subrange(i as int, c@.len() as int);
        assert(rest[0] == c@[i as int]);
        match dep_in_list(&c[i].dependencies, name) {
            Some(d) => {
                return Some(d);
            },
            None => {},
        }
        assert(rest.drop_first() =~= c@.subrange(i + 1, c@.len() as int));
        i = i + 1;
    }
    None
}

/// The version shown for a dependency: that of the first dependency with
/// its name, or `?`.
pub open spec fn dep_version(c: Seq<ChartInfo>, name: Seq<char>) -> Seq<char> {
    match find_dep(c, name) {
        Some(d) => d.1,
        None => "?"@,
    }
}

/// The repository shown for a dependency: that of the first dependency
/// with its name, or nothing.
pub open spec fn dep_repo(c: Seq<ChartInfo>, name: Seq<char>) -> Seq<char> {
    match find_dep(c, name) {
        Some(d) => d.2,
        None => Seq::empty(),
    }
}

/// Names of the first `n` charts that neither have dependencies nor are one.
pub open spec fn standalone(c: Seq<ChartInfo>, g: Seq<(Seq<char>, Seq<Seq<char>>)>, h: Seq<Seq<char>>, n: int) -> Seq<Seq<char>>
    decreases n,
{
    if n <= 0 || n > c.len() {
        Seq::empty()
    } else {
        standalone(c, g, h, n - 1) + (if lookup(g, c[n - 1].name@) is None && !h.contains(c[n - 1].name@) {
            seq![c[n - 1].name@]
        } else {
            Seq::empty()
        })
    }
}

/// The standalone chart names (see [`standalone`]).
pub fn standalone_names(c: &[ChartInfo], g: &Vec<(String, Vec<String>)>, h: &Vec<String>) -> (r: Vec<String>)
    ensures
        strings_view(r@) == standalone(c@, groups_view(g@), strings_view(h@), c@.len() as int),
{
    let ghost gv = groups_view(g@);
    let ghost hv = strings_view(h@);
    let mut r: Vec<String> = Vec::new();
    let mut i: usize = 0;
    assert(strings_view(r@) =~= standalone(c@, gv, hv, 0));
    while i < c.len()
        invariant
            gv == groups_view(g@),
            hv == strings_view(h@),
            i <= c@.len(),
            strings_view(r@) == standalone(c@, gv, hv, i as int),
        decreases c@.len() - i,
    {
        let name = c[i].name.as_str();
        if find_group(g, name).is_none() && !names_contain(h, name) {
            let ghost before = strings_view(r@);
            r.push(to_owned_string(name));
            assert(strings_view(r@) =~= before.push(name@));
        }
        assert(strings_view(r@) =~= standalone(c@, gv, hv, i + 1));
        i = i + 1;
    }
    r
}



// ── Config file counts ─────────────────────────────────────────────

/// The sorted distinct names among the first `n` of `s`.
pub open spec fn distinct_names(s: Seq<Seq<char>>, n: int) -> Seq<Seq<char>>
    decreases n,
{
    if n <= 0 || n > s.len() {
        Seq::empty()
    } else {
        name_add(distinct_names(s, n - 1), s[n - 1])
    }
}

/// The sorted distinct names of a list (see [`distinct_names`]).
pub fn sorted_distinct(l: &Vec<String>) -> (r: Vec<String>)
    ensures
        strings_view(r@) == distinct_names(strings_view(l@), l@.len() as int),
{
    let ghost lv = strings_view(l@);
    let mut s: Vec<String> = Vec::new();
    let mut i: usize = 0;
    while i < l.len()
        invariant
            lv == strings_view(l@),
            i <= l@.len(),
            strings_view(s@) == distinct_names(lv, i as int),
        decreases l@.len() - i,
    {
        name_insert(&mut s, l[i].as_str());
        i = i + 1;
    }
    s
}

/// How many of the first `n` config files belong to tenant `t` and
/// environment `e` (and cloud provider `c`, when `by_cloud`).
pub open spec fn count_paths(p: Seq<ConfigPath>, t: Seq<char>, e: Seq<char>, c: Seq<char>, by_cloud: bool, n: int) -> nat
    decreases n,
{
    if n <= 0 || n > p.len() {
        0
    } else {
        count_paths(p, t, e, c, by_cloud, n - 1) + (if p[n - 1].tenant@ == t && p[n - 1].environment@ == e
            && (!by_cloud || p[n - 1].cloud_provider@ == c) { 1nat } else { 0nat })
    }
}

/// The config files of a tenant and environment (and cloud provider).
pub fn count_files(p: &[ConfigPath], t: &str, e: &str, c: &str, by_cloud: bool) -> (r: usize)
    ensures
        r == count_paths(p@, t@, e@, c@, by_cloud, p@.len() as int),
        r <= p@.len(),
{
    let mut k: usize = 0;
    let mut i: usize = 0;
    while i < p.len()
        invariant
            i <= p@.len(),
            k == count_paths(p@, t@, e@, c@, by_cloud, i as int),
            k <= i,
        decreases p@.len() - i,
    {
        if str_eq(p[i].tenant.as_str(), t) && str_eq(p[i].environment.as_str(), e)
            && (!by_cloud || str_eq(p[i].cloud_provider.as_str(), c)) {
            k = k + 1;
        }
        i = i + 1;
    }
    k
}

/// The config files of environment `e` (and cloud provider `c`) summed
/// over the first `n` tenants.
pub open spec fn tenant_total(p: Seq<ConfigPath>, ts: Seq<Seq<char>>, e: Seq<char>, c: Seq<char>, by_cloud: bool, n: int) -> nat
    decreases n,
{
    if n <= 0 || n > ts.len() {
        0
    } else {
        tenant_total(p, ts, e, c, by_cloud, n - 1) + count_paths(p, ts[n - 1], e, c, by_cloud, p.len() as int)
    }
}

proof fn lemma_total_step(acc: int, i: int, k: int, m: int)
    requires
        0 <= acc <= i * m,
        0 <= k <= m,
        0 <= i < 0xffff_ffff_ffff_ffff,
        0 <= m <= 0xffff_ffff_ffff_ffff,
    ensures
        acc + k <= (i + 1) * m,
        (i + 1) * m <= 0xffff_ffff_ffff_ffff * 0xffff_ffff_ffff_ffff,
{
    assert(acc + k <= (i + 1) * m) by (nonlinear_arith)
        requires
            acc <= i * m,
            k <= m,
    ;
    assert((i + 1) * m <= 0xffff_ffff_ffff_ffff * 0xffff_ffff_ffff_ffff) by (nonlinear_arith)
        requires
            0 <= i < 0xffff_ffff_ffff_ffff,
            0 <= m <= 0xffff_ffff_ffff_ffff,
    ;
}

/// The config files of an environment (and cloud provider) over all the
/// tenants of a list.
pub fn tenants_total(p: &[ConfigPath], ts: &Vec<String>, e: &str, c: &str, by_cloud: bool) -> (r: u128)
    ensures
        r == tenant_total(p@, strings_view(ts@), e@, c@, by_cloud, ts@.len() as int),
{
    let ghost tv = strings_view(ts@);
    let m: usize = p.len();
    let mut acc: u128 = 0;
    let mut i: usize = 0;
    while i < ts.len()
        invariant
            tv == strings_view(ts@),
            i <= ts@.len(),
            acc == tenant_total(p@, tv, e@, c@, by_cloud, i as int),
            m == p@.len(),
            acc <= (i as int) * (m as int),
        decreases ts@.len() - i,
    {
        let k = count_files(p, ts[i].as_str(), e, c, by_cloud);
        assert(tv[i as int] == ts@[i as int]@);
        proof {
            lemma_total_step(acc as int, i as int, k as int, m as int);
        }
        acc = acc + k as u128;
        i = i + 1;
    }
    acc
}


/// A Mermaid node id has as many characters as the name, each an ASCII
/// letter, digit or `_`; names of only such characters are their own id.
pub proof fn law_sanitized_ids(name: Seq<char>)
    ensures
        sanitize_spec(name).len() == name.len(),
        forall|i: int| 0 <= i < name.len() ==> {
            let c = #[trigger] sanitize_spec(name)[i];
            ('a' <= c <= 'z') || ('A' <= c <= 'Z') || ('0' <= c <= '9') || c == '_'
        },
        (forall|i: int| 0 <= i < name.len() ==> {
            let c = #[trigger] name[i];
            ('a' <= c <= 'z') || ('A' <= c <= 'Z') || ('0' <= c <= '9') || c == '_'
        }) ==> sanitize_spec(name) == name,
{
    if forall|i: int| 0 <= i < name.len() ==> {
        let c = #[trigger] name[i];
        ('a' <= c <= 'z') || ('A' <= c <= 'Z') || ('0' <= c <= '9') || c == '_'
    } {
        assert(sanitize_spec(name) =~= name);
    }
}

} // verus!
