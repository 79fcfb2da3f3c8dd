//! GitHub-flavoured Markdown views with Mermaid diagrams.
use vstd::prelude::*;
use crate::scan::argocd::{AppSetInfo, generator_name};
use crate::scan::topology::{Edge, Topology};
use crate::text::{u128_text, sum_text, copy_strings, nat_text, push_str, str_eq, strings_view, to_owned_string, usize_text};
use crate::scan::environments::ConfigPath;
use crate::scan::helm::ChartInfo;
use crate::viz::dep_walk::{Emission, Walk, chart_walk, node_list, included, node_names, distinct_count, included_names, walk_charts};
use crate::viz::groups::{sorted_distinct, count_paths, count_files, tenant_total, tenants_total, distinct_names, dep_groups, dependents, dep_pairs, standalone, chart_named, chart_for, dependency_groups, dependent_names, dependency_edge_count, standalone_names, groups_view, group_add, group_push, name_add, name_insert, names_contain, deploy_pairs, groups_of, members_of, gen_of, gen_for, chart_groups, linked_names, sanitize_spec, sanitize_id};

verus! {

/// Most nodes a chart dependency diagram shows.
pub const MAX_CHART_NODES: usize = 80;

/// Most charts a deployment diagram shows.
pub const MAX_DEPLOY_CHARTS: usize = 30;

// ── Deployment topology ────────────────────────────────────────────

/// Position of the first group with fewer members than `c`.
pub open spec fn first_smaller(s: Seq<(Seq<char>, Seq<Seq<char>>)>, c: nat) -> int
    decreases s.len(),
{
    if s.len() == 0 {
        0
    } else if s[0].1.len() < c {
        0
    } else {
        first_smaller(s.drop_first(), c) + 1
    }
}

/// The first `n` groups ordered by member count, largest first; groups
/// with equal counts keep their order.
pub open spec fn sort_by_count(g: Seq<(Seq<char>, Seq<Seq<char>>)>, n: int) -> Seq<(Seq<char>, Seq<Seq<char>>)>
    decreases n,
{
    if n <= 0 || n > g.len() {
        Seq::empty()
    } else {
        let s = sort_by_count(g, n - 1);
        s.insert(first_smaller(s, g[n - 1].1.len()), g[n - 1])
    }
}

/// The charts a deployment diagram shows: all of them, or when there are
/// more than the limit, the most connected ones.
pub open spec fn shown_charts(g: Seq<(Seq<char>, Seq<Seq<char>>)>) -> Seq<(Seq<char>, Seq<Seq<char>>)> {
    if g.len() > MAX_DEPLOY_CHARTS {
        sort_by_count(g, g.len() as int).take(MAX_DEPLOY_CHARTS as int)
    } else {
        g
    }
}

/// The deployment groups of a topology, keyed by chart.
pub open spec fn deploy_groups(t: Topology) -> Seq<(Seq<char>, Seq<Seq<char>>)> {
    let p = deploy_pairs(t.edges@, t.edges@.len() as int);
    groups_of(p, p.len() as int)
}

/// The distinct linked ApplicationSet names of a topology.
pub open spec fn linked_of(t: Topology) -> Seq<Seq<char>> {
    let p = deploy_pairs(t.edges@, t.edges@.len() as int);
    members_of(p, p.len() as int)
}

/// ApplicationSets (name, generator) among the first `n` that no deploy
/// edge names.
pub open spec fn unlinked(a: Seq<AppSetInfo>, linked: Seq<Seq<char>>, n: int) -> Seq<(Seq<char>, Seq<char>)>
    decreases n,
{
    if n <= 0 || n > a.len() {
        Seq::empty()
    } else {
        unlinked(a, linked, n - 1) + if linked.contains(a[n - 1].name@) {
            Seq::empty()
        } else {
            seq![(a[n - 1].name@, generator_name(a[n - 1].generator_type))]
        }
    }
}

/// Members of the first `n` groups regrouped by generator kind.
pub open spec fn gen_groups(show: Seq<(Seq<char>, Seq<Seq<char>>)>, a: Seq<AppSetInfo>, n: int) -> Seq<(Seq<char>, Seq<Seq<char>>)>
    decreases n,
{
    if n <= 0 || n > show.len() {
        Seq::empty()
    } else {
        gen_add_all(gen_groups(show, a, n - 1), show[n - 1].1, a, show[n - 1].1.len() as int)
    }
}

/// The first `n` members added to the groups of their generator kinds.
pub open spec fn gen_add_all(acc: Seq<(Seq<char>, Seq<Seq<char>>)>, m: Seq<Seq<char>>, a: Seq<AppSetInfo>, n: int) -> Seq<(Seq<char>, Seq<Seq<char>>)>
    decreases n,
{
    if n <= 0 || n > m.len() {
        acc
    } else {
        group_add(gen_add_all(acc, m, a, n - 1), gen_of(a, m[n - 1]), m[n - 1])
    }
}

/// The first `n` names in order of first occurrence.
pub open spec fn first_occurrences(s: Seq<Seq<char>>, n: int) -> Seq<Seq<char>>
    decreases n,
{
    if n <= 0 || n > s.len() {
        Seq::empty()
    } else {
        let d = first_occurrences(s, n - 1);
        if d.contains(s[n - 1]) { d } else { d.push(s[n - 1]) }
    }
}

/// Fill and text colours of a generator kind's nodes.
pub open spec fn gen_colors(g: Seq<char>) -> Option<(Seq<char>, Seq<char>)> {
    if g == "cluster"@ {
        Some(("#1f6feb"@, "#fff"@))
    } else if g == "git"@ {
        Some(("#238636"@, "#fff"@))
    } else if g == "matrix"@ {
        Some(("#8957e5"@, "#fff"@))
    } else if g == "list"@ {
        Some(("#d29922"@, "#000"@))
    } else {
        None
    }
}

/// Node id of an ApplicationSet.
pub open spec fn appset_node(a: Seq<char>) -> Seq<char> {
    "appset_"@ + sanitize_spec(a)
}

/// Node id of a chart.
pub open spec fn chart_node(c: Seq<char>) -> Seq<char> {
    "chart_"@ + sanitize_spec(c)
}

/// Node lines of the first `n` names.
pub open spec fn appset_lines(d: Seq<Seq<char>>, n: int) -> Seq<char>
    decreases n,
{
    if n <= 0 || n > d.len() {
        Seq::empty()
    } else {
        appset_lines(d, n - 1) + "        "@ + appset_node(d[n - 1]) + "[\""@ + d[n - 1] + "\"]\n"@
    }
}

/// Subgraphs of the first `n` generator groups.
pub open spec fn subgraphs(gg: Seq<(Seq<char>, Seq<Seq<char>>)>, n: int) -> Seq<char>
    decreases n,
{
    if n <= 0 || n > gg.len() {
        Seq::empty()
    } else {
        let d = first_occurrences(gg[n - 1].1, gg[n - 1].1.len() as int);
        subgraphs(gg, n - 1) + "    subgraph \""@ + gg[n - 1].0 + "\"\n"@ + appset_lines(d, d.len() as int) + "    end\n"@
    }
}

/// Style lines of the first `n` names in a colour.
pub open spec fn style_lines(d: Seq<Seq<char>>, fill: Seq<char>, fg: Seq<char>, n: int) -> Seq<char>
    decreases n,
{
    if n <= 0 || n > d.len() {
        Seq::empty()
    } else {
        style_lines(d, fill, fg, n - 1) + "    style "@ + appset_node(d[n - 1]) + " fill:"@ + fill + ",color:"@ + fg + "\n"@
    }
}

/// Style lines of the first `n` generator groups.
pub open spec fn styles(gg: Seq<(Seq<char>, Seq<Seq<char>>)>, n: int) -> Seq<char>
    decreases n,
{
    if n <= 0 || n > gg.len() {
        Seq::empty()
    } else {
        let d = first_occurrences(gg[n - 1].1, gg[n - 1].1.len() as int);
        styles(gg, n - 1) + match gen_colors(gg[n - 1].0) {
            Some(c) => style_lines(d, c.0, c.1, d.len() as int),
            None => Seq::empty(),
        }
    }
}

/// Sorted distinct names of the first `n` groups.
pub open spec fn group_names(s: Seq<(Seq<char>, Seq<Seq<char>>)>, n: int) -> Seq<Seq<char>>
    decreases n,
{
    if n <= 0 || n > s.len() {
        Seq::empty()
    } else {
        name_add(group_names(s, n - 1), s[n - 1].0)
    }
}

/// Chart node lines of the first `n` names.
pub open spec fn chart_lines(c: Seq<Seq<char>>, n: int) -> Seq<char>
    decreases n,
{
    if n <= 0 || n > c.len() {
        Seq::empty()
    } else {
        chart_lines(c, n - 1) + "        "@ + chart_node(c[n - 1]) + "[\""@ + c[n - 1] + "\"]\n"@
    }
}

/// Edge lines from the first `n` members to their chart.
pub open spec fn member_edges(chart: Seq<char>, m: Seq<Seq<char>>, n: int) -> Seq<char>
    decreases n,
{
    if n <= 0 || n > m.len() {
        Seq::empty()
    } else {
        member_edges(chart, m, n - 1) + "    "@ + appset_node(m[n - 1]) + " --> "@ + chart_node(chart) + "\n"@
    }
}

/// Edge lines of the first `n` shown charts.
pub open spec fn deploy_edges(show: Seq<(Seq<char>, Seq<Seq<char>>)>, n: int) -> Seq<char>
    decreases n,
{
    if n <= 0 || n > show.len() {
        Seq::empty()
    } else {
        deploy_edges(show, n - 1) + member_edges(show[n - 1].0, show[n - 1].1, show[n - 1].1.len() as int)
    }
}

/// Lines of the first `n` unlinked ApplicationSets.
pub open spec fn unlinked_lines(u: Seq<(Seq<char>, Seq<char>)>, n: int) -> Seq<char>
    decreases n,
{
    if n <= 0 || n > u.len() {
        Seq::empty()
    } else {
        unlinked_lines(u, n - 1) + "- **"@ + u[n - 1].0 + "** ("@ + u[n - 1].1 + ")\n"@
    }
}

/// The deployment topology document.
pub open spec fn deploy_graph_spec(t: Topology) -> Seq<char> {
    let a = t.appsets@;
    let g = deploy_groups(t);
    let linked = linked_of(t);
    let u = unlinked(a, linked, a.len() as int);
    if g.len() == 0 && u.len() == 0 {
        "# Deployment Topology\n\n"@ + "No deployment data available.\n"@
    } else {
        let show = shown_charts(g);
        let gg = gen_groups(show, a, show.len() as int);
        let names = group_names(show, show.len() as int);
        "# Deployment Topology\n\n"@ + "```mermaid\ngraph LR\n"@
            + subgraphs(gg, gg.len() as int)
            + "    subgraph \"Charts\"\n"@ + chart_lines(names, names.len() as int) + "    end\n"@
            + deploy_edges(show, show.len() as int)
            + styles(gg, gg.len() as int)
            + "```\n\n"@
            + (if g.len() > MAX_DEPLOY_CHARTS {
                "> **Note:** Showing top 30 most-connected charts out of "@ + nat_text(g.len()) + " total.\n\n"@
            } else {
                Seq::empty()
            })
            + (if u.len() > 0 {
                "## Unlinked ApplicationSets (no chart match)\n\n"@ + unlinked_lines(u, u.len() as int) + "\n"@
            } else {
                Seq::empty()
            })
            + nat_text(g.len()) + " charts deployed by "@ + nat_text(linked.len()) + " appsets ("@ + nat_text(u.len()) + " unlinked)\n"@
    }
}


fn copy_group(g: &(String, Vec<String>)) -> (r: (String, Vec<String>))
    ensures
        r.0@ == g.0@,
        strings_view(r.1@) == strings_view(g.1@),
{
    (to_owned_string(g.0.as_str()), copy_strings(&g.1))
}

fn sorted_by_count(g: &Vec<(String, Vec<String>)>) -> (r: Vec<(String, Vec<String>)>)
    ensures
        groups_view(r@) == sort_by_count(groups_view(g@), g@.len() as int),
{
    let ghost gv = groups_view(g@);
    let mut s: Vec<(String, Vec<String>)> = Vec::new();
    let mut i: usize = 0;
    assert(groups_view(s@) =~= sort_by_count(gv, 0));
    while i < g.len()
        invariant
            gv == groups_view(g@),
            i <= g@.len(),
            groups_view(s@) == sort_by_count(gv, i as int),
        decreases g@.len() - i,
    {
        let c = g[i].1.len();
        assert(gv[i as int].1.len() == c);
        let ghost sv = groups_view(s@);
        let mut p: usize = 0;
        assert(sv.subrange(0, sv.len() as int) =~= sv);
        while p < s.len() && !(s[p].1.len() < c)
            invariant
                sv == groups_view(s@),
                p <= s@.len(),
                first_smaller(sv, c as nat) == first_smaller(sv.subrange(p as int, sv.len() as int), c as nat) + p,
            decreases s@.len() - p,
        {
            let ghost rest = sv.subrange(p as int, sv.len() as int);
            assert(rest.drop_first() =~= sv.subrange(p + 1, sv.len() as int));
            assert(rest[0].1.len() == s@[p as int].1@.len());
            p = p + 1;
        }
        proof {
            let rest = sv.subrange(p as int, sv.len() as int);
            if p < s@.len() {
                assert(rest[0].1.len() == s@[p as int].1@.len());
            }
        }
        let item = copy_group(&g[i]);
        s.insert(p, item);
        assert(groups_view(s@) =~= sv.insert(p as int, gv[i as int]));
        i = i + 1;
    }
    s
}

fn shown(g: &Vec<(String, Vec<String>)>) -> (r: Vec<(String, Vec<String>)>)
    ensures
        groups_view(r@) == shown_charts(groups_view(g@)),
{
    if g.len() > MAX_DEPLOY_CHARTS {
        let sorted = sorted_by_count(g);
        let mut r: Vec<(String, Vec<String>)> = Vec::new();
        let mut i: usize = 0;
        let ghost sv = groups_view(sorted@);
        proof { lemma_sort_len(groups_view(g@), g@.len() as int); }
        while i < MAX_DEPLOY_CHARTS
            invariant
                sv == groups_view(sorted@),
                sorted@.len() == g@.len(),
                g@.len() > MAX_DEPLOY_CHARTS,
                i <= MAX_DEPLOY_CHARTS,
                groups_view(r@) == sv.subrange(0, i as int),
            decreases MAX_DEPLOY_CHARTS - i,
        {
            let item = copy_group(&sorted[i]);
            let ghost before = groups_view(r@);
            let ghost iv = (item.0@, strings_view(item.1@));
            r.push(item);
            assert(groups_view(r@) =~= before.push(iv));
            assert(groups_view(r@) =~= sv.subrange(0, i + 1));
            i = i + 1;
        }
        r
    } else {
        let mut r: Vec<(String, Vec<String>)> = Vec::new();
        let mut i: usize = 0;
        while i < g.len()
            invariant
                i <= g@.len(),
                groups_view(r@) == groups_view(g@).subrange(0, i as int),
            decreases g@.len() - i,
        {
            let item = copy_group(&g[i]);
            let ghost before = groups_view(r@);
            let ghost iv = (item.0@, strings_view(item.1@));
            r.push(item);
            assert(groups_view(r@) =~= before.push(iv));
            assert(groups_view(r@) =~= groups_view(g@).subrange(0, i + 1));
            i = i + 1;
        }
        assert(groups_view(g@).subrange(0, g@.len() as int) =~= groups_view(g@));
        r
    }
}

proof fn lemma_sort_len(g: Seq<(Seq<char>, Seq<Seq<char>>)>, n: int)
    requires
        0 <= n <= g.len(),
    ensures
        sort_by_count(g, n).len() == n,
    decreases n,
{
    if n > 0 {
        lemma_sort_len(g, n - 1);
        lemma_first_smaller_bounds(sort_by_count(g, n - 1), g[n - 1].1.len());
    }
}

proof fn lemma_first_smaller_bounds(s: Seq<(Seq<char>, Seq<Seq<char>>)>, c: nat)
    ensures
        0 <= first_smaller(s, c) <= s.len(),
    decreases s.len(),
{
    if s.len() > 0 && !(s[0].1.len() < c) {
        lemma_first_smaller_bounds(s.drop_first(), c);
    }
}

fn first_occurrence_list(m: &Vec<String>) -> (r: Vec<String>)
    ensures
        strings_view(r@) == first_occurrences(strings_view(m@), m@.len() as int),
{
    let ghost mv = strings_view(m@);
    let mut d: Vec<String> = Vec::new();
    let mut i: usize = 0;
    assert(strings_view(d@) =~= first_occurrences(mv, 0));
    while i < m.len()
        invariant
            mv == strings_view(m@),
            i <= m@.len(),
            strings_view(d@) == first_occurrences(mv, i as int),
        decreases m@.len() - i,
    {
        assert(mv[i as int] == m@[i as int]@);
        if !names_contain(&d, m[i].as_str()) {
            let ghost before = strings_view(d@);
            d.push(to_owned_string(m[i].as_str()));
            assert(strings_view(d@) =~= before.push(mv[i as int]));
        }
        i = i + 1;
    }
    d
}

fn colors_for(g: &str) -> (r: Option<(&'static str, &'static str)>)
    ensures
        match r {
            Some(c) => gen_colors(g@) == Some((c.0@, c.1@)),
            None => gen_colors(g@) is None,
        },
{
    if str_eq(g, "cluster") {
        Some(("#1f6feb", "#fff"))
    } else if str_eq(g, "git") {
        Some(("#238636", "#fff"))
    } else if str_eq(g, "matrix") {
        Some(("#8957e5", "#fff"))
    } else if str_eq(g, "list") {
        Some(("#d29922", "#000"))
    } else {
        None
    }
}

fn push_appset_node(out: &mut String, a: &str)
    ensures
        final(out)@ == old(out)@ + appset_node(a@),
{
    push_str(out, "appset_");
    push_str(out, sanitize_id(a).as_str());
}

fn push_chart_node(out: &mut String, c: &str)
    ensures
        final(out)@ == old(out)@ + chart_node(c@),
{
    push_str(out, "chart_");
    push_str(out, sanitize_id(c).as_str());
}

pub fn unlinked_list(a: &[AppSetInfo], linked: &Vec<String>) -> (r: Vec<(String, String)>)
    ensures
        Seq::new(r@.len(), |j: int| (r@[j].0@, r@[j].1@)) == unlinked(a@, strings_view(linked@), a@.len() as int),
{
    let ghost lv = strings_view(linked@);
    let mut un: Vec<(String, String)> = Vec::new();
    let mut i: usize = 0;
    assert(Seq::new(un@.len(), |j: int| (un@[j].0@, un@[j].1@)) =~= unlinked(a@, lv, 0));
    while i < a.len()
        invariant
            lv == strings_view(linked@),
            i <= a@.len(),
            Seq::new(un@.len(), |j: int| (un@[j].0@, un@[j].1@)) == unlinked(a@, lv, i as int),
        decreases a@.len() - i,
    {
        if !names_contain(linked, a[i].name.as_str()) {
            un.push((to_owned_string(a[i].name.as_str()), to_owned_string(a[i].generator_type.name())));
        }
        assert(Seq::new(un@.len(), |j: int| (un@[j].0@, un@[j].1@)) =~= unlinked(a@, lv, i + 1));
        i = i + 1;
    }
    un
}

fn generator_grouping(show: &Vec<(String, Vec<String>)>, a: &[AppSetInfo]) -> (r: Vec<(String, Vec<String>)>)
    ensures
        groups_view(r@) == gen_groups(groups_view(show@), a@, show@.len() as int),
{
    let ghost sv = groups_view(show@);
    let mut gg: Vec<(String, Vec<String>)> = Vec::new();
    let mut c: usize = 0;
    assert(groups_view(gg@) =~= gen_groups(sv, a@, 0));
    while c < show.len()
        invariant
            sv == groups_view(show@),
            c <= show@.len(),
            groups_view(gg@) == gen_groups(sv, a@, c as int),
        decreases show@.len() - c,
    {
        let members = &show[c].1;
        let ghost acc0 = groups_view(gg@);
        let mut j: usize = 0;
        while j < members.len()
            invariant
                c < show@.len(),
                *members == show@[c as int].1,
                j <= members@.len(),
                groups_view(gg@) == gen_add_all(acc0, strings_view(members@), a@, j as int),
            decreases members@.len() - j,
        {
            let m = members[j].as_str();
            assert(strings_view(members@)[j as int] == m@);
            let gen = gen_for(a, m);
            group_push(&mut gg, gen, m);
            j = j + 1;
        }
        assert(sv[c as int].1 == strings_view(members@));
        c = c + 1;
    }
    gg
}

fn push_subgraphs(out: &mut String, gg: &Vec<(String, Vec<String>)>)
    ensures
        final(out)@ == old(out)@ + subgraphs(groups_view(gg@), gg@.len() as int),
{
    let ghost ggv = groups_view(gg@);
    let ghost o0 = out@;
    let mut k: usize = 0;
    while k < gg.len()
        invariant
            ggv == groups_view(gg@),
            k <= gg@.len(),
            out@ == o0 + subgraphs(ggv, k as int),
        decreases gg@.len() - k,
    {
        let d = first_occurrence_list(&gg[k].1);
        let ghost dv = strings_view(d@);
        assert(ggv[k as int] == (gg@[k as int].0@, strings_view(gg@[k as int].1@)));
        push_str(out, "    subgraph \"");
        push_str(out, gg[k].0.as_str());
        push_str(out, "\"\n");
        let ghost o1 = out@;
        let mut j: usize = 0;
        while j < d.len()
            invariant
                dv == strings_view(d@),
                j <= d@.len(),
                out@ == o1 + appset_lines(dv, j as int),
            decreases d@.len() - j,
        {
            assert(dv[j as int] == d@[j as int]@);
            push_str(out, "        ");
            push_appset_node(out, d[j].as_str());
            push_str(out, "[\"");
            push_str(out, d[j].as_str());
            push_str(out, "\"]\n");
            j = j + 1;
        }
        push_str(out, "    end\n");
        assert(out@ =~= o0 + subgraphs(ggv, k + 1));
        k = k + 1;
    }
}

fn push_chart_nodes(out: &mut String, show: &Vec<(String, Vec<String>)>)
    ensures
        final(out)@ == old(out)@ + chart_lines(group_names(groups_view(show@), show@.len() as int), group_names(groups_view(show@), show@.len() as int).len() as int),
{
    let ghost sv = groups_view(show@);
    let mut names: Vec<String> = Vec::new();
    let mut c: usize = 0;
    assert(strings_view(names@) =~= group_names(sv, 0));
    while c < show.len()
        invariant
            sv == groups_view(show@),
            c <= show@.len(),
            strings_view(names@) == group_names(sv, c as int),
        decreases show@.len() - c,
    {
        assert(sv[c as int].0 == show@[c as int].0@);
        name_insert(&mut names, show[c].0.as_str());
        c = c + 1;
    }
    let ghost nv = strings_view(names@);
    let ghost o2 = out@;
    let mut c: usize = 0;
    while c < names.len()
        invariant
            nv == strings_view(names@),
            c <= names@.len(),
            out@ == o2 + chart_lines(nv, c as int),
        decreases names@.len() - c,
    {
        assert(nv[c as int] == names@[c as int]@);
        push_str(out, "        ");
        push_chart_node(out, names[c].as_str());
        push_str(out, "[\"");
        push_str(out, names[c].as_str());
        push_str(out, "\"]\n");
        c = c + 1;
    }
}

fn push_deploy_edges(out: &mut String, show: &Vec<(String, Vec<String>)>)
    ensures
        final(out)@ == old(out)@ + deploy_edges(groups_view(show@), show@.len() as int),
{
    let ghost sv = groups_view(show@);
    let ghost o3 = out@;
    let mut c: usize = 0;
    while c < show.len()
        invariant
            sv == groups_view(show@),
            c <= show@.len(),
            out@ == o3 + deploy_edges(sv, c as int),
        decreases show@.len() - c,
    {
        let chart = show[c].0.as_str();
        let members = &show[c].1;
        assert(sv[c as int] == (chart@, strings_view(members@)));
        let ghost o4 = out@;
        let mut j: usize = 0;
        while j < members.len()
            invariant
                j <= members@.len(),
                out@ == o4 + member_edges(chart@, strings_view(members@), j as int),
            decreases members@.len() - j,
        {
            assert(strings_view(members@)[j as int] == members@[j as int]@);
            push_str(out, "    ");
            push_appset_node(out, members[j].as_str());
            push_str(out, " --> ");
            push_chart_node(out, chart);
            push_str(out, "\n");
            j = j + 1;
        }
        c = c + 1;
    }
}

fn push_styles(out: &mut String, gg: &Vec<(String, Vec<String>)>)
    ensures
        final(out)@ == old(out)@ + styles(groups_view(gg@), gg@.len() as int),
{
    let ghost ggv = groups_view(gg@);
    let ghost o5 = out@;
    let mut k: usize = 0;
    while k < gg.len()
        invariant
            ggv == groups_view(gg@),
            k <= gg@.len(),
            out@ == o5 + styles(ggv, k as int),
        decreases gg@.len() - k,
    {
        let d = first_occurrence_list(&gg[k].1);
        let ghost dv = strings_view(d@);
        assert(ggv[k as int] == (gg@[k as int].0@, strings_view(gg@[k as int].1@)));
        match colors_for(gg[k].0.as_str()) {
            Some((fill, fg)) => {
                let ghost o6 = out@;
                let mut j: usize = 0;
                while j < d.len()
                    invariant
                        dv == strings_view(d@),
                        j <= d@.len(),
                        out@ == o6 + style_lines(dv, fill@, fg@, j as int),
                    decreases d@.len() - j,
                {
                    assert(dv[j as int] == d@[j as int]@);
                    push_str(out, "    style ");
                    push_appset_node(out, d[j].as_str());
                    push_str(out, " fill:");
                    push_str(out, fill);
                    push_str(out, ",color:");
                    push_str(out, fg);
                    push_str(out, "\n");
                    j = j + 1;
                }
            },
            None => {},
        }
        assert(out@ =~= o5 + styles(ggv, k + 1));
        k = k + 1;
    }
}

fn push_unlinked(out: &mut String, un: &Vec<(String, String)>)
    ensures
        final(out)@ == old(out)@ + unlinked_lines(Seq::new(un@.len(), |x: int| (un@[x].0@, un@[x].1@)), un@.len() as int),
{
    let ghost uv = Seq::new(un@.len(), |x: int| (un@[x].0@, un@[x].1@));
    let ghost o7 = out@;
    let mut j: usize = 0;
    while j < un.len()
        invariant
            uv == Seq::new(un@.len(), |x: int| (un@[x].0@, un@[x].1@)),
            j <= un@.len(),
            out@ == o7 + unlinked_lines(uv, j as int),
        decreases un@.len() - j,
    {
        push_str(out, "- **");
        push_str(out, un[j].0.as_str());
        push_str(out, "** (");
        push_str(out, un[j].1.as_str());
        push_str(out, ")\n");
        j = j + 1;
    }
}

/// The Markdown document with a Mermaid flowchart of ApplicationSets and
/// the charts they deploy: ApplicationSets grouped by generator kind and
/// coloured by it, charts (the most connected ones when there are more
/// than the limit), deploy edges, unlinked ApplicationSets and counts.
pub fn deploy_graph(topology: &Topology) -> (r: String)
    ensures
        r@ == deploy_graph_spec(*topology),
{
    let a = topology.appsets.as_slice();
    let g = chart_groups(topology.edges.as_slice());
    let linked = linked_names(topology.edges.as_slice());
    let un = unlinked_list(a, &linked);
    let mut out = to_owned_string("# Deployment Topology\n\n");
    if g.len() == 0 && un.len() == 0 {
        push_str(&mut out, "No deployment data available.\n");
        return out;
    }
    let show = shown(&g);
    let gg = generator_grouping(&show, a);
    push_str(&mut out, "```mermaid\ngraph LR\n");
    push_subgraphs(&mut out, &gg);
    push_str(&mut out, "    subgraph \"Charts\"\n");
    push_chart_nodes(&mut out, &show);
    push_str(&mut out, "    end\n");
    push_deploy_edges(&mut out, &show);
    push_styles(&mut out, &gg);
    push_str(&mut out, "```\n\n");
    let ghost before_note = out@;
    if g.len() > MAX_DEPLOY_CHARTS {
        push_str(&mut out, "> **Note:** Showing top 30 most-connected charts out of ");
        push_str(&mut out, usize_text(g.len()).as_str());
        push_str(&mut out, " total.\n\n");
    }
    let ghost before_un = out@;
    if un.len() > 0 {
        push_str(&mut out, "## Unlinked ApplicationSets (no chart match)\n\n");
        push_unlinked(&mut out, &un);
        push_str(&mut out, "\n");
    }
    push_str(&mut out, usize_text(g.len()).as_str());
    push_str(&mut out, " charts deployed by ");
    push_str(&mut out, usize_text(linked.len()).as_str());
    push_str(&mut out, " appsets (");
    push_str(&mut out, usize_text(un.len()).as_str());
    push_str(&mut out, " unlinked)\n");
    out
}


// ── Chart dependencies ─────────────────────────────────────────────

/// The lines of a list of lines, the first `n` of them.
pub open spec fn lines_of(e: Seq<Seq<char>>, n: int) -> Seq<char>
    decreases n,
{
    if n <= 0 || n > e.len() {
        Seq::empty()
    } else {
        lines_of(e, n - 1) + e[n - 1]
    }
}

/// The list entry of a standalone chart: name, version and description.
pub open spec fn standalone_entry(c: Seq<ChartInfo>, name: Seq<char>) -> Seq<char> {
    match chart_named(c, name) {
        Some(info) => "- **"@ + name + "** v"@ + info.version@
            + (if info.description@.len() == 0 { Seq::empty() } else { " -- "@ + info.description@ })
            + "\n"@,
        None => "- **"@ + name + "**\n"@,
    }
}

/// The entries of the first `n` standalone charts.
pub open spec fn standalone_entries(c: Seq<ChartInfo>, s: Seq<Seq<char>>, n: int) -> Seq<char>
    decreases n,
{
    if n <= 0 || n > s.len() {
        Seq::empty()
    } else {
        standalone_entries(c, s, n - 1) + standalone_entry(c, s[n - 1])
    }
}

/// The flowchart block of the chart dependency document; `shown_of` is
/// the count the truncation note gives.
pub open spec fn flow_block(w: Emission, cut: bool, shown_of: nat) -> Seq<char> {
    "```mermaid\ngraph TD\n"@ + "    subgraph \"Charts with dependencies\"\n"@ + w.out + "    end\n"@
        + lines_of(w.edges, w.edges.len() as int) + "```\n\n"@
        + (if cut {
            "> **Note:** Showing first 80 nodes out of "@ + nat_text(shown_of) + " total to avoid rendering limits.\n\n"@
        } else {
            Seq::empty()
        })
}

/// The standalone list and the counts that end the chart dependency
/// document.
pub open spec fn chart_tail(c: Seq<ChartInfo>, s: Seq<Seq<char>>, groups: nat, edges: nat) -> Seq<char> {
    (if s.len() > 0 {
        "## Standalone Charts (no dependencies)\n\n"@ + standalone_entries(c, s, s.len() as int) + "\n"@
    } else {
        Seq::empty()
    })
        + nat_text(c.len()) + " charts total, "@ + nat_text(groups) + " with dependencies ("@
        + nat_text(edges) + " dependency edges), "@
        + nat_text(s.len()) + " standalone\n"@
}

/// The chart dependency document.
pub open spec fn chart_deps_spec(t: Topology) -> Seq<char> {
    let c = t.charts@;
    let g = dep_groups(t.edges@);
    let s = standalone(c, g, dependents(t.edges@), c.len() as int);
    let l = node_list(g, g.len() as int);
    let total = distinct_names(l, l.len() as int).len();
    let cut = total > MAX_CHART_NODES;
    "# Chart Dependencies\n\n"@ + if c.len() == 0 {
        "No chart data available.\n"@
    } else {
        (if g.len() > 0 {
            flow_block(chart_walk(g, included(l, cut, MAX_CHART_NODES as nat), c), cut, total + s.len())
        } else {
            Seq::empty()
        }) + chart_tail(c, s, g.len(), dep_pairs(t.edges@, t.edges@.len() as int).len())
    }
}

fn push_lines(out: &mut String, e: &Vec<String>)
    ensures
        final(out)@ == old(out)@ + lines_of(strings_view(e@), e@.len() as int),
{
    let ghost o0 = out@;
    let mut i: usize = 0;
    while i < e.len()
        invariant
            i <= e@.len(),
            out@ == o0 + lines_of(strings_view(e@), i as int),
        decreases e@.len() - i,
    {
        push_str(out, e[i].as_str());
        i = i + 1;
    }
}

fn push_standalone(out: &mut String, c: &[ChartInfo], s: &Vec<String>)
    ensures
        final(out)@ == old(out)@ + standalone_entries(c@, strings_view(s@), s@.len() as int),
{
    let ghost sv = strings_view(s@);
    let ghost o0 = out@;
    let mut i: usize = 0;
    while i < s.len()
        invariant
            sv == strings_view(s@),
            i <= s@.len(),
            out@ == o0 + standalone_entries(c@, sv, i as int),
        decreases s@.len() - i,
    {
        let name = s[i].as_str();
        assert(sv[i as int] == name@);
        match chart_for(c, name) {
            Some(info) => {
                push_str(out, "- **");
                push_str(out, name);
                push_str(out, "** v");
                push_str(out, info.version.as_str());
                if info.description.as_str().unicode_len() != 0 {
                    push_str(out, " -- ");
                    push_str(out, info.description.as_str());
                }
                push_str(out, "\n");
            },
            None => {
                push_str(out, "- **");
                push_str(out, name);
                push_str(out, "**\n");
            },
        }
        i = i + 1;
    }
}

fn push_flowchart(out: &mut String, w: &Walk, total: usize, cut: bool, standalone_count: usize)
    ensures
        final(out)@ == old(out)@ + flow_block(w@, cut, (total + standalone_count) as nat),
{
    push_str(out, "```mermaid\ngraph TD\n");
    push_str(out, "    subgraph \"Charts with dependencies\"\n");
    push_str(out, w.out.as_str());
    push_str(out, "    end\n");
    push_lines(out, &w.edges);
    push_str(out, "```\n\n");
    if cut {
        push_str(out, "> **Note:** Showing first 80 nodes out of ");
        push_str(out, sum_text(total, standalone_count).as_str());
        push_str(out, " total to avoid rendering limits.\n\n");
    }
}

fn push_chart_tail(out: &mut String, c: &[ChartInfo], s: &Vec<String>, groups: usize, e: &[Edge])
    ensures
        final(out)@ == old(out)@ + chart_tail(c@, strings_view(s@), groups as nat, dep_pairs(e@, e@.len() as int).len()),
{
    let ghost o0 = out@;
    if s.len() > 0 {
        push_str(out, "## Standalone Charts (no dependencies)\n\n");
        push_standalone(out, c, s);
        push_str(out, "\n");
    }
    let ghost o1 = out@;
    push_str(out, usize_text(c.len()).as_str());
    push_str(out, " charts total, ");
    push_str(out, usize_text(groups).as_str());
    push_str(out, " with dependencies (");
    push_str(out, usize_text(dependency_edge_count(e)).as_str());
    push_str(out, " dependency edges), ");
    push_str(out, usize_text(s.len()).as_str());
    push_str(out, " standalone\n");
}

/// The Markdown document with a Mermaid flowchart of chart dependencies:
/// charts with dependencies and their dependencies (external ones marked,
/// only the first nodes when there are more than the limit), the
/// standalone charts, and counts.
pub fn chart_deps(topology: &Topology) -> (r: String)
    ensures
        r@ == chart_deps_spec(*topology),
{
    let c = topology.charts.as_slice();
    let e = topology.edges.as_slice();
    let mut out = to_owned_string("# Chart Dependencies\n\n");
    if c.len() == 0 {
        push_str(&mut out, "No chart data available.\n");
        return out;
    }
    let g = dependency_groups(e);
    let h = dependent_names(e);
    let s = standalone_names(c, &g, &h);
    let ghost gv = groups_view(g@);
    let l = node_names(&g);
    let total = distinct_count(&l);
    let cut = total > MAX_CHART_NODES;
    let inc = included_names(&l, cut, MAX_CHART_NODES);
    proof {
        crate::viz::dep_walk::lemma_included_within(strings_view(l@), cut, MAX_CHART_NODES as nat);
    }
    let ghost o0 = out@;
    if g.len() > 0 {
        let w = walk_charts(&g, &inc, c);
        push_flowchart(&mut out, &w, total, cut, s.len());
    }
    let ghost o1 = out@;
    push_chart_tail(&mut out, c, &s, g.len(), e);
    assert(out@ =~= o0 + (o1.subrange(o0.len() as int, o1.len() as int) + out@.subrange(o1.len() as int, out@.len() as int)));
    out
}


// ── Tenant-environment matrix ──────────────────────────────────────

/// A count cell of the matrix table; counts in the `production` column
/// are bold, zero is `-`.
pub open spec fn md_cell(n: nat, env: Seq<char>) -> Seq<char> {
    (if n == 0 {
        " - "@
    } else if env == "production"@ {
        " **"@ + nat_text(n) + "** "@
    } else {
        " "@ + nat_text(n) + " "@
    }) + "|"@
}

/// The header cells of the first `n` environments.
pub open spec fn env_header_md(envs: Seq<Seq<char>>, n: int) -> Seq<char>
    decreases n,
{
    if n <= 0 || n > envs.len() {
        Seq::empty()
    } else {
        env_header_md(envs, n - 1) + " "@ + envs[n - 1] + " |"@
    }
}

/// The separator cells of `n` columns.
pub open spec fn separator_md(n: int) -> Seq<char>
    decreases n,
{
    if n <= 0 {
        Seq::empty()
    } else {
        separator_md(n - 1) + "-----|"@
    }
}

/// The count cells of tenant `t` in the first `n` environments.
pub open spec fn row_cells_md(p: Seq<ConfigPath>, t: Seq<char>, envs: Seq<Seq<char>>, n: int) -> Seq<char>
    decreases n,
{
    if n <= 0 || n > envs.len() {
        Seq::empty()
    } else {
        row_cells_md(p, t, envs, n - 1) + md_cell(count_paths(p, t, envs[n - 1], Seq::empty(), false, p.len() as int), envs[n - 1])
    }
}

/// The rows of the first `n` tenants.
pub open spec fn rows_md(p: Seq<ConfigPath>, ts: Seq<Seq<char>>, envs: Seq<Seq<char>>, n: int) -> Seq<char>
    decreases n,
{
    if n <= 0 || n > ts.len() {
        Seq::empty()
    } else {
        rows_md(p, ts, envs, n - 1) + "| "@ + ts[n - 1] + " |"@ + row_cells_md(p, ts[n - 1], envs, envs.len() as int) + "\n"@
    }
}

/// The total cells of the first `n` environments.
pub open spec fn total_cells_md(p: Seq<ConfigPath>, ts: Seq<Seq<char>>, envs: Seq<Seq<char>>, n: int) -> Seq<char>
    decreases n,
{
    if n <= 0 || n > envs.len() {
        Seq::empty()
    } else {
        total_cells_md(p, ts, envs, n - 1) + md_cell(tenant_total(p, ts, envs[n - 1], Seq::empty(), false, ts.len() as int), envs[n - 1])
    }
}

/// The tenant-environment matrix document.
pub open spec fn matrix_spec(t: Topology) -> Seq<char> {
    let p = t.config_paths@;
    let tl = crate::text::strings_view(t.taxonomy.tenants@);
    let el = crate::text::strings_view(t.taxonomy.environments@);
    let ts = distinct_names(tl, tl.len() as int);
    let envs = distinct_names(el, el.len() as int);
    "# Tenant-Environment Matrix\n\n"@ + if ts.len() == 0 || envs.len() == 0 {
        "No environment data available.\n"@
    } else {
        "| Tenant |"@ + env_header_md(envs, envs.len() as int) + "\n"@
            + "|--------|"@ + separator_md(envs.len() as int) + "\n"@
            + rows_md(p, ts, envs, ts.len() as int)
            + "| **Total** |"@ + total_cells_md(p, ts, envs, envs.len() as int) + "\n"@
            + "\n"@
            + nat_text(ts.len()) + " tenants, "@ + nat_text(envs.len()) + " environments, "@ + nat_text(p.len()) + " config files\n"@
    }
}

fn push_md_cell(out: &mut String, n: u128, env: &str)
    ensures
        final(out)@ == old(out)@ + md_cell(n as nat, env@),
{
    if n == 0 {
        push_str(out, " - ");
    } else if str_eq(env, "production") {
        push_str(out, " **");
        push_str(out, u128_text(n).as_str());
        push_str(out, "** ");
    } else {
        push_str(out, " ");
        push_str(out, u128_text(n).as_str());
        push_str(out, " ");
    }
    push_str(out, "|");
}

fn push_md_head(out: &mut String, envs: &Vec<String>)
    ensures
        final(out)@ == old(out)@ + "| Tenant |"@ + env_header_md(strings_view(envs@), envs@.len() as int) + "\n"@
            + "|--------|"@ + separator_md(envs@.len() as int) + "\n"@,
{
    let ghost ev = strings_view(envs@);
    push_str(out, "| Tenant |");
    let ghost o1 = out@;
    let mut i: usize = 0;
    while i < envs.len()
        invariant
            ev == strings_view(envs@),
            i <= envs@.len(),
            out@ == o1 + env_header_md(ev, i as int),
        decreases envs@.len() - i,
    {
        assert(ev[i as int] == envs@[i as int]@);
        push_str(out, " ");
        push_str(out, envs[i].as_str());
        push_str(out, " |");
        i = i + 1;
    }
    push_str(out, "\n");
    push_str(out, "|--------|");
    let ghost o2 = out@;
    let mut j: usize = 0;
    while j < envs.len()
        invariant
            j <= envs@.len(),
            out@ == o2 + separator_md(j as int),
        decreases envs@.len() - j,
    {
        push_str(out, "-----|");
        j = j + 1;
    }
    push_str(out, "\n");
}

fn push_md_rows(out: &mut String, p: &[ConfigPath], ts: &Vec<String>, envs: &Vec<String>)
    ensures
        final(out)@ == old(out)@ + rows_md(p@, strings_view(ts@), strings_view(envs@), ts@.len() as int),
{
    let ghost tv = strings_view(ts@);
    let ghost ev = strings_view(envs@);
    let ghost o0 = out@;
    proof {
        reveal_strlit("");
    }
    assert(""@ =~= Seq::<char>::empty());
    let mut i: usize = 0;
    while i < ts.len()
        invariant
            tv == strings_view(ts@),
            ev == strings_view(envs@),
            i <= ts@.len(),
            out@ == o0 + rows_md(p@, tv, ev, i as int),
            ""@ == Seq::<char>::empty(),
        decreases ts@.len() - i,
    {
        let t = ts[i].as_str();
        assert(tv[i as int] == t@);
        push_str(out, "| ");
        push_str(out, t);
        push_str(out, " |");
        let ghost o1 = out@;
        let mut j: usize = 0;
        while j < envs.len()
            invariant
                ev == strings_view(envs@),
                j <= envs@.len(),
                out@ == o1 + row_cells_md(p@, t@, ev, j as int),
                ""@ == Seq::<char>::empty(),
            decreases envs@.len() - j,
        {
            assert(ev[j as int] == envs@[j as int]@);
            let k = count_files(p, t, envs[j].as_str(), "", false);
            push_md_cell(out, k as u128, envs[j].as_str());
            j = j + 1;
        }
        push_str(out, "\n");
        i = i + 1;
    }
}

fn push_md_totals(out: &mut String, p: &[ConfigPath], ts: &Vec<String>, envs: &Vec<String>)
    ensures
        final(out)@ == old(out)@ + "| **Total** |"@ + total_cells_md(p@, strings_view(ts@), strings_view(envs@), envs@.len() as int) + "\n"@,
{
    let ghost tv = strings_view(ts@);
    let ghost ev = strings_view(envs@);
    proof {
        reveal_strlit("");
    }
    assert(""@ =~= Seq::<char>::empty());
    push_str(out, "| **Total** |");
    let ghost o1 = out@;
    let mut j: usize = 0;
    while j < envs.len()
        invariant
            tv == strings_view(ts@),
            ev == strings_view(envs@),
            j <= envs@.len(),
            out@ == o1 + total_cells_md(p@, tv, ev, j as int),
            ""@ == Seq::<char>::empty(),
        decreases envs@.len() - j,
    {
        assert(ev[j as int] == envs@[j as int]@);
        let total = tenants_total(p, ts, envs[j].as_str(), "", false);
        push_md_cell(out, total, envs[j].as_str());
        j = j + 1;
    }
    push_str(out, "\n");
}

/// The Markdown tenant-environment table: config file counts per tenant
/// and environment (production in bold), a totals row, and counts.
pub fn matrix(topology: &Topology) -> (r: String)
    ensures
        r@ == matrix_spec(*topology),
{
    let p = topology.config_paths.as_slice();
    let ts = sorted_distinct(&topology.taxonomy.tenants);
    let envs = sorted_distinct(&topology.taxonomy.environments);
    let mut out = to_owned_string("# Tenant-Environment Matrix\n\n");
    if ts.len() == 0 || envs.len() == 0 {
        push_str(&mut out, "No environment data available.\n");
        return out;
    }
    let ghost o0 = out@;
    push_md_head(&mut out, &envs);
    push_md_rows(&mut out, p, &ts, &envs);
    push_md_totals(&mut out, p, &ts, &envs);
    push_str(&mut out, "\n");
    let ghost o1 = out@;
    push_str(&mut out, usize_text(ts.len()).as_str());
    push_str(&mut out, " tenants, ");
    push_str(&mut out, usize_text(envs.len()).as_str());
    push_str(&mut out, " environments, ");
    push_str(&mut out, usize_text(p.len()).as_str());
    push_str(&mut out, " config files\n");
    out
}

} // verus!
