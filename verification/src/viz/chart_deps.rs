//! The chart dependency page: an indented tree of each chart with
//! dependencies, external dependencies marked with the version and
//! repository asked for, and the standalone charts.
use vstd::prelude::*;
use crate::error::Error;
use crate::scan::helm::{ChartInfo, chart_type_name};
use crate::scan::topology::{Edge, Topology};
use crate::text::{nat_text, push_str, strings_view, usize_text};
use crate::viz::groups::{groups_view, lookup, find_group, dep_groups, dependents, dep_pairs, standalone, chart_named, chart_for, dep_version, dep_repo, find_dependency, dependency_groups, dependent_names, dependency_edge_count, standalone_names};
use crate::viz::html::{document, document_spec, escape, escape_spec};

verus! {

/// Style rules of the chart dependency page.
pub const CHART_DEPS_CSS: &'static str = "\n.section { margin-bottom: 2rem; }\nh3 { color: #f0f6fc; font-size: 1rem; margin-bottom: 1rem; border-bottom: 1px solid #30363d; padding-bottom: 0.5rem; }\n.tree-node { padding: 0.4rem 0.5rem; font-size: 0.875rem; display: flex; align-items: center; gap: 0.5rem; border-left: 2px solid #30363d; }\n.tree-node:hover { background: #161b22; }\n.depth-0 { margin-left: 0; border-left-color: #58a6ff; }\n.depth-1 { margin-left: 1.5rem; border-left-color: #3fb950; }\n.depth-2 { margin-left: 3rem; border-left-color: #d29922; }\n.depth-3 { margin-left: 4.5rem; border-left-color: #da3633; }\n.depth-4 { margin-left: 6rem; border-left-color: #8957e5; }\n.connector { color: #484f58; font-family: monospace; }\n.chart-name { color: #f0f6fc; font-weight: 500; }\n.chart-name.external { color: #8b949e; font-style: italic; }\n.version { color: #8b949e; font-size: 0.75rem; }\n.chart-type { font-size: 0.65rem; color: #8b949e; background: #21262d; padding: 0.1rem 0.4rem; border-radius: 8px; }\n.desc { color: #6e7681; font-size: 0.75rem; flex: 1; overflow: hidden; text-overflow: ellipsis; white-space: nowrap; }\n.repo { color: #484f58; font-size: 0.7rem; overflow: hidden; text-overflow: ellipsis; white-space: nowrap; max-width: 20rem; }\n.external-tag { font-size: 0.6rem; color: #d29922; background: #2d1b00; padding: 0.1rem 0.35rem; border-radius: 8px; }\n.standalone-grid { display: grid; grid-template-columns: repeat(auto-fill, minmax(280px, 1fr)); gap: 0.75rem; }\n.standalone-card { background: #161b22; border: 1px solid #30363d; border-radius: 6px; padding: 0.75rem; font-size: 0.875rem; }\n.standalone-card .desc { display: block; color: #6e7681; font-size: 0.75rem; margin-top: 0.25rem; }\n.stats { color: #8b949e; font-size: 0.875rem; margin-top: 1rem; }\n.nav { margin-top: 1.5rem; }\n";

/// The indentation level of a tree depth: the depth, at most 4.
pub open spec fn depth_level(depth: nat) -> nat {
    if depth < 4 { depth } else { 4 }
}

/// The tree line of a local chart: version, type and description.
pub open spec fn local_node_html(info: ChartInfo, name: Seq<char>, depth: nat) -> Seq<char> {
    "<div class=\"tree-node depth-"@ + nat_text(depth_level(depth)) + "\"><span class=\"connector\">"@
        + (if depth == 0 { "&#x25BC;"@ } else { "&#x251C;&#x2500;"@ })
        + "</span><span class=\"chart-name\">"@ + escape_spec(name) + "</span> <span class=\"version\">v"@
        + escape_spec(info.version@) + "</span> <span class=\"chart-type\">"@ + chart_type_name(info.chart_type) + "</span>"@
        + (if info.description@.len() == 0 { Seq::empty() } else { " <span class=\"desc\">"@ + escape_spec(info.description@) + "</span>"@ })
        + "</div>\n"@
}

/// The tree line of an external dependency: the version and repository
/// some chart asks for.
pub open spec fn external_node_html(c: Seq<ChartInfo>, name: Seq<char>, depth: nat) -> Seq<char> {
    "<div class=\"tree-node depth-"@ + nat_text(depth_level(depth))
        + "\"><span class=\"connector\">&#x251C;&#x2500;</span><span class=\"chart-name external\">"@ + escape_spec(name)
        + "</span> <span class=\"version\">v"@ + escape_spec(dep_version(c, name)) + "</span>"@
        + (if dep_repo(c, name).len() == 0 { Seq::empty() } else { " <span class=\"repo\">"@ + escape_spec(dep_repo(c, name)) + "</span>"@ })
        + " <span class=\"external-tag\">external</span>"@ + "</div>\n"@
}

/// The tree line of a chart name.
pub open spec fn tree_node_html(c: Seq<ChartInfo>, name: Seq<char>, depth: nat) -> Seq<char> {
    match chart_named(c, name) {
        Some(info) => local_node_html(info, name, depth),
        None => external_node_html(c, name, depth),
    }
}

/// The tree of `name` at `depth`: its line, then its dependencies one
/// level deeper. A chain of dependencies longer than `fuel` parents (only
/// a cycle makes one longer than the number of parents) is cut there.
pub open spec fn tree_html(g: Seq<(Seq<char>, Seq<Seq<char>>)>, c: Seq<ChartInfo>, name: Seq<char>, depth: nat, fuel: nat) -> Seq<char>
    decreases fuel, 0int,
{
    tree_node_html(c, name, depth) + match lookup(g, name) {
        Some(cs) => if fuel == 0 {
            Seq::empty()
        } else {
            children_html(g, c, cs, depth + 1, cs.len() as int, (fuel - 1) as nat)
        },
        None => Seq::empty(),
    }
}

/// The trees of the first `n` children in `cs`.
pub open spec fn children_html(g: Seq<(Seq<char>, Seq<Seq<char>>)>, c: Seq<ChartInfo>, cs: Seq<Seq<char>>, depth: nat, n: int, fuel: nat) -> Seq<char>
    decreases fuel, n,
{
    if n <= 0 || n > cs.len() {
        Seq::empty()
    } else {
        children_html(g, c, cs, depth, n - 1, fuel) + tree_html(g, c, cs[n - 1], depth, fuel)
    }
}

/// The trees of the first `n` parents, each at depth 0.
pub open spec fn trees_html(g: Seq<(Seq<char>, Seq<Seq<char>>)>, c: Seq<ChartInfo>, n: int) -> Seq<char>
    decreases n,
{
    if n <= 0 || n > g.len() {
        Seq::empty()
    } else {
        trees_html(g, c, n - 1) + tree_html(g, c, g[n - 1].0, 0, g.len())
    }
}

/// The card of a standalone chart.
pub open spec fn card_html(c: Seq<ChartInfo>, name: Seq<char>) -> Seq<char> {
    match chart_named(c, name) {
        Some(info) => "<div class=\"standalone-card\"><span class=\"chart-name\">"@ + escape_spec(name)
            + "</span> <span class=\"version\">v"@ + escape_spec(info.version@) + "</span>"@
            + (if info.description@.len() == 0 { Seq::empty() } else { "<div class=\"desc\">"@ + escape_spec(info.description@) + "</div>"@ })
            + "</div>\n"@,
        None => Seq::empty(),
    }
}

/// The cards of the first `n` standalone charts.
pub open spec fn cards_html(c: Seq<ChartInfo>, s: Seq<Seq<char>>, n: int) -> Seq<char>
    decreases n,
{
    if n <= 0 || n > s.len() {
        Seq::empty()
    } else {
        cards_html(c, s, n - 1) + card_html(c, s[n - 1])
    }
}

/// The section of dependency trees.
pub open spec fn trees_section(c: Seq<ChartInfo>, g: Seq<(Seq<char>, Seq<Seq<char>>)>) -> Seq<char> {
    if g.len() > 0 {
        "<div class=\"section\">\n"@ + "<h3>Charts with dependencies</h3>\n"@ + trees_html(g, c, g.len() as int) + "</div>\n"@
    } else {
        Seq::empty()
    }
}

/// The section of standalone charts.
pub open spec fn cards_section(c: Seq<ChartInfo>, s: Seq<Seq<char>>) -> Seq<char> {
    if s.len() > 0 {
        "<div class=\"section\">\n"@ + "<h3>Standalone charts (no dependencies)</h3>\n"@ + "<div class=\"standalone-grid\">\n"@
            + cards_html(c, s, s.len() as int) + "</div>\n"@ + "</div>\n"@
    } else {
        Seq::empty()
    }
}

/// The counts and the link back to the index.
pub open spec fn stats_html(charts: nat, groups: nat, edges: nat, standalone_count: nat) -> Seq<char> {
    "<p class=\"stats\">"@ + nat_text(charts) + " charts total, "@ + nat_text(groups) + " with dependencies ("@
        + nat_text(edges) + " dependency edges), "@ + nat_text(standalone_count) + " standalone</p>\n"@
        + "<p class=\"nav\"><a href=\"index.html\">Back to index</a></p>\n"@
}

/// The sections and counts of the page, for charts `c`, dependency tree
/// `g`, standalone charts `s` and `edges` dependency edges.
pub open spec fn sections_html(c: Seq<ChartInfo>, g: Seq<(Seq<char>, Seq<Seq<char>>)>, s: Seq<Seq<char>>, edges: nat) -> Seq<char> {
    trees_section(c, g) + cards_section(c, s) + stats_html(c.len(), g.len(), edges, s.len())
}

/// The body of the chart dependency page.
pub open spec fn chart_deps_body(t: Topology) -> Seq<char> {
    let c = t.charts@;
    let g = dep_groups(t.edges@);
    "<h1>Chart Dependencies</h1>\n"@ + "<h2>Helm chart dependency tree with version and repository info</h2>\n"@
        + if c.len() == 0 {
            "<p>No chart data available.</p>\n"@
        } else {
            sections_html(c, g, standalone(c, g, dependents(t.edges@), c.len() as int), dep_pairs(t.edges@, t.edges@.len() as int).len())
        }
}

fn push_local_node(body: &mut String, info: &ChartInfo, name: &str, depth: usize)
    ensures
        final(body)@ == old(body)@ + local_node_html(*info, name@, depth as nat),
{
    let level: usize = if depth < 4 { depth } else { 4 };
    push_str(body, "<div class=\"tree-node depth-");
    push_str(body, usize_text(level).as_str());
    push_str(body, "\"><span class=\"connector\">");
    if depth == 0 {
        push_str(body, "&#x25BC;");
    } else {
        push_str(body, "&#x251C;&#x2500;");
    }
    push_str(body, "</span><span class=\"chart-name\">");
    push_str(body, escape(name).as_str());
    push_str(body, "</span> <span class=\"version\">v");
    push_str(body, escape(info.version.as_str()).as_str());
    push_str(body, "</span> <span class=\"chart-type\">");
    push_str(body, info.chart_type.name());
    push_str(body, "</span>");
    if info.description.as_str().unicode_len() != 0 {
        push_str(body, " <span class=\"desc\">");
        push_str(body, escape(info.description.as_str()).as_str());
        push_str(body, "</span>");
    }
    push_str(body, "</div>\n");
}

fn push_external_node(body: &mut String, c: &[ChartInfo], name: &str, depth: usize)
    ensures
        final(body)@ == old(body)@ + external_node_html(c@, name@, depth as nat),
{
    let level: usize = if depth < 4 { depth } else { 4 };
    push_str(body, "<div class=\"tree-node depth-");
    push_str(body, usize_text(level).as_str());
    push_str(body, "\"><span class=\"connector\">&#x251C;&#x2500;</span><span class=\"chart-name external\">");
    push_str(body, escape(name).as_str());
    push_str(body, "</span> <span class=\"version\">v");
    let dep = find_dependency(c, name);
    match dep {
        Some(d) => push_str(body, escape(d.version.as_str()).as_str()),
        None => push_str(body, escape("?").as_str()),
    }
    push_str(body, "</span>");
    match dep {
        Some(d) => {
            if d.repository.as_str().unicode_len() != 0 {
                push_str(body, " <span class=\"repo\">");
                push_str(body, escape(d.repository.as_str()).as_str());
                push_str(body, "</span>");
            }
        },
        None => {},
    }
    push_str(body, " <span class=\"external-tag\">external</span>");
    push_str(body, "</div>\n");
}

fn push_tree_node(body: &mut String, c: &[ChartInfo], name: &str, depth: usize)
    ensures
        final(body)@ == old(body)@ + tree_node_html(c@, name@, depth as nat),
{
    match chart_for(c, name) {
        Some(info) => push_local_node(body, info, name, depth),
        None => push_external_node(body, c, name, depth),
    }
}

fn push_tree(body: &mut String, g: &Vec<(String, Vec<String>)>, c: &[ChartInfo], name: &str, depth: usize, fuel: usize)
    requires
        depth + fuel <= usize::MAX,
    ensures
        final(body)@ == old(body)@ + tree_html(groups_view(g@), c@, name@, depth as nat, fuel as nat),
    decreases fuel,
{
    let ghost gv = groups_view(g@);
    let ghost o0 = body@;
    push_tree_node(body, c, name, depth);
    let ghost o1 = body@;
    match find_group(g, name) {
        Some(i) => {
            if fuel > 0 {
                let cs = &g[i].1;
                let ghost csv = strings_view(cs@);
                let mut j: usize = 0;
                while j < cs.len()
                    invariant
                        gv == groups_view(g@),
                        i < g@.len(),
                        *cs == g@[i as int].1,
                        csv == strings_view(cs@),
                        1 <= fuel,
                        depth + fuel <= usize::MAX,
                        j <= cs@.len(),
                        body@ == o1 + children_html(gv, c@, csv, (depth + 1) as nat, j as int, (fuel - 1) as nat),
                    decreases cs@.len() - j,
                {
                    assert(csv[j as int] == cs@[j as int]@);
                    push_tree(body, g, c, cs[j].as_str(), depth + 1, fuel - 1);
                    j = j + 1;
                }
            }
        },
        None => {},
    }
}

fn push_trees(body: &mut String, g: &Vec<(String, Vec<String>)>, c: &[ChartInfo])
    ensures
        final(body)@ == old(body)@ + trees_html(groups_view(g@), c@, g@.len() as int),
{
    let ghost gv = groups_view(g@);
    let ghost o0 = body@;
    let mut i: usize = 0;
    while i < g.len()
        invariant
            gv == groups_view(g@),
            i <= g@.len(),
            body@ == o0 + trees_html(gv, c@, i as int),
        decreases g@.len() - i,
    {
        assert(gv[i as int].0 == g@[i as int].0@);
        push_tree(body, g, c, g[i].0.as_str(), 0, g.len());
        i = i + 1;
    }
}

fn push_card(body: &mut String, c: &[ChartInfo], name: &str)
    ensures
        final(body)@ == old(body)@ + card_html(c@, name@),
{
    match chart_for(c, name) {
        Some(info) => {
            push_str(body, "<div class=\"standalone-card\"><span class=\"chart-name\">");
            push_str(body, escape(name).as_str());
            push_str(body, "</span> <span class=\"version\">v");
            push_str(body, escape(info.version.as_str()).as_str());
            push_str(body, "</span>");
            if info.description.as_str().unicode_len() != 0 {
                push_str(body, "<div class=\"desc\">");
                push_str(body, escape(info.description.as_str()).as_str());
                push_str(body, "</div>");
            }
            push_str(body, "</div>\n");
        },
        None => {
            assert(card_html(c@, name@) =~= Seq::<char>::empty());
            assert(body@ =~= body@ + Seq::<char>::empty());
        },
    }
}

fn push_cards(body: &mut String, c: &[ChartInfo], s: &Vec<String>)
    ensures
        final(body)@ == old(body)@ + cards_html(c@, strings_view(s@), s@.len() as int),
{
    let ghost sv = strings_view(s@);
    let ghost o0 = body@;
    let mut i: usize = 0;
    while i < s.len()
        invariant
            sv == strings_view(s@),
            i <= s@.len(),
            body@ == o0 + cards_html(c@, sv, i as int),
        decreases s@.len() - i,
    {
        let name = s[i].as_str();
        assert(sv[i as int] == name@);
        push_card(body, c, name);
        i = i + 1;
    }
}

fn push_stats(body: &mut String, charts: usize, groups: usize, edges: usize, standalone_count: usize)
    ensures
        final(body)@ == old(body)@ + stats_html(charts as nat, groups as nat, edges as nat, standalone_count as nat),
{
    push_str(body, "<p class=\"stats\">");
    push_str(body, usize_text(charts).as_str());
    push_str(body, " charts total, ");
    push_str(body, usize_text(groups).as_str());
    push_str(body, " with dependencies (");
    push_str(body, usize_text(edges).as_str());
    push_str(body, " dependency edges), ");
    push_str(body, usize_text(standalone_count).as_str());
    push_str(body, " standalone</p>\n");
    push_str(body, "<p class=\"nav\"><a href=\"index.html\">Back to index</a></p>\n");
}

fn push_sections(body: &mut String, c: &[ChartInfo], g: &Vec<(String, Vec<String>)>, s: &Vec<String>, e: &[Edge])
    ensures
        final(body)@ == old(body)@ + sections_html(c@, groups_view(g@), strings_view(s@), dep_pairs(e@, e@.len() as int).len()),
{
    let ghost o0 = body@;
    if g.len() > 0 {
        push_str(body, "<div class=\"section\">\n");
        push_str(body, "<h3>Charts with dependencies</h3>\n");
        push_trees(body, g, c);
        push_str(body, "</div>\n");
    }
    let ghost o1 = body@;
    assert(o1 == o0 + trees_section(c@, groups_view(g@)));
    if s.len() > 0 {
        push_str(body, "<div class=\"section\">\n");
        push_str(body, "<h3>Standalone charts (no dependencies)</h3>\n");
        push_str(body, "<div class=\"standalone-grid\">\n");
        push_cards(body, c, s);
        push_str(body, "</div>\n");
        push_str(body, "</div>\n");
    }
    let ghost o2 = body@;
    assert(o2 == o1 + cards_section(c@, strings_view(s@)));
    push_stats(body, c.len(), g.len(), dependency_edge_count(e), s.len());
    assert(body@ =~= o0 + sections_html(c@, groups_view(g@), strings_view(s@), dep_pairs(e@, e@.len() as int).len()));
}

/// The chart dependency page: a self-contained HTML document with the
/// dependency tree of each chart that has dependencies, the standalone
/// charts, and counts. It is always produced.
pub fn render(topology: &Topology) -> (r: Result<String, Error>)
    ensures
        r matches Ok(s) && s@ == document_spec("Chart Deps - dq viz"@, CHART_DEPS_CSS@, chart_deps_body(*topology)),
{
    let c = topology.charts.as_slice();
    let e = topology.edges.as_slice();
    let g = dependency_groups(e);
    let mut body = String::new();
    proof {
        reveal_strlit("");
    }
    assert(body@ =~= Seq::<char>::empty());
    push_str(&mut body, "<h1>Chart Dependencies</h1>\n");
    push_str(&mut body, "<h2>Helm chart dependency tree with version and repository info</h2>\n");
    if c.len() == 0 {
        push_str(&mut body, "<p>No chart data available.</p>\n");
        return Ok(document("Chart Deps - dq viz", CHART_DEPS_CSS, body.as_str()));
    }
    let h = dependent_names(e);
    let s = standalone_names(c, &g, &h);
    push_sections(&mut body, c, &g, &s, e);
    Ok(document("Chart Deps - dq viz", CHART_DEPS_CSS, body.as_str()))
}

} // verus!
