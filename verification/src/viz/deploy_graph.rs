//! The deployment graph page: ApplicationSets grouped by the Helm chart
//! they deploy, with generator badges and value file counts.
use vstd::prelude::*;
use crate::error::Error;
use crate::scan::argocd::{AppSetInfo, generator_name};
use crate::scan::helm::ChartInfo;
use crate::scan::topology::{Edge, Topology};
use crate::text::{nat_text, push_str, str_eq, strings_view, to_owned_string, usize_text};
use crate::viz::groups::{groups_view, gen_of, gen_for, chart_groups, linked_names};
use crate::viz::html::{document, document_spec, escape, escape_spec};
use crate::viz::mermaid::{deploy_groups, linked_of, unlinked, unlinked_list};

verus! {

/// Style rules of the deployment graph page.
pub const DEPLOY_CSS: &'static str = "\n.legend { margin-bottom: 1.5rem; display: flex; gap: 0.5rem; align-items: center; }\n.legend::before { content: 'Generator types: '; color: #8b949e; font-size: 0.875rem; }\n.badge { display: inline-block; padding: 0.15rem 0.5rem; border-radius: 12px; font-size: 0.7rem; color: #f0f6fc; font-weight: 600; text-transform: uppercase; letter-spacing: 0.03em; vertical-align: middle; }\n.card-grid { display: grid; grid-template-columns: repeat(auto-fill, minmax(340px, 1fr)); gap: 1rem; }\n.card { background: #161b22; border: 1px solid #30363d; border-radius: 8px; padding: 1rem; }\n.card-header { font-size: 1.1rem; font-weight: 600; color: #f0f6fc; margin-bottom: 0.25rem; display: flex; align-items: center; gap: 0.5rem; }\n.chart-icon { color: #3fb950; font-size: 0.9rem; }\n.version { font-size: 0.75rem; color: #8b949e; font-weight: 400; margin-left: auto; }\n.card-desc { font-size: 0.8rem; color: #8b949e; margin-bottom: 0.75rem; }\n.appset-list { display: flex; flex-direction: column; gap: 0.35rem; }\n.appset-row { font-size: 0.875rem; display: flex; align-items: center; gap: 0.5rem; padding: 0.25rem 0; }\n.vf-count { font-size: 0.65rem; color: #8b949e; background: #21262d; padding: 0.1rem 0.4rem; border-radius: 8px; }\n.unlinked-list { display: flex; flex-direction: column; gap: 0.35rem; padding: 0.5rem 0; }\n.stats { color: #8b949e; font-size: 0.875rem; margin-top: 1.5rem; }\n.nav { margin-top: 1.5rem; }\n";

/// Badge colour and label of a generator kind.
pub open spec fn badge_spec(g: Seq<char>) -> (Seq<char>, Seq<char>) {
    if g == "cluster"@ {
        ("#1f6feb"@, "cluster"@)
    } else if g == "git"@ {
        ("#238636"@, "git"@)
    } else if g == "matrix"@ {
        ("#8957e5"@, "matrix"@)
    } else if g == "list"@ {
        ("#da3633"@, "list"@)
    } else {
        ("#6e7681"@, "unknown"@)
    }
}

fn badge(g: &str) -> (r: (&'static str, &'static str))
    ensures
        (r.0@, r.1@) == badge_spec(g@),
{
    if str_eq(g, "cluster") {
        ("#1f6feb", "cluster")
    } else if str_eq(g, "git") {
        ("#238636", "git")
    } else if str_eq(g, "matrix") {
        ("#8957e5", "matrix")
    } else if str_eq(g, "list") {
        ("#da3633", "list")
    } else {
        ("#6e7681", "unknown")
    }
}

/// Value file edges of an ApplicationSet among the first `n` edges.
pub open spec fn vf_count(e: Seq<Edge>, name: Seq<char>, n: int) -> nat
    decreases n,
{
    if n <= 0 || n > e.len() {
        0
    } else {
        vf_count(e, name, n - 1) + match e[n - 1] {
            Edge::AppSetToValueFile { appset, .. } => if appset@ == name { 1nat } else { 0nat },
            _ => 0nat,
        }
    }
}

/// The first chart named `name` among the first `n`, from the front.
pub open spec fn find_chart(c: Seq<ChartInfo>, name: Seq<char>) -> Option<ChartInfo>
    decreases c.len(),
{
    if c.len() == 0 {
        None
    } else if c[0].name@ == name {
        Some(c[0])
    } else {
        find_chart(c.drop_first(), name)
    }
}

/// A badge span.
pub open spec fn badge_html(g: Seq<char>) -> Seq<char> {
    "<span class=\"badge\" style=\"background:"@ + badge_spec(g).0 + ";\">"@ + badge_spec(g).1 + "</span>"@
}

/// The row of one deploying ApplicationSet.
pub open spec fn appset_row(t: Topology, a: Seq<char>) -> Seq<char> {
    let n = vf_count(t.edges@, a, t.edges@.len() as int);
    "    <div class=\"appset-row\">"@ + badge_html(gen_of(t.appsets@, a)) + " "@ + escape_spec(a)
        + (if n > 0 {
            " <span class=\"vf-count\" title=\""@ + nat_text(n) + " value file template(s)\">"@ + nat_text(n) + " vf</span>"@
        } else {
            Seq::empty()
        })
        + "</div>\n"@
}

/// Rows of the first `n` members.
pub open spec fn appset_rows(t: Topology, m: Seq<Seq<char>>, n: int) -> Seq<char>
    decreases n,
{
    if n <= 0 || n > m.len() {
        Seq::empty()
    } else {
        appset_rows(t, m, n - 1) + appset_row(t, m[n - 1])
    }
}

/// The opening of a chart's card: name, version and description.
pub open spec fn card_head(t: Topology, chart: Seq<char>) -> Seq<char> {
    let info = find_chart(t.charts@, chart);
    let version = match info { Some(c) => c.version@, None => "?"@ };
    let desc = match info { Some(c) => c.description@, None => Seq::empty() };
    "<div class=\"card\">\n"@
        + "  <div class=\"card-header\"><span class=\"chart-icon\">&#x2B22;</span> "@ + escape_spec(chart)
        + "<span class=\"version\">v"@ + escape_spec(version) + "</span></div>\n"@
        + (if desc.len() > 0 { "  <div class=\"card-desc\">"@ + escape_spec(desc) + "</div>\n"@ } else { Seq::empty() })
}

/// The card of one chart group.
pub open spec fn chart_card(t: Topology, g: (Seq<char>, Seq<Seq<char>>)) -> Seq<char> {
    card_head(t, g.0) + "  <div class=\"appset-list\">\n"@ + appset_rows(t, g.1, g.1.len() as int) + "  </div>\n"@ + "</div>\n"@
}

/// Cards of the first `n` groups.
pub open spec fn chart_cards(t: Topology, g: Seq<(Seq<char>, Seq<Seq<char>>)>, n: int) -> Seq<char>
    decreases n,
{
    if n <= 0 || n > g.len() {
        Seq::empty()
    } else {
        chart_cards(t, g, n - 1) + chart_card(t, g[n - 1])
    }
}

/// Rows of the first `n` unlinked ApplicationSets.
pub open spec fn unlinked_rows(u: Seq<(Seq<char>, Seq<char>)>, n: int) -> Seq<char>
    decreases n,
{
    if n <= 0 || n > u.len() {
        Seq::empty()
    } else {
        unlinked_rows(u, n - 1) + "  <div class=\"appset-row\">"@ + badge_html(u[n - 1].1) + " "@ + escape_spec(u[n - 1].0) + "</div>\n"@
    }
}

/// The legend of generator badges.
pub open spec fn legend_spec() -> Seq<char> {
    "<div class=\"legend\">\n"@
        + "  <span class=\"badge\" style=\"background:"@ + "#1f6feb"@ + ";\">"@ + "cluster"@ + "</span>\n"@
        + "  <span class=\"badge\" style=\"background:"@ + "#238636"@ + ";\">"@ + "git"@ + "</span>\n"@
        + "  <span class=\"badge\" style=\"background:"@ + "#8957e5"@ + ";\">"@ + "matrix"@ + "</span>\n"@
        + "  <span class=\"badge\" style=\"background:"@ + "#da3633"@ + ";\">"@ + "list"@ + "</span>\n"@
        + "</div>\n"@
}

/// The body of the deployment graph page.
pub open spec fn deploy_body(t: Topology) -> Seq<char> {
    let a = t.appsets@;
    let g = deploy_groups(t);
    let linked = linked_of(t);
    let u = unlinked(a, linked, a.len() as int);
    let head = "<h1>Deployment Graph</h1>\n"@ + "<h2>ApplicationSets grouped by the Helm chart they deploy</h2>\n"@ + legend_spec();
    if g.len() == 0 && u.len() == 0 {
        head + "<p>No deployment data available.</p>\n"@
    } else {
        head + "<div class=\"card-grid\">\n"@ + chart_cards(t, g, g.len() as int) + "</div>\n"@
            + unlinked_section(u)
            + "<p class=\"stats\">"@ + nat_text(g.len()) + " charts deployed by "@ + nat_text(linked.len()) + " appsets ("@ + nat_text(u.len()) + " unlinked)</p>\n"@
            + "<p class=\"nav\"><a href=\"index.html\">Back to index</a></p>\n"@
    }
}

fn count_vf(e: &[Edge], name: &str) -> (r: usize)
    ensures
        r == vf_count(e@, name@, e@.len() as int),
{
    let mut n: usize = 0;
    let mut i: usize = 0;
    while i < e.len()
        invariant
            i <= e@.len(),
            n == vf_count(e@, name@, i as int),
            n <= i,
        decreases e@.len() - i,
    {
        match &e[i] {
            Edge::AppSetToValueFile { appset, .. } => {
                if str_eq(appset.as_str(), name) {
                    n = n + 1;
                }
            },
            _ => {},
        }
        i = i + 1;
    }
    n
}

fn chart_named<'a>(c: &'a [ChartInfo], name: &str) -> (r: Option<&'a ChartInfo>)
    ensures
        match r {
            Some(x) => find_chart(c@, name@) == Some(*x),
            None => find_chart(c@, name@) is None,
        },
{
    let mut i: usize = 0;
    assert(c@.subrange(0, c@.len() as int) =~= c@);
    while i < c.len()
        invariant
            i <= c@.len(),
            find_chart(c@, name@) == find_chart(c@.subrange(i as int, c@.len() as int), name@),
        decreases c@.len() - i,
    {
        let ghost rest = c@.subrange(i as int, c@.len() as int);
        assert(rest.drop_first() =~= c@.subrange(i + 1, c@.len() as int));
        assert(rest[0] == c@[i as int]);
        if str_eq(c[i].name.as_str(), name) {
            return Some(&c[i]);
        }
        i = i + 1;
    }
    assert(c@.subrange(i as int, c@.len() as int).len() == 0);
    None
}

fn push_badge(out: &mut String, g: &str)
    ensures
        final(out)@ == old(out)@ + badge_html(g@),
{
    let (color, label) = badge(g);
    push_str(out, "<span class=\"badge\" style=\"background:");
    push_str(out, color);
    push_str(out, ";\">");
    push_str(out, label);
    push_str(out, "</span>");
}

fn push_row(out: &mut String, t: &Topology, a: &str)
    ensures
        final(out)@ == old(out)@ + appset_row(*t, a@),
{
    let g = gen_for(t.appsets.as_slice(), a);
    let n = count_vf(t.edges.as_slice(), a);
    let ghost o0 = out@;
    push_str(out, "    <div class=\"appset-row\">");
    push_badge(out, g);
    push_str(out, " ");
    push_str(out, escape(a).as_str());
    let ghost o1 = out@;
    if n > 0 {
        push_str(out, " <span class=\"vf-count\" title=\"");
        push_str(out, usize_text(n).as_str());
        push_str(out, " value file template(s)\">");
        push_str(out, usize_text(n).as_str());
        push_str(out, " vf</span>");
    }
    push_str(out, "</div>\n");
}

fn push_card_head(out: &mut String, t: &Topology, chart: &str)
    ensures
        final(out)@ == old(out)@ + card_head(*t, chart@),
{
    let info = chart_named(t.charts.as_slice(), chart);
    let version: &str = match info { Some(c) => c.version.as_str(), None => "?" };
    let desc: &str = match info { Some(c) => c.description.as_str(), None => "" };
    proof {
        reveal_strlit("");
        assert(""@ =~= Seq::<char>::empty());
    }
    push_str(out, "<div class=\"card\">\n");
    push_str(out, "  <div class=\"card-header\"><span class=\"chart-icon\">&#x2B22;</span> ");
    push_str(out, escape(chart).as_str());
    push_str(out, "<span class=\"version\">v");
    push_str(out, escape(version).as_str());
    push_str(out, "</span></div>\n");
    if desc.unicode_len() > 0 {
        push_str(out, "  <div class=\"card-desc\">");
        push_str(out, escape(desc).as_str());
        push_str(out, "</div>\n");
    }
}

fn push_rows(out: &mut String, t: &Topology, members: &Vec<String>)
    ensures
        final(out)@ == old(out)@ + appset_rows(*t, strings_view(members@), members@.len() as int),
{
    let ghost o1 = out@;
    let ghost mv = strings_view(members@);
    let mut j: usize = 0;
    while j < members.len()
        invariant
            mv == strings_view(members@),
            j <= members@.len(),
            out@ == o1 + appset_rows(*t, mv, j as int),
        decreases members@.len() - j,
    {
        let a = members[j].as_str();
        assert(mv[j as int] == a@);
        push_row(out, t, a);
        j = j + 1;
    }
}

fn push_card(out: &mut String, t: &Topology, chart: &str, members: &Vec<String>)
    ensures
        final(out)@ == old(out)@ + chart_card(*t, (chart@, strings_view(members@))),
{
    let ghost o0 = out@;
    push_card_head(out, t, chart);
    push_str(out, "  <div class=\"appset-list\">\n");
    push_rows(out, t, members);
    push_str(out, "  </div>\n");
    push_str(out, "</div>\n");
    assert(out@ =~= o0 + chart_card(*t, (chart@, strings_view(members@))));
}

fn push_legend(out: &mut String)
    ensures
        final(out)@ == old(out)@ + legend_spec(),
{
    push_str(out, "<div class=\"legend\">\n");
    push_str(out, "  <span class=\"badge\" style=\"background:");
    push_str(out, "#1f6feb");
    push_str(out, ";\">");
    push_str(out, "cluster");
    push_str(out, "</span>\n");
    push_str(out, "  <span class=\"badge\" style=\"background:");
    push_str(out, "#238636");
    push_str(out, ";\">");
    push_str(out, "git");
    push_str(out, "</span>\n");
    push_str(out, "  <span class=\"badge\" style=\"background:");
    push_str(out, "#8957e5");
    push_str(out, ";\">");
    push_str(out, "matrix");
    push_str(out, "</span>\n");
    push_str(out, "  <span class=\"badge\" style=\"background:");
    push_str(out, "#da3633");
    push_str(out, ";\">");
    push_str(out, "list");
    push_str(out, "</span>\n");
    push_str(out, "</div>\n");
}

/// The section of unlinked ApplicationSets, empty when there are none.
pub open spec fn unlinked_section(u: Seq<(Seq<char>, Seq<char>)>) -> Seq<char> {
    if u.len() > 0 {
        "<h2 style=\"margin-top:2rem;\">Unlinked ApplicationSets (no chart match)</h2>\n"@ + "<div class=\"unlinked-list\">\n"@
            + unlinked_rows(u, u.len() as int) + "</div>\n"@
    } else {
        Seq::empty()
    }
}

fn push_unlinked(out: &mut String, un: &Vec<(String, String)>)
    ensures
        final(out)@ == old(out)@ + unlinked_section(Seq::new(un@.len(), |x: int| (un@[x].0@, un@[x].1@))),
{
    let ghost uv = Seq::new(un@.len(), |x: int| (un@[x].0@, un@[x].1@));
    let ghost o0 = out@;
    if un.len() > 0 {
        push_str(out, "<h2 style=\"margin-top:2rem;\">Unlinked ApplicationSets (no chart match)</h2>\n");
        push_str(out, "<div class=\"unlinked-list\">\n");
        let ghost o2 = out@;
        let mut j: usize = 0;
        while j < un.len()
            invariant
                uv == Seq::new(un@.len(), |x: int| (un@[x].0@, un@[x].1@)),
                j <= un@.len(),
                out@ == o2 + unlinked_rows(uv, j as int),
            decreases un@.len() - j,
        {
            push_str(out, "  <div class=\"appset-row\">");
            push_badge(out, un[j].1.as_str());
            push_str(out, " ");
            push_str(out, escape(un[j].0.as_str()).as_str());
            push_str(out, "</div>\n");
            j = j + 1;
        }
        push_str(out, "</div>\n");
        assert(out@ =~= o0 + unlinked_section(uv));
    } else {
        assert(out@ =~= o0 + unlinked_section(uv));
    }
}

/// Renders the deployment graph page; rendering never fails.
pub fn render(topology: &Topology) -> (r: Result<String, Error>)
    ensures
        r matches Ok(s) && s@ == document_spec("Deploy Graph - dq viz"@, DEPLOY_CSS@, deploy_body(*topology)),
{
    let a = topology.appsets.as_slice();
    let g = chart_groups(topology.edges.as_slice());
    let linked = linked_names(topology.edges.as_slice());
    let un = unlinked_list(a, &linked);
    let mut body = to_owned_string("<h1>Deployment Graph</h1>\n");
    push_str(&mut body, "<h2>ApplicationSets grouped by the Helm chart they deploy</h2>\n");
    push_legend(&mut body);
    if g.len() == 0 && un.len() == 0 {
        push_str(&mut body, "<p>No deployment data available.</p>\n");
        return Ok(document("Deploy Graph - dq viz", DEPLOY_CSS, body.as_str()));
    }
    push_str(&mut body, "<div class=\"card-grid\">\n");
    let ghost gv = groups_view(g@);
    let ghost o1 = body@;
    let mut c: usize = 0;
    while c < g.len()
        invariant
            gv == groups_view(g@),
            c <= g@.len(),
            body@ == o1 + chart_cards(*topology, gv, c as int),
        decreases g@.len() - c,
    {
        assert(gv[c as int] == (g@[c as int].0@, strings_view(g@[c as int].1@)));
        push_card(&mut body, topology, g[c].0.as_str(), &g[c].1);
        c = c + 1;
    }
    push_str(&mut body, "</div>\n");
    push_unlinked(&mut body, &un);
    push_str(&mut body, "<p class=\"stats\">");
    push_str(&mut body, usize_text(g.len()).as_str());
    push_str(&mut body, " charts deployed by ");
    push_str(&mut body, usize_text(linked.len()).as_str());
    push_str(&mut body, " appsets (");
    push_str(&mut body, usize_text(un.len()).as_str());
    push_str(&mut body, " unlinked)</p>\n");
    push_str(&mut body, "<p class=\"nav\"><a href=\"index.html\">Back to index</a></p>\n");
    Ok(document("Deploy Graph - dq viz", DEPLOY_CSS, body.as_str()))
}

} // verus!
