//! Cross-checks a digest of the Mermaid diagrams against the topology they
//! were drawn from: the deployment edges, the chart dependency edges
//! (self-loops left out on both sides), and a SHA-256 fingerprint of a
//! canonical text of both edge sets.
use vstd::prelude::*;
use sha2::Digest;
use crate::text::{is_white, is_white_char, lemma_str_lt_order, lemma_str_lt_trans, chars_of, push_char, push_str, split_spec, split_str, starts_with, str_eq, str_less, str_lt, strings_view, to_owned_string, trim, trim_spec, usize_text, nat_text};

verus! {

// ── Data ───────────────────────────────────────────────────────────

/// The diagrams of a digest.
#[derive(Debug)]
pub struct MermaidDigest {
    pub diagrams: Vec<Diagram>,
}

/// One flowchart: its name, nodes and edges.
#[derive(Debug)]
pub struct Diagram {
    pub name: String,
    pub nodes: Vec<Node>,
    pub edges: Vec<Edge>,
}

/// A flowchart node: its id and its label.
#[derive(Debug)]
pub struct Node {
    pub id: String,
    pub label: String,
}

/// A flowchart edge between two node ids.
#[derive(Debug)]
pub struct Edge {
    pub src: String,
    pub dst: String,
}

/// The parts of a topology document the check reads.
#[derive(Debug)]
pub struct Topology {
    pub edges: Vec<TopologyEdge>,
    pub charts: Vec<Chart>,
}

/// An entry of the topology's edge list: deployment edges carry an
/// ApplicationSet and a chart.
#[derive(Debug)]
pub struct TopologyEdge {
    pub appset: Option<String>,
    pub chart: Option<String>,
    pub edge_type: Option<String>,
}

/// A chart and the names of its dependencies.
#[derive(Debug)]
pub struct Chart {
    pub name: String,
    pub dependencies: Vec<ChartDep>,
}

/// A dependency of a chart.
#[derive(Debug)]
pub struct ChartDep {
    pub name: String,
}

// ── Labels ─────────────────────────────────────────────────────────

/// The first position at or after `i` whose character is (when `ws`) or
/// is not (when `!ws`) whitespace; the length when there is none.
pub open spec fn scan_to(s: Seq<char>, i: int, ws: bool) -> int
    decreases s.len() - i,
{
    if i < 0 || i >= s.len() {
        s.len() as int
    } else if is_white(s[i]) == ws {
        i
    } else {
        scan_to(s, i + 1, ws)
    }
}

/// The first whitespace-separated word of a label, or nothing.
pub open spec fn label_head_spec(s: Seq<char>) -> Seq<char> {
    let i = scan_to(s, 0, false);
    s.subrange(i, scan_to(s, i, true))
}

proof fn lemma_scan_bounds(s: Seq<char>, i: int, ws: bool)
    requires
        0 <= i,
    ensures
        i <= scan_to(s, i, ws) <= s.len() || (i > s.len() && scan_to(s, i, ws) == s.len()),
    decreases s.len() - i,
{
    if i < s.len() && is_white(s[i]) != ws {
        lemma_scan_bounds(s, i + 1, ws);
    }
}

/// The first whitespace-separated word of a node label (what names the
/// chart or ApplicationSet a node stands for).
pub fn label_head(label: &str) -> (r: String)
    ensures
        r@ == label_head_spec(label@),
{
    let cs = chars_of(label);
    let n = cs.len();
    let mut i: usize = 0;
    while i < n && is_white_char(cs[i])
        invariant
            cs@ == label@,
            n == cs@.len(),
            i <= n,
            scan_to(label@, 0, false) == scan_to(label@, i as int, false),
        decreases n - i,
    {
        i = i + 1;
    }
    let mut j: usize = i;
    let mut r = String::new();
    proof {
        reveal_strlit("");
    }
    assert(r@ =~= label@.subrange(i as int, j as int));
    while j < n && !is_white_char(cs[j])
        invariant
            cs@ == label@,
            n == cs@.len(),
            i <= j <= n,
            scan_to(label@, i as int, true) == scan_to(label@, j as int, true),
            r@ == label@.subrange(i as int, j as int),
        decreases n - j,
    {
        push_char(&mut r, cs[j]);
        j = j + 1;
        assert(r@ =~= label@.subrange(i as int, j as int));
    }
    r
}

// ── Edge sets ──────────────────────────────────────────────────────

/// Model of a pair of strings.
pub open spec fn pair_view(p: (String, String)) -> (Seq<char>, Seq<char>) {
    (p.0@, p.1@)
}

/// Model of a list of pairs.
pub open spec fn pairs_view(v: Seq<(String, String)>) -> Seq<(Seq<char>, Seq<char>)> {
    Seq::new(v.len(), |i: int| pair_view(v[i]))
}

/// Pairs ordered by first, then second component.
pub open spec fn pair_lt(a: (Seq<char>, Seq<char>), b: (Seq<char>, Seq<char>)) -> bool {
    str_lt(a.0, b.0) || (a.0 == b.0 && str_lt(a.1, b.1))
}

/// Position of the first pair not below `k`.
pub open spec fn first_pair_not_below(s: Seq<(Seq<char>, Seq<char>)>, k: (Seq<char>, Seq<char>)) -> int
    decreases s.len(),
{
    if s.len() == 0 {
        0
    } else if !pair_lt(s[0], k) {
        0
    } else {
        first_pair_not_below(s.drop_first(), k) + 1
    }
}

/// `k` added to a sorted set of pairs, unless it is there.
pub open spec fn pair_add(s: Seq<(Seq<char>, Seq<char>)>, k: (Seq<char>, Seq<char>)) -> Seq<(Seq<char>, Seq<char>)> {
    let p = first_pair_not_below(s, k);
    if 0 <= p < s.len() && s[p] == k { s } else { s.insert(p, k) }
}

fn pair_less(x: &(String, String), a: &str, b: &str) -> (r: bool)
    ensures
        r == pair_lt(pair_view(*x), (a@, b@)),
{
    str_less(x.0.as_str(), a) || (str_eq(x.0.as_str(), a) && str_less(x.1.as_str(), b))
}

/// Adds a pair to a sorted set of pairs (see [`pair_add`]).
pub fn pair_insert(v: &mut Vec<(String, String)>, a: &str, b: &str)
    ensures
        pairs_view(final(v)@) == pair_add(pairs_view(old(v)@), (a@, b@)),
{
    let ghost sv = pairs_view(v@);
    let mut p: usize = 0;
    assert(sv.subrange(0, sv.len() as int) =~= sv);
    while p < v.len() && pair_less(&v[p], a, b)
        invariant
            sv == pairs_view(v@),
            p <= v@.len(),
            first_pair_not_below(sv, (a@, b@)) == first_pair_not_below(sv.subrange(p as int, sv.len() as int), (a@, b@)) + p,
        decreases v@.len() - p,
    {
        let ghost rest = sv.subrange(p as int, sv.len() as int);
        assert(rest.drop_first() =~= sv.subrange(p + 1, sv.len() as int));
        assert(rest[0] == pair_view(v@[p as int]));
        p = p + 1;
    }
    proof {
        let rest = sv.subrange(p as int, sv.len() as int);
        if p < v@.len() {
            assert(rest[0] == pair_view(v@[p as int]));
        }
    }
    if p < v.len() && str_eq(v[p].0.as_str(), a) && str_eq(v[p].1.as_str(), b) {
        return;
    }
    v.insert(p, (to_owned_string(a), to_owned_string(b)));
    assert(pairs_view(v@) =~= sv.insert(p as int, (a@, b@)));
}

/// The label of the last node with id `id` among the first `n`.
pub open spec fn label_of(nodes: Seq<Node>, id: Seq<char>, n: int) -> Option<Seq<char>>
    decreases n,
{
    if n <= 0 || n > nodes.len() {
        None
    } else if nodes[n - 1].id@ == id {
        Some(nodes[n - 1].label@)
    } else {
        label_of(nodes, id, n - 1)
    }
}

fn find_label<'a>(nodes: &'a Vec<Node>, id: &str) -> (r: Option<&'a str>)
    ensures
        match r {
            Some(l) => label_of(nodes@, id@, nodes@.len() as int) == Some(l@),
            None => label_of(nodes@, id@, nodes@.len() as int) is None,
        },
{
    let mut i: usize = nodes.len();
    while i > 0
        invariant
            i <= nodes@.len(),
            label_of(nodes@, id@, nodes@.len() as int) == label_of(nodes@, id@, i as int),
        decreases i,
    {
        if str_eq(nodes[i - 1].id.as_str(), id) {
            return Some(nodes[i - 1].label.as_str());
        }
        i = i - 1;
    }
    None
}

/// The (ApplicationSet, chart) pair a deployment diagram edge stands
/// for: an edge from an `appset_` node to a `chart_` node, both labelled.
pub open spec fn deploy_pair(d: Diagram, e: Edge) -> Option<(Seq<char>, Seq<char>)> {
    if crate::text::is_prefix("appset_"@, e.src@) && crate::text::is_prefix("chart_"@, e.dst@) {
        match (label_of(d.nodes@, e.src@, d.nodes@.len() as int), label_of(d.nodes@, e.dst@, d.nodes@.len() as int)) {
            (Some(s), Some(t)) => Some((label_head_spec(s), label_head_spec(t))),
            _ => None,
        }
    } else {
        None
    }
}

/// The (chart, dependency) pair a dependency diagram edge stands for:
/// both ends labelled, both names non-empty and different.
pub open spec fn dep_pair(d: Diagram, e: Edge) -> Option<(Seq<char>, Seq<char>)> {
    match (label_of(d.nodes@, e.src@, d.nodes@.len() as int), label_of(d.nodes@, e.dst@, d.nodes@.len() as int)) {
        (Some(s), Some(t)) => {
            let (a, b) = (label_head_spec(s), label_head_spec(t));
            if a.len() == 0 || b.len() == 0 || a == b { None } else { Some((a, b)) }
        },
        _ => None,
    }
}

/// The sorted set of pairs the first `n` edges of a diagram stand for
/// (deployment pairs when `deploy`, dependency pairs otherwise).
pub open spec fn diagram_pairs(d: Diagram, deploy: bool, n: int) -> Seq<(Seq<char>, Seq<char>)>
    decreases n,
{
    if n <= 0 || n > d.edges@.len() {
        Seq::empty()
    } else {
        let s = diagram_pairs(d, deploy, n - 1);
        match (if deploy { deploy_pair(d, d.edges@[n - 1]) } else { dep_pair(d, d.edges@[n - 1]) }) {
            Some(p) => pair_add(s, p),
            None => s,
        }
    }
}

/// The (ApplicationSet, chart) pairs of a deployment diagram, as a
/// sorted set.
pub fn diagram_appset_chart_edges(d: &Diagram) -> (r: Vec<(String, String)>)
    ensures
        pairs_view(r@) == diagram_pairs(*d, true, d.edges@.len() as int),
{
    let mut out: Vec<(String, String)> = Vec::new();
    let mut i: usize = 0;
    assert(pairs_view(out@) =~= Seq::<(Seq<char>, Seq<char>)>::empty());
    while i < d.edges.len()
        invariant
            i <= d.edges@.len(),
            pairs_view(out@) == diagram_pairs(*d, true, i as int),
        decreases d.edges@.len() - i,
    {
        let e = &d.edges[i];
        if starts_with(e.src.as_str(), "appset_") && starts_with(e.dst.as_str(), "chart_") {
            match (find_label(&d.nodes, e.src.as_str()), find_label(&d.nodes, e.dst.as_str())) {
                (Some(s), Some(t)) => {
                    let a = label_head(s);
                    let b = label_head(t);
                    pair_insert(&mut out, a.as_str(), b.as_str());
                },
                _ => {},
            }
        }
        i = i + 1;
    }
    out
}

/// The (chart, dependency) pairs of a dependency diagram, self-loops and
/// unnamed ends left out, as a sorted set.
pub fn diagram_chart_dep_edges(d: &Diagram) -> (r: Vec<(String, String)>)
    ensures
        pairs_view(r@) == diagram_pairs(*d, false, d.edges@.len() as int),
{
    let mut out: Vec<(String, String)> = Vec::new();
    let mut i: usize = 0;
    assert(pairs_view(out@) =~= Seq::<(Seq<char>, Seq<char>)>::empty());
    while i < d.edges.len()
        invariant
            i <= d.edges@.len(),
            pairs_view(out@) == diagram_pairs(*d, false, i as int),
        decreases d.edges@.len() - i,
    {
        let e = &d.edges[i];
        match (find_label(&d.nodes, e.src.as_str()), find_label(&d.nodes, e.dst.as_str())) {
            (Some(s), Some(t)) => {
                let a = label_head(s);
                let b = label_head(t);
                if a.as_str().unicode_len() != 0 && b.as_str().unicode_len() != 0 && !str_eq(a.as_str(), b.as_str()) {
                    pair_insert(&mut out, a.as_str(), b.as_str());
                }
            },
            _ => {},
        }
        i = i + 1;
    }
    out
}

/// The sorted set of (ApplicationSet, chart) pairs of the first `n`
/// topology edges that carry both.
pub open spec fn topology_pairs(e: Seq<TopologyEdge>, n: int) -> Seq<(Seq<char>, Seq<char>)>
    decreases n,
{
    if n <= 0 || n > e.len() {
        Seq::empty()
    } else {
        let s = topology_pairs(e, n - 1);
        match (e[n - 1].appset, e[n - 1].chart) {
            (Some(a), Some(c)) => pair_add(s, (a@, c@)),
            _ => s,
        }
    }
}

/// The deployment pairs of a topology, as a sorted set.
pub fn topology_edges(t: &Topology) -> (r: Vec<(String, String)>)
    ensures
        pairs_view(r@) == topology_pairs(t.edges@, t.edges@.len() as int),
{
    let mut out: Vec<(String, String)> = Vec::new();
    let mut i: usize = 0;
    assert(pairs_view(out@) =~= Seq::<(Seq<char>, Seq<char>)>::empty());
    while i < t.edges.len()
        invariant
            i <= t.edges@.len(),
            pairs_view(out@) == topology_pairs(t.edges@, i as int),
        decreases t.edges@.len() - i,
    {
        match (&t.edges[i].appset, &t.edges[i].chart) {
            (Some(a), Some(c)) => pair_insert(&mut out, a.as_str(), c.as_str()),
            _ => {},
        }
        i = i + 1;
    }
    out
}

/// The first `n` dependencies of chart `c` added to the pair set `s`,
/// unnamed ends and self-loops left out.
pub open spec fn chart_dep_pairs(s: Seq<(Seq<char>, Seq<char>)>, c: Chart, n: int) -> Seq<(Seq<char>, Seq<char>)>
    decreases n,
{
    if n <= 0 || n > c.dependencies@.len() {
        s
    } else {
        let s1 = chart_dep_pairs(s, c, n - 1);
        let d = c.dependencies@[n - 1].name@;
        if c.name@.len() != 0 && d.len() != 0 && c.name@ != d { pair_add(s1, (c.name@, d)) } else { s1 }
    }
}

/// The sorted set of (chart, dependency) pairs of the first `n` charts.
pub open spec fn topology_dep_pairs(c: Seq<Chart>, n: int) -> Seq<(Seq<char>, Seq<char>)>
    decreases n,
{
    if n <= 0 || n > c.len() {
        Seq::empty()
    } else {
        chart_dep_pairs(topology_dep_pairs(c, n - 1), c[n - 1], c[n - 1].dependencies@.len() as int)
    }
}

/// The chart dependency pairs of a topology, as a sorted set.
pub fn topology_chart_dep_edges(t: &Topology) -> (r: Vec<(String, String)>)
    ensures
        pairs_view(r@) == topology_dep_pairs(t.charts@, t.charts@.len() as int),
{
    let mut out: Vec<(String, String)> = Vec::new();
    let mut i: usize = 0;
    assert(pairs_view(out@) =~= Seq::<(Seq<char>, Seq<char>)>::empty());
    while i < t.charts.len()
        invariant
            i <= t.charts@.len(),
            pairs_view(out@) == topology_dep_pairs(t.charts@, i as int),
        decreases t.charts@.len() - i,
    {
        let c = &t.charts[i];
        let ghost s0 = pairs_view(out@);
        let mut j: usize = 0;
        while j < c.dependencies.len()
            invariant
                i < t.charts@.len(),
                *c == t.charts@[i as int],
                j <= c.dependencies@.len(),
                pairs_view(out@) == chart_dep_pairs(s0, *c, j as int),
            decreases c.dependencies@.len() - j,
        {
            let d = c.dependencies[j].name.as_str();
            if c.name.as_str().unicode_len() != 0 && d.unicode_len() != 0 && !str_eq(c.name.as_str(), d) {
                pair_insert(&mut out, c.name.as_str(), d);
            }
            j = j + 1;
        }
        i = i + 1;
    }
    out
}

/// The first `n` pairs of `a` that `b` does not hold.
pub open spec fn pairs_minus(a: Seq<(Seq<char>, Seq<char>)>, b: Seq<(Seq<char>, Seq<char>)>, n: int) -> Seq<(Seq<char>, Seq<char>)>
    decreases n,
{
    if n <= 0 || n > a.len() {
        Seq::empty()
    } else {
        pairs_minus(a, b, n - 1) + (if b.contains(a[n - 1]) { Seq::empty() } else { seq![a[n - 1]] })
    }
}

fn pairs_contain(v: &Vec<(String, String)>, a: &str, b: &str) -> (r: bool)
    ensures
        r == pairs_view(v@).contains((a@, b@)),
{
    let mut i: usize = 0;
    while i < v.len()
        invariant
            i <= v@.len(),
            forall|k: int| 0 <= k < i ==> pairs_view(v@)[k] != (a@, b@),
        decreases v@.len() - i,
    {
        if str_eq(v[i].0.as_str(), a) && str_eq(v[i].1.as_str(), b) {
            assert(pairs_view(v@)[i as int] == (a@, b@));
            return true;
        }
        i = i + 1;
    }
    false
}

/// The pairs of `a` that `b` does not hold, in the order of `a`.
pub fn difference(a: &Vec<(String, String)>, b: &Vec<(String, String)>) -> (r: Vec<(String, String)>)
    ensures
        pairs_view(r@) == pairs_minus(pairs_view(a@), pairs_view(b@), a@.len() as int),
{
    let ghost av = pairs_view(a@);
    let ghost bv = pairs_view(b@);
    let mut r: Vec<(String, String)> = Vec::new();
    let mut i: usize = 0;
    assert(pairs_view(r@) =~= pairs_minus(av, bv, 0));
    while i < a.len()
        invariant
            av == pairs_view(a@),
            bv == pairs_view(b@),
            i <= a@.len(),
            pairs_view(r@) == pairs_minus(av, bv, i as int),
        decreases a@.len() - i,
    {
        assert(av[i as int] == pair_view(a@[i as int]));
        if !pairs_contain(b, a[i].0.as_str(), a[i].1.as_str()) {
            let ghost before = pairs_view(r@);
            r.push((to_owned_string(a[i].0.as_str()), to_owned_string(a[i].1.as_str())));
            assert(pairs_view(r@) =~= before.push(av[i as int]));
        }
        assert(pairs_view(r@) =~= pairs_minus(av, bv, i + 1));
        i = i + 1;
    }
    r
}


// ── Projection fingerprint ─────────────────────────────────────────

/// The line of a pair: `first|second`.
pub open spec fn pair_line(p: (Seq<char>, Seq<char>)) -> Seq<char> {
    p.0 + "|"@ + p.1
}

/// `k` placed in a sorted list of lines before the first line not below it.
pub open spec fn line_insert(s: Seq<Seq<char>>, k: Seq<char>) -> Seq<Seq<char>> {
    s.insert(crate::viz::groups::first_name_not_below(s, k), k)
}

/// The lines of the first `n` pairs, sorted as strings.
pub open spec fn sorted_lines(ps: Seq<(Seq<char>, Seq<char>)>, n: int) -> Seq<Seq<char>>
    decreases n,
{
    if n <= 0 || n > ps.len() {
        Seq::empty()
    } else {
        line_insert(sorted_lines(ps, n - 1), pair_line(ps[n - 1]))
    }
}

/// The lines of a pair set as text: each line and a newline.
pub open spec fn lines_text(ls: Seq<Seq<char>>, n: int) -> Seq<char>
    decreases n,
{
    if n <= 0 || n > ls.len() {
        Seq::empty()
    } else {
        lines_text(ls, n - 1) + ls[n - 1] + "\n"@
    }
}

/// The canonical text of both edge sets that the fingerprint hashes.
pub open spec fn preimage_spec(appset_chart: Seq<(Seq<char>, Seq<char>)>, chart_dep: Seq<(Seq<char>, Seq<char>)>) -> Seq<char> {
    let a = sorted_lines(appset_chart, appset_chart.len() as int);
    let c = sorted_lines(chart_dep, chart_dep.len() as int);
    "appset-chart-edges:\n"@ + lines_text(a, a.len() as int) + "\n"@ + "chart-dep-edges:\n"@ + lines_text(c, c.len() as int)
}

fn line_insert_exec(v: &mut Vec<String>, k: &str)
    ensures
        strings_view(final(v)@) == line_insert(strings_view(old(v)@), k@),
{
    let ghost sv = strings_view(v@);
    let mut p: usize = 0;
    assert(sv.subrange(0, sv.len() as int) =~= sv);
    while p < v.len() && str_less(v[p].as_str(), k)
        invariant
            sv == strings_view(v@),
            p <= v@.len(),
            crate::viz::groups::first_name_not_below(sv, k@)
                == crate::viz::groups::first_name_not_below(sv.subrange(p as int, sv.len() as int), k@) + p,
        decreases v@.len() - p,
    {
        let ghost rest = sv.subrange(p as int, sv.len() as int);
        assert(rest.drop_first() =~= sv.subrange(p + 1, sv.len() as int));
        assert(rest[0] == v@[p as int]@);
        p = p + 1;
    }
    proof {
        let rest = sv.subrange(p as int, sv.len() as int);
        if p < v@.len() {
            assert(rest[0] == v@[p as int]@);
        }
    }
    v.insert(p, to_owned_string(k));
    assert(strings_view(v@) =~= sv.insert(p as int, k@));
}

/// Each pair as a `first|second` line, the lines sorted as strings (so
/// `saas-prod|saas` comes before `saas|saas`).
pub fn edges_to_preimage_lines(edges: &Vec<(String, String)>) -> (r: Vec<String>)
    ensures
        strings_view(r@) == sorted_lines(pairs_view(edges@), edges@.len() as int),
{
    let ghost ev = pairs_view(edges@);
    let mut lines: Vec<String> = Vec::new();
    let mut i: usize = 0;
    assert(strings_view(lines@) =~= sorted_lines(ev, 0));
    while i < edges.len()
        invariant
            ev == pairs_view(edges@),
            i <= edges@.len(),
            strings_view(lines@) == sorted_lines(ev, i as int),
        decreases edges@.len() - i,
    {
        let mut line = to_owned_string(edges[i].0.as_str());
        push_str(&mut line, "|");
        push_str(&mut line, edges[i].1.as_str());
        assert(line@ == pair_line(ev[i as int]));
        line_insert_exec(&mut lines, line.as_str());
        i = i + 1;
    }
    lines
}

fn push_lines(out: &mut String, ls: &Vec<String>)
    ensures
        final(out)@ == old(out)@ + lines_text(strings_view(ls@), ls@.len() as int),
{
    let ghost o0 = out@;
    let mut i: usize = 0;
    while i < ls.len()
        invariant
            i <= ls@.len(),
            out@ == o0 + lines_text(strings_view(ls@), i as int),
        decreases ls@.len() - i,
    {
        push_str(out, ls[i].as_str());
        push_str(out, "\n");
        i = i + 1;
    }
}

/// The canonical text of both edge sets (see [`preimage_spec`]).
pub fn projection_preimage(appset_chart: &Vec<(String, String)>, chart_dep: &Vec<(String, String)>) -> (r: String)
    ensures
        r@ == preimage_spec(pairs_view(appset_chart@), pairs_view(chart_dep@)),
{
    let a = edges_to_preimage_lines(appset_chart);
    let c = edges_to_preimage_lines(chart_dep);
    let mut out = to_owned_string("appset-chart-edges:\n");
    push_lines(&mut out, &a);
    push_str(&mut out, "\n");
    push_str(&mut out, "chart-dep-edges:\n");
    push_lines(&mut out, &c);
    out
}

/// The SHA-256 digest of a byte string.
pub uninterp spec fn sha256_digest(data: Seq<u8>) -> Seq<u8>;

/// `sha2::Sha256::digest`: the digest of `data`, named `sha256_digest`;
/// it has the 32 bytes of the output type.
#[verifier::external_body]
fn sha256(data: &[u8]) -> (r: Vec<u8>)
    ensures
        r@ == sha256_digest(data@),
        r@.len() == 32,
{
    sha2::Sha256::digest(data).to_vec()
}

/// A lowercase hexadecimal digit.
pub open spec fn hex_digit(d: nat) -> char {
    if d < 10 { ((d + 48) as u8) as char } else { ((d + 87) as u8) as char }
}

/// Bytes as lowercase hexadecimal, two digits each.
pub open spec fn hex_spec(b: Seq<u8>) -> Seq<char>
    decreases b.len(),
{
    if b.len() == 0 {
        Seq::empty()
    } else {
        hex_spec(b.drop_last()) + seq![hex_digit((b.last() / 16) as nat), hex_digit((b.last() % 16) as nat)]
    }
}

fn hex_char(d: u8) -> (c: char)
    requires
        d < 16,
    ensures
        c == hex_digit(d as nat),
{
    if d < 10 { (d + 48) as char } else { (d + 87) as char }
}

/// The fingerprint of a text: `sha256:` and the hex digest of its UTF-8
/// bytes.
pub open spec fn fingerprint(text: Seq<char>) -> Seq<char> {
    "sha256:"@ + hex_spec(sha256_digest(vstd::utf8::encode_utf8(text)))
}

/// The fingerprint of both edge sets: `sha256:` and the hex SHA-256 of
/// their canonical text.
pub fn projection_hash(appset_chart: &Vec<(String, String)>, chart_dep: &Vec<(String, String)>) -> (r: String)
    ensures
        r@ == fingerprint(preimage_spec(pairs_view(appset_chart@), pairs_view(chart_dep@))),
        r@.len() == 71,
{
    let preimage = projection_preimage(appset_chart, chart_dep);
    let digest = sha256(preimage.as_str().as_bytes());
    let mut hex = to_owned_string("sha256:");
    proof {
        reveal_strlit("sha256:");
    }
    let ghost h0 = hex@;
    let mut i: usize = 0;
    while i < digest.len()
        invariant
            h0 == "sha256:"@,
            h0.len() == 7,
            i <= digest@.len(),
            digest@.len() == 32,
            hex@ == h0 + hex_spec(digest@.subrange(0, i as int)),
            hex@.len() == 7 + 2 * i,
        decreases digest@.len() - i,
    {
        let b = digest[i];
        push_char(&mut hex, hex_char(b / 16));
        push_char(&mut hex, hex_char(b % 16));
        assert(digest@.subrange(0, i + 1).drop_last() =~= digest@.subrange(0, i as int));
        assert(hex@ =~= h0 + hex_spec(digest@.subrange(0, i + 1)));
        i = i + 1;
    }
    assert(digest@.subrange(0, 32) =~= digest@);
    hex
}


// ── The check ──────────────────────────────────────────────────────

/// A line of the check's report, for standard error or standard output.
#[derive(Debug)]
pub struct Message {
    pub to_stderr: bool,
    pub text: String,
}

/// The report of a check: its lines in order, and whether any side
/// disagreed.
#[derive(Debug)]
pub struct Verdict {
    pub messages: Vec<Message>,
    pub mismatch: bool,
}

/// Model of a list of report lines.
pub open spec fn messages_view(v: Seq<Message>) -> Seq<(bool, Seq<char>)> {
    Seq::new(v.len(), |i: int| (v[i].to_stderr, v[i].text@))
}

fn push_msg(v: &mut Vec<Message>, to_stderr: bool, text: String)
    ensures
        messages_view(final(v)@) == messages_view(old(v)@).push((to_stderr, text@)),
{
    let ghost before = messages_view(v@);
    let ghost t = text@;
    v.push(Message { to_stderr, text });
    assert(messages_view(v@) =~= before.push((to_stderr, t)));
}

/// The first diagram named `name`.
pub open spec fn diagram_named(ds: Seq<Diagram>, name: Seq<char>) -> Option<Diagram>
    decreases ds.len(),
{
    if ds.len() == 0 {
        None
    } else if ds[0].name@ == name {
        Some(ds[0])
    } else {
        diagram_named(ds.drop_first(), name)
    }
}

/// The first diagram named `name` (see [`diagram_named`]).
pub fn find_diagram<'a>(digest: &'a MermaidDigest, name: &str) -> (r: Option<&'a Diagram>)
    ensures
        match r {
            Some(d) => diagram_named(digest.diagrams@, name@) == Some(*d),
            None => diagram_named(digest.diagrams@, name@) is None,
        },
{
    let ds = &digest.diagrams;
    let mut i: usize = 0;
    assert(ds@.subrange(0, ds@.len() as int) =~= ds@);
    while i < ds.len()
        invariant
            *ds == digest.diagrams,
            i <= ds@.len(),
            diagram_named(ds@, name@) == diagram_named(ds@.subrange(i as int, ds@.len() as int), name@),
        decreases ds@.len() - i,
    {
        assert(ds@.subrange(i as int, ds@.len() as int)[0] == ds@[i as int]);
        if str_eq(ds[i].name.as_str(), name) {
            assert(diagram_named(ds@.subrange(i as int, ds@.len() as int), name@) == Some(ds@[i as int]));
            let d = &ds[i];
            assert(*d == ds@[i as int]);
            return Some(d);
        }
        assert(ds@.subrange(i as int, ds@.len() as int).drop_first() =~= ds@.subrange(i + 1, ds@.len() as int));
        i = i + 1;
    }
    None
}

/// The lines listing the first `n` pairs of a difference.
pub open spec fn edge_lines(only: Seq<(Seq<char>, Seq<char>)>, n: int) -> Seq<(bool, Seq<char>)>
    decreases n,
{
    if n <= 0 || n > only.len() {
        Seq::empty()
    } else {
        edge_lines(only, n - 1).push((true, "    "@ + only[n - 1].0 + " -> "@ + only[n - 1].1))
    }
}

/// The lines describing the pairs only one side has: a heading, the first
/// twenty pairs, and how many more there are.
pub open spec fn diff_spec(label: Seq<char>, only: Seq<(Seq<char>, Seq<char>)>, a_name: Seq<char>, b_name: Seq<char>) -> Seq<(bool, Seq<char>)> {
    if only.len() == 0 {
        Seq::empty()
    } else {
        seq![(true, "  "@ + label + ": "@ + nat_text(only.len()) + " edge(s) only in "@ + a_name + " (missing from "@ + b_name + "):"@)]
            + edge_lines(only, if only.len() < 20 { only.len() as int } else { 20 })
            + (if only.len() > 20 { seq![(true, "    ... and "@ + nat_text((only.len() - 20) as nat) + " more"@)] } else { Seq::empty() })
    }
}

/// The lines describing the pairs only one side has (see [`diff_spec`]).
pub fn format_diff(label: &str, only: &Vec<(String, String)>, a_name: &str, b_name: &str) -> (r: Vec<Message>)
    ensures
        messages_view(r@) == diff_spec(label@, pairs_view(only@), a_name@, b_name@),
{
    let ghost ov = pairs_view(only@);
    let mut r: Vec<Message> = Vec::new();
    if only.len() == 0 {
        assert(messages_view(r@) =~= Seq::<(bool, Seq<char>)>::empty());
        return r;
    }
    let mut head = to_owned_string("  ");
    push_str(&mut head, label);
    push_str(&mut head, ": ");
    push_str(&mut head, usize_text(only.len()).as_str());
    push_str(&mut head, " edge(s) only in ");
    push_str(&mut head, a_name);
    push_str(&mut head, " (missing from ");
    push_str(&mut head, b_name);
    push_str(&mut head, "):");
    assert(messages_view(r@) =~= Seq::<(bool, Seq<char>)>::empty());
    push_msg(&mut r, true, head);
    let ghost m0 = messages_view(r@);
    let n: usize = if only.len() < 20 { only.len() } else { 20 };
    let mut i: usize = 0;
    while i < n
        invariant
            ov == pairs_view(only@),
            n <= only@.len(),
            i <= n,
            messages_view(r@) == m0 + edge_lines(ov, i as int),
        decreases n - i,
    {
        let mut line = to_owned_string("    ");
        push_str(&mut line, only[i].0.as_str());
        push_str(&mut line, " -> ");
        push_str(&mut line, only[i].1.as_str());
        assert(ov[i as int] == pair_view(only@[i as int]));
        push_msg(&mut r, true, line);
        i = i + 1;
    }
    if only.len() > 20 {
        let mut more = to_owned_string("    ... and ");
        push_str(&mut more, usize_text(only.len() - 20).as_str());
        push_str(&mut more, " more");
        push_msg(&mut r, true, more);
    }
    r
}

/// The lines of a comparison of the pairs of a diagram `d` with those of
/// the topology `t`, and whether they differ; `ok_tail` ends the line
/// reporting agreement.
pub open spec fn compare_spec(name: Seq<char>, d: Seq<(Seq<char>, Seq<char>)>, t: Seq<(Seq<char>, Seq<char>)>, ok_tail: Seq<char>) -> (Seq<(bool, Seq<char>)>, bool) {
    let od = pairs_minus(d, t, d.len() as int);
    let ot = pairs_minus(t, d, t.len() as int);
    if od.len() == 0 && ot.len() == 0 {
        (seq![(false, "verify-mermaid: "@ + name + " OK — "@ + nat_text(d.len()) + ok_tail)], false)
    } else {
        (seq![(true, "verify-mermaid: "@ + name + " MISMATCH"@)]
            + diff_spec("extra-in-diagram"@, od, "diagram"@, "topology"@)
            + diff_spec("extra-in-topology"@, ot, "topology"@, "diagram"@), true)
    }
}

fn compare(out: &mut Vec<Message>, name: &str, d: &Vec<(String, String)>, t: &Vec<(String, String)>, ok_tail: &str) -> (mismatch: bool)
    ensures
        messages_view(final(out)@) == messages_view(old(out)@) + compare_spec(name@, pairs_view(d@), pairs_view(t@), ok_tail@).0,
        mismatch == compare_spec(name@, pairs_view(d@), pairs_view(t@), ok_tail@).1,
{
    let ghost m0 = messages_view(out@);
    let od = difference(d, t);
    let ot = difference(t, d);
    if od.len() == 0 && ot.len() == 0 {
        let mut line = to_owned_string("verify-mermaid: ");
        push_str(&mut line, name);
        push_str(&mut line, " OK — ");
        push_str(&mut line, usize_text(d.len()).as_str());
        push_str(&mut line, ok_tail);
        push_msg(out, false, line);
        false
    } else {
        let mut line = to_owned_string("verify-mermaid: ");
        push_str(&mut line, name);
        push_str(&mut line, " MISMATCH");
        push_msg(out, true, line);
        let a = format_diff("extra-in-diagram", &od, "diagram", "topology");
        append_messages(out, a);
        let b = format_diff("extra-in-topology", &ot, "topology", "diagram");
        append_messages(out, b);
        true
    }
}

fn append_messages(out: &mut Vec<Message>, more: Vec<Message>)
    ensures
        messages_view(final(out)@) == messages_view(old(out)@) + messages_view(more@),
{
    let ghost m0 = messages_view(out@);
    let ghost mv = messages_view(more@);
    let mut more = more;
    let mut taken: Vec<Message> = Vec::new();
    while more.len() > 0
        invariant
            messages_view(taken@) + messages_view(more@) == mv,
        decreases more@.len(),
    {
        let ghost before = messages_view(more@);
        let m = more.remove(0);
        let ghost mt = (m.to_stderr, m.text@);
        let ghost tk = messages_view(taken@);
        taken.push(m);
        assert(messages_view(taken@) =~= tk.push(mt));
        assert(messages_view(more@) =~= before.drop_first());
        assert(before[0] == mt);
        assert(messages_view(taken@) + messages_view(more@) =~= tk + before);
    }
    assert(messages_view(more@) =~= Seq::<(bool, Seq<char>)>::empty());
    assert(messages_view(taken@) =~= mv);
    let ghost o = messages_view(out@);
    let mut i: usize = 0;
    let ghost tv = messages_view(taken@);
    while taken.len() > 0
        invariant
            messages_view(out@) + messages_view(taken@) == o + tv,
        decreases taken@.len(),
    {
        let ghost before = messages_view(taken@);
        let ghost ob = messages_view(out@);
        let m = taken.remove(0);
        let ghost mt = (m.to_stderr, m.text@);
        out.push(m);
        assert(messages_view(out@) =~= ob.push(mt));
        assert(messages_view(taken@) =~= before.drop_first());
        assert(before[0] == mt);
        assert(messages_view(out@) + messages_view(taken@) =~= ob + before);
    }
    assert(messages_view(taken@) =~= Seq::<(bool, Seq<char>)>::empty());
    assert(messages_view(out@) =~= o + tv);
}


/// A line without one trailing carriage return.
pub open spec fn strip_cr(l: Seq<char>) -> Seq<char> {
    if l.len() > 0 && l.last() == '\r' { l.drop_last() } else { l }
}

/// The lines of a text as `str::lines` gives them: split at each newline,
/// a carriage return before the newline dropped, no empty last line.
pub open spec fn lines_spec(s: Seq<char>) -> Seq<Seq<char>> {
    let p = split_spec(s, '\n');
    let body = Seq::new((p.len() - 1) as nat, |i: int| strip_cr(p[i]));
    if p.last().len() == 0 { body } else { body.push(p.last()) }
}

fn strip_cr_exec(l: &str) -> (r: String)
    ensures
        r@ == strip_cr(l@),
{
    let cs = chars_of(l);
    let n = cs.len();
    let m: usize = if n > 0 && cs[n - 1] == '\r' { n - 1 } else { n };
    crate::text::string_from_range(cs.as_slice(), 0, m)
}

/// The lines of a text (see [`lines_spec`]).
pub fn text_lines(s: &str) -> (r: Vec<String>)
    ensures
        strings_view(r@) == lines_spec(s@),
{
    let pieces = split_str(s, '\n');
    let ghost pv = strings_view(pieces@);
    proof {
        crate::text::lemma_split_nonempty(s@, '\n');
    }
    let n = pieces.len();
    let mut r: Vec<String> = Vec::new();
    let mut i: usize = 0;
    while i + 1 < n
        invariant
            pv == strings_view(pieces@),
            pv == split_spec(s@, '\n'),
            n == pieces@.len(),
            n >= 1,
            i + 1 <= n,
            strings_view(r@) == Seq::new(i as nat, |k: int| strip_cr(pv[k])),
        decreases n - i,
    {
        let ghost before = strings_view(r@);
        assert(pv[i as int] == pieces@[i as int]@);
        let line = strip_cr_exec(pieces[i].as_str());
        assert(line@ == strip_cr(pv[i as int]));
        r.push(line);
        assert(strings_view(r@) =~= before.push(strip_cr(pv[i as int])));
        assert(Seq::new((i + 1) as nat, |k: int| strip_cr(pv[k])) =~= Seq::new(i as nat, |k: int| strip_cr(pv[k])).push(strip_cr(pv[i as int])));
        i = i + 1;
    }
    assert(pv.last() == pieces@[n - 1]@);
    if pieces[n - 1].as_str().unicode_len() != 0 {
        let ghost before = strings_view(r@);
        r.push(to_owned_string(pieces[n - 1].as_str()));
        assert(strings_view(r@) =~= before.push(pv.last()));
    }
    r
}

/// The first `n` lines, each indented by two spaces, for standard error.
pub open spec fn indented(ls: Seq<Seq<char>>, n: int) -> Seq<(bool, Seq<char>)>
    decreases n,
{
    if n <= 0 || n > ls.len() {
        Seq::empty()
    } else {
        indented(ls, n - 1).push((true, "  "@ + ls[n - 1]))
    }
}

/// The pairs of a diagram, or none when there is no diagram.
pub open spec fn pairs_or_none(d: Option<Diagram>, deploy: bool) -> Seq<(Seq<char>, Seq<char>)> {
    match d {
        Some(d) => diagram_pairs(d, deploy, d.edges@.len() as int),
        None => Seq::empty(),
    }
}

/// The deployment pairs and dependency pairs of a topology.
pub open spec fn topology_sides(t: Topology) -> (Seq<(Seq<char>, Seq<char>)>, Seq<(Seq<char>, Seq<char>)>) {
    (topology_pairs(t.edges@, t.edges@.len() as int), topology_dep_pairs(t.charts@, t.charts@.len() as int))
}

/// The comparison of one diagram with its side of the topology, or a note
/// that the digest has no such diagram.
pub open spec fn diagram_check(dg: MermaidDigest, name: Seq<char>, deploy: bool, t: Seq<(Seq<char>, Seq<char>)>, ok_tail: Seq<char>) -> (Seq<(bool, Seq<char>)>, bool) {
    match diagram_named(dg.diagrams@, name) {
        Some(d) => compare_spec(name, diagram_pairs(d, deploy, d.edges@.len() as int), t, ok_tail),
        None => (seq![(true, "verify-mermaid: note — no `"@ + name + "` diagram in digest"@)], false),
    }
}

/// The comparison of the fingerprints of both sides.
pub open spec fn hash_check(dg: MermaidDigest, t: Topology) -> (Seq<(bool, Seq<char>)>, bool) {
    let th = fingerprint(preimage_spec(topology_sides(t).0, topology_sides(t).1));
    let mh = fingerprint(preimage_spec(
        pairs_or_none(diagram_named(dg.diagrams@, "deploy-graph"@), true),
        pairs_or_none(diagram_named(dg.diagrams@, "chart-deps"@), false),
    ));
    if th == mh {
        (seq![(false, "verify-mermaid: projection-hash "@ + th + " (matches)"@)], false)
    } else {
        (seq![(true, "verify-mermaid: projection-hash MISMATCH"@), (true, "  topology: "@ + th), (true, "  mermaid:  "@ + mh)], true)
    }
}

/// The comparison of the topology's fingerprint with a recorded one (its
/// text trimmed), when there is one; on a difference, the first forty
/// lines of the canonical text follow.
pub open spec fn recorded_check(t: Topology, recorded: Option<Seq<char>>) -> (Seq<(bool, Seq<char>)>, bool) {
    let pre = preimage_spec(topology_sides(t).0, topology_sides(t).1);
    let th = fingerprint(pre);
    match recorded {
        None => (Seq::empty(), false),
        Some(raw) => {
            let rec = trim_spec(raw);
            if rec == th {
                (seq![(false, "verify-mermaid: projection.hash on disk ("@ + rec + ") agrees with Rust computation"@)], false)
            } else {
                let ls = lines_spec(pre);
                (seq![
                    (true, "verify-mermaid: projection.hash on disk DIFFERS from Rust computation"@),
                    (true, "  on-disk (Python): "@ + rec),
                    (true, "  fresh    (Rust):  "@ + th),
                    (true, "\nThe two sides compute hashes over the same canonical pre-image."@),
                    (true, "A mismatch here means the Python and Rust implementations have drifted."@),
                    (true, "\n--- Rust pre-image (first 40 lines) ---"@),
                ] + indented(ls, if ls.len() < 40 { ls.len() as int } else { 40 }), true)
            }
        },
    }
}

/// The whole report: the deployment diagram, the dependency diagram, the
/// fingerprints, and the recorded fingerprint, in that order.
pub open spec fn verdict_spec(dg: MermaidDigest, t: Topology, recorded: Option<Seq<char>>) -> (Seq<(bool, Seq<char>)>, bool) {
    let a = diagram_check(dg, "deploy-graph"@, true, topology_sides(t).0, " appset→chart edges agree"@);
    let b = diagram_check(dg, "chart-deps"@, false, topology_sides(t).1, " dependency edges agree"@);
    let c = hash_check(dg, t);
    let d = recorded_check(t, recorded);
    (a.0 + b.0 + c.0 + d.0, a.1 || b.1 || c.1 || d.1)
}

fn check_diagram(out: &mut Vec<Message>, dg: &MermaidDigest, name: &str, deploy: bool, t: &Vec<(String, String)>, ok_tail: &str) -> (mismatch: bool)
    ensures
        messages_view(final(out)@) == messages_view(old(out)@) + diagram_check(*dg, name@, deploy, pairs_view(t@), ok_tail@).0,
        mismatch == diagram_check(*dg, name@, deploy, pairs_view(t@), ok_tail@).1,
{
    match find_diagram(dg, name) {
        Some(d) => {
            let pairs = if deploy { diagram_appset_chart_edges(d) } else { diagram_chart_dep_edges(d) };
            compare(out, name, &pairs, t, ok_tail)
        },
        None => {
            let ghost m0 = messages_view(out@);
            let mut line = to_owned_string("verify-mermaid: note — no `");
            push_str(&mut line, name);
            push_str(&mut line, "` diagram in digest");
            push_msg(out, true, line);
            assert(messages_view(out@) =~= m0 + diagram_check(*dg, name@, deploy, pairs_view(t@), ok_tail@).0);
            false
        },
    }
}

fn diagram_side(dg: &MermaidDigest, name: &str, deploy: bool) -> (r: Vec<(String, String)>)
    ensures
        pairs_view(r@) == pairs_or_none(diagram_named(dg.diagrams@, name@), deploy),
{
    match find_diagram(dg, name) {
        Some(d) => if deploy { diagram_appset_chart_edges(d) } else { diagram_chart_dep_edges(d) },
        None => {
            let r: Vec<(String, String)> = Vec::new();
            assert(pairs_view(r@) =~= Seq::<(Seq<char>, Seq<char>)>::empty());
            r
        },
    }
}

fn check_hashes(out: &mut Vec<Message>, dg: &MermaidDigest, topo_hash: &str, ta: &Vec<(String, String)>, tc: &Vec<(String, String)>) -> (mismatch: bool)
    requires
        topo_hash@ == fingerprint(preimage_spec(pairs_view(ta@), pairs_view(tc@))),
    ensures
        forall|t: Topology| topology_sides(t) == (pairs_view(ta@), pairs_view(tc@)) ==> {
            &&& messages_view(final(out)@) == messages_view(old(out)@) + hash_check(*dg, t).0
            &&& mismatch == hash_check(*dg, t).1
        },
{
    let ma = diagram_side(dg, "deploy-graph", true);
    let mc = diagram_side(dg, "chart-deps", false);
    let mermaid_hash = projection_hash(&ma, &mc);
    let ghost m0 = messages_view(out@);
    if str_eq(topo_hash, mermaid_hash.as_str()) {
        let mut line = to_owned_string("verify-mermaid: projection-hash ");
        push_str(&mut line, topo_hash);
        push_str(&mut line, " (matches)");
        push_msg(out, false, line);
        false
    } else {
        push_msg(out, true, to_owned_string("verify-mermaid: projection-hash MISMATCH"));
        let mut l1 = to_owned_string("  topology: ");
        push_str(&mut l1, topo_hash);
        push_msg(out, true, l1);
        let mut l2 = to_owned_string("  mermaid:  ");
        push_str(&mut l2, mermaid_hash.as_str());
        push_msg(out, true, l2);
        true
    }
}


fn check_recorded(out: &mut Vec<Message>, recorded: Option<&str>, topo_hash: &str, ta: &Vec<(String, String)>, tc: &Vec<(String, String)>) -> (mismatch: bool)
    requires
        topo_hash@ == fingerprint(preimage_spec(pairs_view(ta@), pairs_view(tc@))),
    ensures
        forall|t: Topology| topology_sides(t) == (pairs_view(ta@), pairs_view(tc@)) ==> {
            &&& messages_view(final(out)@) == messages_view(old(out)@) + recorded_check(t, match recorded { Some(r) => Some(r@), None => None }).0
            &&& mismatch == recorded_check(t, match recorded { Some(r) => Some(r@), None => None }).1
        },
{
    let ghost m0 = messages_view(out@);
    match recorded {
        None => {
            assert(messages_view(out@) =~= m0 + Seq::<(bool, Seq<char>)>::empty());
            false
        },
        Some(raw) => {
            let rec = trim(raw);
            if str_eq(rec, topo_hash) {
                let mut line = to_owned_string("verify-mermaid: projection.hash on disk (");
                push_str(&mut line, rec);
                push_str(&mut line, ") agrees with Rust computation");
                push_msg(out, false, line);
                assert(messages_view(out@) =~= m0 + seq![(false, "verify-mermaid: projection.hash on disk ("@ + rec@ + ") agrees with Rust computation"@)]);
                false
            } else {
                push_msg(out, true, to_owned_string("verify-mermaid: projection.hash on disk DIFFERS from Rust computation"));
                let mut l1 = to_owned_string("  on-disk (Python): ");
                push_str(&mut l1, rec);
                push_msg(out, true, l1);
                let mut l2 = to_owned_string("  fresh    (Rust):  ");
                push_str(&mut l2, topo_hash);
                push_msg(out, true, l2);
                push_msg(out, true, to_owned_string("\nThe two sides compute hashes over the same canonical pre-image."));
                push_msg(out, true, to_owned_string("A mismatch here means the Python and Rust implementations have drifted."));
                push_msg(out, true, to_owned_string("\n--- Rust pre-image (first 40 lines) ---"));
                let ghost m1 = messages_view(out@);
                let pre = projection_preimage(ta, tc);
                let ls = text_lines(pre.as_str());
                let ghost lv = strings_view(ls@);
                let n: usize = if ls.len() < 40 { ls.len() } else { 40 };
                let mut i: usize = 0;
                while i < n
                    invariant
                        lv == strings_view(ls@),
                        n <= ls@.len(),
                        i <= n,
                        messages_view(out@) == m1 + indented(lv, i as int),
                    decreases n - i,
                {
                    let mut line = to_owned_string("  ");
                    push_str(&mut line, ls[i].as_str());
                    assert(lv[i as int] == ls@[i as int]@);
                    push_msg(out, true, line);
                    i = i + 1;
                }
                true
            }
        },
    }
}

/// Checks a digest of the Mermaid diagrams against a topology: the
/// deployment pairs of the `deploy-graph` diagram against the topology's
/// deployment edges, the dependency pairs of the `chart-deps` diagram
/// against the charts' dependencies, the fingerprints of both sides, and,
/// when a recorded fingerprint is given, the topology's against it.
pub fn verify(digest: &MermaidDigest, topology: &Topology, recorded: Option<&str>) -> (r: Verdict)
    ensures
        messages_view(r.messages@) == verdict_spec(*digest, *topology, match recorded { Some(x) => Some(x@), None => None }).0,
        r.mismatch == verdict_spec(*digest, *topology, match recorded { Some(x) => Some(x@), None => None }).1,
{
    let ta = topology_edges(topology);
    let tc = topology_chart_dep_edges(topology);
    let mut out: Vec<Message> = Vec::new();
    assert(messages_view(out@) =~= Seq::<(bool, Seq<char>)>::empty());
    let a = check_diagram(&mut out, digest, "deploy-graph", true, &ta, " appset→chart edges agree");
    let ghost ma = messages_view(out@);
    let b = check_diagram(&mut out, digest, "chart-deps", false, &tc, " dependency edges agree");
    let ghost mb = messages_view(out@);
    let topo_hash = projection_hash(&ta, &tc);
    let c = check_hashes(&mut out, digest, topo_hash.as_str(), &ta, &tc);
    let ghost mc = messages_view(out@);
    let d = check_recorded(&mut out, recorded, topo_hash.as_str(), &ta, &tc);
    assert(topology_sides(*topology) == (pairs_view(ta@), pairs_view(tc@)));
    Verdict { messages: out, mismatch: a || b || c || d }
}


// ── Laws ───────────────────────────────────────────────────────────

/// The head of a label is its first word: what precedes it is
/// whitespace, it holds no whitespace, and it ends the label or is
/// followed by whitespace.
pub proof fn law_label_head_first_word(s: Seq<char>)
    ensures
        ({
            let i = scan_to(s, 0, false);
            let j = scan_to(s, i, true);
            &&& 0 <= i <= j <= s.len()
            &&& label_head_spec(s) == s.subrange(i, j)
            &&& forall|k: int| 0 <= k < i ==> is_white(#[trigger] s[k])
            &&& forall|k: int| i <= k < j ==> !is_white(#[trigger] s[k])
            &&& (j == s.len() || is_white(s[j]))
        }),
{
    lemma_scan_bounds(s, 0, false);
    let i = scan_to(s, 0, false);
    lemma_scan_bounds(s, i, true);
    lemma_scan_skips(s, 0, false);
    lemma_scan_skips(s, i, true);
}

proof fn lemma_scan_skips(s: Seq<char>, i: int, ws: bool)
    requires
        0 <= i,
    ensures
        forall|k: int| i <= k < scan_to(s, i, ws) ==> is_white(#[trigger] s[k]) != ws,
        scan_to(s, i, ws) < s.len() ==> is_white(s[scan_to(s, i, ws)]) == ws,
    decreases s.len() - i,
{
    if i < s.len() && is_white(s[i]) != ws {
        lemma_scan_skips(s, i + 1, ws);
    }
}

proof fn lemma_minus_self(a: Seq<(Seq<char>, Seq<char>)>, n: int)
    requires
        0 <= n <= a.len(),
    ensures
        pairs_minus(a, a, n).len() == 0,
    decreases n,
{
    if n > 0 {
        lemma_minus_self(a, n - 1);
        assert(a.contains(a[n - 1]));
    }
}

/// Sides that agree are reported as agreeing: when the diagram's pairs
/// are the topology's, the comparison reports no mismatch.
pub proof fn law_agreeing_pairs_match(name: Seq<char>, d: Seq<(Seq<char>, Seq<char>)>, ok_tail: Seq<char>)
    ensures
        compare_spec(name, d, d, ok_tail).1 == false,
{
    lemma_minus_self(d, d.len() as int);
}

/// A digest whose two diagrams give exactly the topology's deployment and
/// dependency pairs, checked with no recorded fingerprint or with the
/// topology's own, passes.
pub proof fn law_faithful_digest_passes(dg: MermaidDigest, t: Topology, recorded: Option<Seq<char>>)
    requires
        diagram_named(dg.diagrams@, "deploy-graph"@) is Some,
        diagram_named(dg.diagrams@, "chart-deps"@) is Some,
        pairs_or_none(diagram_named(dg.diagrams@, "deploy-graph"@), true) == topology_sides(t).0,
        pairs_or_none(diagram_named(dg.diagrams@, "chart-deps"@), false) == topology_sides(t).1,
        match recorded {
            Some(r) => trim_spec(r) == fingerprint(preimage_spec(topology_sides(t).0, topology_sides(t).1)),
            None => true,
        },
    ensures
        verdict_spec(dg, t, recorded).1 == false,
{
    law_agreeing_pairs_match("deploy-graph"@, topology_sides(t).0, " appset→chart edges agree"@);
    law_agreeing_pairs_match("chart-deps"@, topology_sides(t).1, " dependency edges agree"@);
}

/// Lines in string order, each no greater than the next.
pub open spec fn lines_sorted(s: Seq<Seq<char>>) -> bool {
    forall|i: int, j: int| 0 <= i < j < s.len() ==> !str_lt(#[trigger] s[j], #[trigger] s[i])
}

proof fn lemma_first_not_below(s: Seq<Seq<char>>, k: Seq<char>)
    ensures
        0 <= crate::viz::groups::first_name_not_below(s, k) <= s.len(),
        forall|i: int| 0 <= i < crate::viz::groups::first_name_not_below(s, k) ==> str_lt(#[trigger] s[i], k),
        crate::viz::groups::first_name_not_below(s, k) < s.len() ==> !str_lt(s[crate::viz::groups::first_name_not_below(s, k)], k),
    decreases s.len(),
{
    if s.len() > 0 && str_lt(s[0], k) {
        lemma_first_not_below(s.drop_first(), k);
        assert forall|i: int| 0 <= i < crate::viz::groups::first_name_not_below(s, k) implies str_lt(#[trigger] s[i], k) by {
            if i > 0 {
                assert(s[i] == s.drop_first()[i - 1]);
            }
        }
    }
}

proof fn lemma_line_insert_sorted(s: Seq<Seq<char>>, k: Seq<char>)
    requires
        lines_sorted(s),
    ensures
        lines_sorted(line_insert(s, k)),
        line_insert(s, k).len() == s.len() + 1,
{
    lemma_first_not_below(s, k);
    let p = crate::viz::groups::first_name_not_below(s, k);
    let r = line_insert(s, k);
    assert forall|i: int, j: int| 0 <= i < j < r.len() implies !str_lt(#[trigger] r[j], #[trigger] r[i]) by {
        let ii = if i < p { i } else { i - 1 };
        let jj = if j < p { j } else { j - 1 };
        if i == p {
            // r[i] == k, r[j] == s[jj] with jj >= p
            lemma_str_lt_order(s[jj], k);
            if jj > p {
                lemma_str_lt_order(s[jj], s[p]);
                if str_lt(s[jj], k) {
                    lemma_str_lt_order(s[p], k);
                    if str_lt(k, s[p]) {
                        lemma_str_lt_trans(s[jj], k, s[p]);
                    }
                }
            }
        } else if j == p {
            lemma_str_lt_order(s[ii], k);
        } else {
            assert(r[i] == s[ii] && r[j] == s[jj]);
        }
    }
}

proof fn lemma_sorted_lines(ps: Seq<(Seq<char>, Seq<char>)>, n: int)
    requires
        0 <= n <= ps.len(),
    ensures
        lines_sorted(sorted_lines(ps, n)),
        sorted_lines(ps, n).len() == n,
    decreases n,
{
    if n > 0 {
        lemma_sorted_lines(ps, n - 1);
        lemma_line_insert_sorted(sorted_lines(ps, n - 1), pair_line(ps[n - 1]));
    }
}

/// The lines of the canonical text are in string order, one per pair,
/// whatever order the pairs come in.
pub proof fn law_preimage_lines_sorted(ps: Seq<(Seq<char>, Seq<char>)>)
    ensures
        lines_sorted(sorted_lines(ps, ps.len() as int)),
        sorted_lines(ps, ps.len() as int).len() == ps.len(),
{
    lemma_sorted_lines(ps, ps.len() as int);
}

} // verus!
