//! The depth-first walk that lays out the chart dependency flowchart:
//! each chart node once, each edge to an included dependency, each chart
//! visited once.
use vstd::prelude::*;
use crate::scan::helm::ChartInfo;
use crate::text::{push_str, push_string, strings_view, to_owned_string};
use crate::viz::groups::{distinct_names, sorted_distinct, groups_view, lookup, find_group, names_contain, name_add, name_insert, sanitize_spec, sanitize_id, chart_named, chart_for, dep_version, find_dependency};

verus! {

/// Model of the walk's state: the node lines written, the edge lines
/// held back, the node ids written, the chart names visited.
pub struct Emission {
    pub out: Seq<char>,
    pub edges: Seq<Seq<char>>,
    pub emitted: Seq<Seq<char>>,
    pub visited: Seq<Seq<char>>,
}

/// The walk's state.
pub struct Walk {
    pub out: String,
    pub edges: Vec<String>,
    pub emitted: Vec<String>,
    pub visited: Vec<String>,
}

impl View for Walk {
    type V = Emission;

    open spec fn view(&self) -> Emission {
        Emission {
            out: self.out@,
            edges: strings_view(self.edges@),
            emitted: strings_view(self.emitted@),
            visited: strings_view(self.visited@),
        }
    }
}

/// The empty state.
pub open spec fn fresh() -> Emission {
    Emission { out: Seq::empty(), edges: Seq::empty(), emitted: Seq::empty(), visited: Seq::empty() }
}

/// The node line of a chart: a local chart with its version, or an
/// external dependency with the version some chart asks for.
pub open spec fn node_line(c: Seq<ChartInfo>, name: Seq<char>) -> Seq<char> {
    match chart_named(c, name) {
        Some(info) => "        "@ + sanitize_spec(name) + "[\""@ + name + "  v"@ + info.version@ + "\"]\n"@,
        None => "        "@ + sanitize_spec(name) + "[\""@ + name + " v"@ + dep_version(c, name) + "<br/><i>external</i>\"]\n"@,
    }
}

/// Writes the node line of `name` unless its id was written.
pub open spec fn mark_node(c: Seq<ChartInfo>, st: Emission, name: Seq<char>) -> Emission {
    if st.emitted.contains(sanitize_spec(name)) {
        st
    } else {
        Emission {
            out: st.out + node_line(c, name),
            edges: st.edges,
            emitted: st.emitted.push(sanitize_spec(name)),
            visited: st.visited,
        }
    }
}

/// The edge line from the node `id` to the chart `child`.
pub open spec fn edge_line(id: Seq<char>, child: Seq<char>) -> Seq<char> {
    "    "@ + id + " --> "@ + sanitize_spec(child) + "\n"@
}

/// Visits `name`: unless visited, marks it visited, writes its node and
/// walks its children. `fuel` bounds the depth; the walk never needs more
/// than the number of names it can visit.
pub open spec fn emit_node(
    g: Seq<(Seq<char>, Seq<Seq<char>>)>,
    inc: Seq<Seq<char>>,
    c: Seq<ChartInfo>,
    st: Emission,
    name: Seq<char>,
    fuel: nat,
) -> Emission
    decreases fuel, 0int,
{
    if fuel == 0 || st.visited.contains(name) {
        st
    } else {
        let st1 = Emission { out: st.out, edges: st.edges, emitted: st.emitted, visited: st.visited.push(name) };
        let st2 = mark_node(c, st1, name);
        match lookup(g, name) {
            Some(cs) => emit_children(g, inc, c, st2, sanitize_spec(name), cs, cs.len() as int, (fuel - 1) as nat),
            None => st2,
        }
    }
}

/// Walks the first `n` children of the node `id`: each included child gets
/// its node written, an edge, and a visit.
pub open spec fn emit_children(
    g: Seq<(Seq<char>, Seq<Seq<char>>)>,
    inc: Seq<Seq<char>>,
    c: Seq<ChartInfo>,
    st: Emission,
    id: Seq<char>,
    cs: Seq<Seq<char>>,
    n: int,
    fuel: nat,
) -> Emission
    decreases fuel, n,
{
    if n <= 0 || n > cs.len() {
        st
    } else {
        let st0 = emit_children(g, inc, c, st, id, cs, n - 1, fuel);
        let ch = cs[n - 1];
        if inc.contains(ch) {
            let st1 = mark_node(c, st0, ch);
            let st2 = Emission { out: st1.out, edges: st1.edges.push(edge_line(id, ch)), emitted: st1.emitted, visited: st1.visited };
            emit_node(g, inc, c, st2, ch, fuel)
        } else {
            st0
        }
    }
}

/// Visits the included parents among the first `n` groups, in key order.
pub open spec fn nodes_pass(
    g: Seq<(Seq<char>, Seq<Seq<char>>)>,
    inc: Seq<Seq<char>>,
    c: Seq<ChartInfo>,
    st: Emission,
    n: int,
    fuel: nat,
) -> Emission
    decreases n,
{
    if n <= 0 || n > g.len() {
        st
    } else {
        let st0 = nodes_pass(g, inc, c, st, n - 1, fuel);
        if inc.contains(g[n - 1].0) {
            emit_node(g, inc, c, st0, g[n - 1].0, fuel)
        } else {
            st0
        }
    }
}

/// Each of the first `n` parents followed by its children.
pub open spec fn node_list(g: Seq<(Seq<char>, Seq<Seq<char>>)>, n: int) -> Seq<Seq<char>>
    decreases n,
{
    if n <= 0 || n > g.len() {
        Seq::empty()
    } else {
        node_list(g, n - 1) + seq![g[n - 1].0] + g[n - 1].1
    }
}

/// The names a flowchart shows: all, or when it is cut, the first `limit`
/// of the list.
pub open spec fn included(l: Seq<Seq<char>>, cut: bool, limit: nat) -> Seq<Seq<char>> {
    if cut && l.len() > limit { l.take(limit as int) } else { l }
}

/// The whole walk: the included parents in key order, depth first.
pub open spec fn chart_walk(g: Seq<(Seq<char>, Seq<Seq<char>>)>, inc: Seq<Seq<char>>, c: Seq<ChartInfo>) -> Emission {
    let l = node_list(g, g.len() as int);
    nodes_pass(g, inc, c, fresh(), g.len() as int, l.len())
}

/// How many positions of `u` hold a name not yet visited.
pub open spec fn unvisited(u: Seq<Seq<char>>, v: Seq<Seq<char>>) -> nat
    decreases u.len(),
{
    if u.len() == 0 {
        0
    } else {
        unvisited(u.drop_last(), v) + (if v.contains(u.last()) { 0nat } else { 1nat })
    }
}

proof fn lemma_unvisited_le(u: Seq<Seq<char>>, v: Seq<Seq<char>>)
    ensures
        unvisited(u, v) <= u.len(),
    decreases u.len(),
{
    if u.len() > 0 {
        lemma_unvisited_le(u.drop_last(), v);
    }
}

proof fn lemma_unvisited_mono(u: Seq<Seq<char>>, v: Seq<Seq<char>>, w: Seq<Seq<char>>)
    requires
        forall|x: Seq<char>| v.contains(x) ==> w.contains(x),
    ensures
        unvisited(u, w) <= unvisited(u, v),
    decreases u.len(),
{
    if u.len() > 0 {
        lemma_unvisited_mono(u.drop_last(), v, w);
    }
}

proof fn lemma_unvisited_strict(u: Seq<Seq<char>>, v: Seq<Seq<char>>, w: Seq<Seq<char>>, x: Seq<char>)
    requires
        forall|y: Seq<char>| v.contains(y) ==> w.contains(y),
        u.contains(x),
        !v.contains(x),
        w.contains(x),
    ensures
        unvisited(u, w) < unvisited(u, v),
    decreases u.len(),
{
    let k = choose|k: int| 0 <= k < u.len() && u[k] == x;
    if u.last() == x {
        lemma_unvisited_mono(u.drop_last(), v, w);
    } else {
        assert(u.drop_last()[k] == x);
        lemma_unvisited_strict(u.drop_last(), v, w, x);
    }
}

proof fn lemma_push_keeps(v: Seq<Seq<char>>, x: Seq<char>)
    ensures
        forall|y: Seq<char>| v.contains(y) ==> v.push(x).contains(y),
        v.push(x).contains(x),
{
    assert forall|y: Seq<char>| v.contains(y) implies v.push(x).contains(y) by {
        let k = choose|k: int| 0 <= k < v.len() && v[k] == y;
        assert(v.push(x)[k] == y);
    }
    assert(v.push(x)[v.len() as int] == x);
}

proof fn lemma_take_contains(l: Seq<Seq<char>>, n: int, x: Seq<char>)
    requires
        0 <= n <= l.len(),
        l.take(n).contains(x),
    ensures
        l.contains(x),
{
    let k = choose|k: int| 0 <= k < l.take(n).len() && l.take(n)[k] == x;
    assert(l[k] == x);
}

/// The names of the flowchart in list order (see [`node_list`]).
pub fn node_names(g: &Vec<(String, Vec<String>)>) -> (r: Vec<String>)
    ensures
        strings_view(r@) == node_list(groups_view(g@), g@.len() as int),
{
    let ghost gv = groups_view(g@);
    let mut r: Vec<String> = Vec::new();
    let mut i: usize = 0;
    while i < g.len()
        invariant
            gv == groups_view(g@),
            i <= g@.len(),
            strings_view(r@) == node_list(gv, i as int),
        decreases g@.len() - i,
    {
        push_string(&mut r, g[i].0.as_str());
        let cs = &g[i].1;
        let ghost r1 = strings_view(r@);
        let mut j: usize = 0;
        while j < cs.len()
            invariant
                i < g@.len(),
                *cs == g@[i as int].1,
                j <= cs@.len(),
                strings_view(r@) == r1 + strings_view(cs@).take(j as int),
            decreases cs@.len() - j,
        {
            push_string(&mut r, cs[j].as_str());
            assert(strings_view(cs@).take(j + 1) =~= strings_view(cs@).take(j as int).push(cs@[j as int]@));
            j = j + 1;
        }
        assert(strings_view(cs@).take(cs@.len() as int) =~= strings_view(cs@));
        assert(gv[i as int] == (g@[i as int].0@, strings_view(g@[i as int].1@)));
        i = i + 1;
    }
    r
}

/// The number of distinct names in a list.
pub fn distinct_count(l: &Vec<String>) -> (r: usize)
    ensures
        r == distinct_names(strings_view(l@), l@.len() as int).len(),
{
    sorted_distinct(l).len()
}

/// The names a flowchart shows (see [`included`]).
pub fn included_names(l: &Vec<String>, cut: bool, limit: usize) -> (r: Vec<String>)
    ensures
        strings_view(r@) == included(strings_view(l@), cut, limit as nat),
{
    let n: usize = if cut && l.len() > limit { limit } else { l.len() };
    let mut r: Vec<String> = Vec::new();
    let mut i: usize = 0;
    while i < n
        invariant
            n <= l@.len(),
            i <= n,
            strings_view(r@) == strings_view(l@).take(i as int),
        decreases n - i,
    {
        push_string(&mut r, l[i].as_str());
        assert(strings_view(l@).take(i + 1) =~= strings_view(l@).take(i as int).push(l@[i as int]@));
        i = i + 1;
    }
    assert(strings_view(l@).take(l@.len() as int) =~= strings_view(l@));
    r
}

fn push_node_line(out: &mut String, c: &[ChartInfo], name: &str)
    ensures
        final(out)@ == old(out)@ + node_line(c@, name@),
{
    let id = sanitize_id(name);
    match chart_for(c, name) {
        Some(info) => {
            push_str(out, "        ");
            push_str(out, id.as_str());
            push_str(out, "[\"");
            push_str(out, name);
            push_str(out, "  v");
            push_str(out, info.version.as_str());
            push_str(out, "\"]\n");
        },
        None => {
            push_str(out, "        ");
            push_str(out, id.as_str());
            push_str(out, "[\"");
            push_str(out, name);
            push_str(out, " v");
            match find_dependency(c, name) {
                Some(d) => push_str(out, d.version.as_str()),
                None => push_str(out, "?"),
            }
            push_str(out, "<br/><i>external</i>\"]\n");
        },
    }
}

fn mark(w: &mut Walk, c: &[ChartInfo], name: &str)
    ensures
        final(w)@ == mark_node(c@, old(w)@, name@),
{
    let id = sanitize_id(name);
    if !names_contain(&w.emitted, id.as_str()) {
        push_node_line(&mut w.out, c, name);
        push_string(&mut w.emitted, id.as_str());
    }
}

fn push_edge(w: &mut Walk, id: &str, child: &str)
    ensures
        final(w)@ == (Emission { out: old(w)@.out, edges: old(w)@.edges.push(edge_line(id@, child@)), emitted: old(w)@.emitted, visited: old(w)@.visited }),
{
    let mut line = String::new();
    push_str(&mut line, "    ");
    push_str(&mut line, id);
    push_str(&mut line, " --> ");
    push_str(&mut line, sanitize_id(child).as_str());
    push_str(&mut line, "\n");
    let ghost before = strings_view(w.edges@);
    w.edges.push(line);
    assert(strings_view(w.edges@) =~= before.push(edge_line(id@, child@)));
}

fn emit(
    w: &mut Walk,
    name: &str,
    g: &Vec<(String, Vec<String>)>,
    inc: &Vec<String>,
    c: &[ChartInfo],
    fuel: usize,
    Ghost(u): Ghost<Seq<Seq<char>>>,
)
    requires
        forall|x: Seq<char>| strings_view(inc@).contains(x) ==> u.contains(x),
        strings_view(inc@).contains(name@),
        unvisited(u, old(w)@.visited) <= fuel,
    ensures
        final(w)@ == emit_node(groups_view(g@), strings_view(inc@), c@, old(w)@, name@, fuel as nat),
        forall|x: Seq<char>| old(w)@.visited.contains(x) ==> final(w)@.visited.contains(x),
    decreases fuel,
{
    let ghost gv = groups_view(g@);
    let ghost incv = strings_view(inc@);
    let ghost v0 = w@.visited;
    if names_contain(&w.visited, name) {
        return;
    }
    push_string(&mut w.visited, name);
    proof {
        lemma_push_keeps(v0, name@);
        lemma_unvisited_strict(u, v0, w@.visited, name@);
    }
    mark(w, c, name);
    let ghost st2 = w@;
    match find_group(g, name) {
        Some(i) => {
            let cs = &g[i].1;
            let ghost csv = strings_view(cs@);
            let id = sanitize_id(name);
            let mut j: usize = 0;
            while j < cs.len()
                invariant
                    gv == groups_view(g@),
                    incv == strings_view(inc@),
                    forall|x: Seq<char>| incv.contains(x) ==> u.contains(x),
                    i < g@.len(),
                    *cs == g@[i as int].1,
                    csv == strings_view(cs@),
                    id@ == sanitize_spec(name@),
                    1 <= fuel,
                    j <= cs@.len(),
                    w@ == emit_children(gv, incv, c@, st2, id@, csv, j as int, (fuel - 1) as nat),
                    unvisited(u, w@.visited) <= fuel - 1,
                    forall|x: Seq<char>| v0.contains(x) ==> w@.visited.contains(x),
                decreases cs@.len() - j,
            {
                let ch = cs[j].as_str();
                assert(csv[j as int] == ch@);
                if names_contain(inc, ch) {
                    mark(w, c, ch);
                    push_edge(w, id.as_str(), ch);
                    let ghost vb = w@.visited;
                    emit(w, ch, g, inc, c, fuel - 1, Ghost(u));
                    proof {
                        lemma_unvisited_mono(u, vb, w@.visited);
                    }
                }
                j = j + 1;
            }
        },
        None => {},
    }
}

/// Walks the flowchart (see [`chart_walk`]).
pub fn walk_charts(g: &Vec<(String, Vec<String>)>, inc: &Vec<String>, c: &[ChartInfo]) -> (r: Walk)
    requires
        forall|x: Seq<char>| strings_view(inc@).contains(x) ==> node_list(groups_view(g@), g@.len() as int).contains(x),
    ensures
        r@ == chart_walk(groups_view(g@), strings_view(inc@), c@),
{
    let ghost gv = groups_view(g@);
    let ghost incv = strings_view(inc@);
    let l = node_names(g);
    let ghost u = strings_view(l@);
    let fuel = l.len();
    let mut w = Walk { out: String::new(), edges: Vec::new(), emitted: Vec::new(), visited: Vec::new() };
    proof {
        reveal_strlit("");
    }
    assert(w@.out =~= Seq::<char>::empty());
    assert(w@.edges =~= Seq::<Seq<char>>::empty());
    assert(w@.emitted =~= Seq::<Seq<char>>::empty());
    assert(w@.visited =~= Seq::<Seq<char>>::empty());
    assert(w@ == fresh());
    let mut i: usize = 0;
    while i < g.len()
        invariant
            gv == groups_view(g@),
            incv == strings_view(inc@),
            u == node_list(gv, g@.len() as int),
            fuel == u.len(),
            forall|x: Seq<char>| incv.contains(x) ==> u.contains(x),
            i <= g@.len(),
            w@ == nodes_pass(gv, incv, c@, fresh(), i as int, fuel as nat),
        decreases g@.len() - i,
    {
        let key = g[i].0.as_str();
        assert(gv[i as int].0 == key@);
        if names_contain(inc, key) {
            proof {
                lemma_unvisited_le(u, w@.visited);
            }
            emit(&mut w, key, g, inc, c, fuel, Ghost(u));
        }
        i = i + 1;
    }
    w
}


/// What a flowchart shows is among its names.
pub proof fn lemma_included_within(l: Seq<Seq<char>>, cut: bool, limit: nat)
    ensures
        forall|x: Seq<char>| included(l, cut, limit).contains(x) ==> l.contains(x),
{
    assert forall|x: Seq<char>| included(l, cut, limit).contains(x) implies l.contains(x) by {
        if cut && l.len() > limit {
            lemma_take_contains(l, limit as int, x);
        }
    }
}


// ── Each chart once ────────────────────────────────────────────────

/// No node id written twice, no chart visited twice.
pub open spec fn writes_once(st: Emission) -> bool {
    st.emitted.no_duplicates() && st.visited.no_duplicates()
}

proof fn lemma_push_fresh(s: Seq<Seq<char>>, x: Seq<char>)
    requires
        s.no_duplicates(),
        !s.contains(x),
    ensures
        s.push(x).no_duplicates(),
{
    let t = s.push(x);
    assert forall|i: int, j: int| 0 <= i < t.len() && 0 <= j < t.len() && i != j implies t[i] != t[j] by {
        if i == t.len() - 1 {
            assert(t[j] == s[j]);
        } else if j == t.len() - 1 {
            assert(t[i] == s[i]);
        } else {
            assert(t[i] == s[i] && t[j] == s[j]);
        }
    }
}

proof fn lemma_mark_once(c: Seq<ChartInfo>, st: Emission, name: Seq<char>)
    requires
        writes_once(st),
    ensures
        writes_once(mark_node(c, st, name)),
{
    if !st.emitted.contains(sanitize_spec(name)) {
        lemma_push_fresh(st.emitted, sanitize_spec(name));
    }
}

proof fn lemma_emit_once(
    g: Seq<(Seq<char>, Seq<Seq<char>>)>,
    inc: Seq<Seq<char>>,
    c: Seq<ChartInfo>,
    st: Emission,
    name: Seq<char>,
    fuel: nat,
)
    requires
        writes_once(st),
    ensures
        writes_once(emit_node(g, inc, c, st, name, fuel)),
    decreases fuel, 0int,
{
    if fuel > 0 && !st.visited.contains(name) {
        let st1 = Emission { out: st.out, edges: st.edges, emitted: st.emitted, visited: st.visited.push(name) };
        lemma_push_fresh(st.visited, name);
        lemma_mark_once(c, st1, name);
        let st2 = mark_node(c, st1, name);
        match lookup(g, name) {
            Some(cs) => lemma_children_once(g, inc, c, st2, sanitize_spec(name), cs, cs.len() as int, (fuel - 1) as nat),
            None => {},
        }
    }
}

proof fn lemma_children_once(
    g: Seq<(Seq<char>, Seq<Seq<char>>)>,
    inc: Seq<Seq<char>>,
    c: Seq<ChartInfo>,
    st: Emission,
    id: Seq<char>,
    cs: Seq<Seq<char>>,
    n: int,
    fuel: nat,
)
    requires
        writes_once(st),
    ensures
        writes_once(emit_children(g, inc, c, st, id, cs, n, fuel)),
    decreases fuel, n,
{
    if 0 < n <= cs.len() {
        lemma_children_once(g, inc, c, st, id, cs, n - 1, fuel);
        let st0 = emit_children(g, inc, c, st, id, cs, n - 1, fuel);
        let ch = cs[n - 1];
        if inc.contains(ch) {
            lemma_mark_once(c, st0, ch);
            let st1 = mark_node(c, st0, ch);
            let st2 = Emission { out: st1.out, edges: st1.edges.push(edge_line(id, ch)), emitted: st1.emitted, visited: st1.visited };
            lemma_emit_once(g, inc, c, st2, ch, fuel);
        }
    }
}

proof fn lemma_pass_once(
    g: Seq<(Seq<char>, Seq<Seq<char>>)>,
    inc: Seq<Seq<char>>,
    c: Seq<ChartInfo>,
    st: Emission,
    n: int,
    fuel: nat,
)
    requires
        writes_once(st),
    ensures
        writes_once(nodes_pass(g, inc, c, st, n, fuel)),
    decreases n,
{
    if 0 < n <= g.len() {
        lemma_pass_once(g, inc, c, st, n - 1, fuel);
        if inc.contains(g[n - 1].0) {
            lemma_emit_once(g, inc, c, nodes_pass(g, inc, c, st, n - 1, fuel), g[n - 1].0, fuel);
        }
    }
}

/// The dependency flowchart writes each chart's node once and walks each
/// chart once, however the charts depend on each other.
pub proof fn law_walk_writes_each_chart_once(g: Seq<(Seq<char>, Seq<Seq<char>>)>, inc: Seq<Seq<char>>, c: Seq<ChartInfo>)
    ensures
        chart_walk(g, inc, c).emitted.no_duplicates(),
        chart_walk(g, inc, c).visited.no_duplicates(),
{
    let l = node_list(g, g.len() as int);
    lemma_pass_once(g, inc, c, fresh(), g.len() as int, l.len());
}

} // verus!
