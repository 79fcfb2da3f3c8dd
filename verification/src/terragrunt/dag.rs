//! The dependency graph of the Terragrunt modules of a tree: each module
//! is a node, and each `dependency` block an edge from the module that
//! declares it to the module it names. The graph itself is a petgraph
//! `Graph`; its node weights are the positions of the modules.
use vstd::prelude::*;
use petgraph::graph::{EdgeIndex, Graph, NodeIndex};
use petgraph::{Directed, Direction};
use crate::error::Error;
use crate::terragrunt::config::TerragruntConfig;
use crate::value::{Val, Value, view_entries, view_values};
use crate::text::{push_str, str_eq, strings_view, to_owned_string};

verus! {

#[verifier::external_type_specification]
#[verifier::external_body]
#[verifier::reject_recursive_types(N)]
#[verifier::reject_recursive_types(E)]
#[verifier::reject_recursive_types(Ty)]
#[verifier::reject_recursive_types(Ix)]
pub struct ExGraph<N, E, Ty, Ix>(Graph<N, E, Ty, Ix>);

#[verifier::external_type_specification]
#[verifier::external_body]
pub struct ExDirected(Directed);

// ── What the graph holds ───────────────────────────────────────────

/// The node weights of a module graph, by node index.
pub uninterp spec fn graph_nodes(g: Graph<usize, (), Directed, u32>) -> Seq<usize>;

/// The edges of a module graph as (source, target) node indices, in the
/// order they were added.
pub uninterp spec fn graph_edges(g: Graph<usize, (), Directed, u32>) -> Seq<(usize, usize)>;

/// What petgraph's `toposort` returns for a graph with these node weights
/// and edges: the node indices in its order, or the index of a node on a
/// cycle.
pub uninterp spec fn toposort_outcome(nodes: Seq<usize>, edges: Seq<(usize, usize)>) -> Result<Seq<usize>, usize>;

/// The targets of the edges leaving `a`, the most recently added first.
pub open spec fn successors(edges: Seq<(usize, usize)>, a: usize) -> Seq<usize>
    decreases edges.len(),
{
    if edges.len() == 0 {
        Seq::empty()
    } else {
        let e = edges.last();
        let rest = successors(edges.drop_last(), a);
        if e.0 == a {
            seq![e.1] + rest
        } else {
            rest
        }
    }
}

/// The sources of the edges entering `a`, the most recently added first.
pub open spec fn predecessors(edges: Seq<(usize, usize)>, a: usize) -> Seq<usize>
    decreases edges.len(),
{
    if edges.len() == 0 {
        Seq::empty()
    } else {
        let e = edges.last();
        let rest = predecessors(edges.drop_last(), a);
        if e.1 == a {
            seq![e.0] + rest
        } else {
            rest
        }
    }
}

/// `order` lists each of the nodes `0..n` once, and every edge's source
/// before its target.
pub open spec fn is_topological(order: Seq<usize>, n: nat, edges: Seq<(usize, usize)>) -> bool {
    &&& order.len() == n
    &&& forall|i: int| 0 <= i < order.len() ==> order[i] < n
    &&& forall|x: usize| x < n ==> #[trigger] order.contains(x)
    &&& forall|i: int, j: int| 0 <= i < j < order.len() ==> order[i] != order[j]
    &&& forall|k: int, i: int, j: int|
        0 <= k < edges.len() && 0 <= i < order.len() && 0 <= j < order.len()
            && order[i] == edges[k].0 && order[j] == edges[k].1 ==> i < j
}

/// The `i`th and next entries of `p` are joined by an edge.
pub open spec fn is_step(edges: Seq<(usize, usize)>, p: Seq<usize>, i: int) -> bool {
    edges.contains((p[i], p[i + 1]))
}

/// `p` is a walk of at least one edge.
pub open spec fn is_walk(edges: Seq<(usize, usize)>, p: Seq<usize>) -> bool {
    &&& p.len() >= 2
    &&& forall|i: int| 0 <= i < p.len() - 1 ==> #[trigger] is_step(edges, p, i)
}

/// `b` can be reached from `a` along one edge or more.
pub open spec fn reaches(edges: Seq<(usize, usize)>, a: usize, b: usize) -> bool {
    exists|p: Seq<usize>| is_walk(edges, p) && p[0] == a && p.last() == b
}

// ── Calls into petgraph ────────────────────────────────────────────

/// `Graph::new`: a directed graph with no nodes and no edges.
#[verifier::external_body]
fn new_graph() -> (g: Graph<usize, (), Directed, u32>)
    ensures
        graph_nodes(g) == Seq::<usize>::empty(),
        graph_edges(g) == Seq::<(usize, usize)>::empty(),
{
    Graph::new()
}

/// `Graph::add_node`: appends a node holding `weight` and returns its
/// index, the former node count. It panics when the count has reached
/// the largest `u32`, which `requires` leaves out.
#[verifier::external_body]
fn add_graph_node(g: &mut Graph<usize, (), Directed, u32>, weight: usize) -> (idx: usize)
    requires
        graph_nodes(*old(g)).len() < u32::MAX,
    ensures
        idx == graph_nodes(*old(g)).len(),
        graph_nodes(*final(g)) == graph_nodes(*old(g)).push(weight),
        graph_edges(*final(g)) == graph_edges(*old(g)),
{
    g.add_node(weight).index()
}

/// `Graph::add_edge`: appends the edge `a -> b`. It panics when a node
/// is missing or the edge count has reached the largest `u32`, which
/// `requires` leaves out.
#[verifier::external_body]
fn add_graph_edge(g: &mut Graph<usize, (), Directed, u32>, a: usize, b: usize)
    requires
        a < graph_nodes(*old(g)).len(),
        b < graph_nodes(*old(g)).len(),
        graph_nodes(*old(g)).len() < u32::MAX,
        graph_edges(*old(g)).len() < u32::MAX,
    ensures
        graph_nodes(*final(g)) == graph_nodes(*old(g)),
        graph_edges(*final(g)) == graph_edges(*old(g)).push((a, b)),
{
    g.add_edge(NodeIndex::new(a), NodeIndex::new(b), ());
}

/// `Graph::node_count`.
#[verifier::external_body]
fn graph_node_count(g: &Graph<usize, (), Directed, u32>) -> (n: usize)
    ensures
        n == graph_nodes(*g).len(),
{
    g.node_count()
}

/// `Graph::edge_count`.
#[verifier::external_body]
fn graph_edge_count(g: &Graph<usize, (), Directed, u32>) -> (n: usize)
    ensures
        n == graph_edges(*g).len(),
{
    g.edge_count()
}

/// `Graph::edge_endpoints` of an edge that exists: its source and target.
#[verifier::external_body]
fn graph_edge_endpoints(g: &Graph<usize, (), Directed, u32>, e: usize) -> (r: (usize, usize))
    requires
        e < graph_edges(*g).len(),
        graph_edges(*g).len() <= u32::MAX,
    ensures
        r == graph_edges(*g)[e as int],
{
    let (a, b) = g.edge_endpoints(EdgeIndex::new(e)).unwrap();
    (a.index(), b.index())
}

/// `Graph::neighbors` of a directed graph: the targets of the edges
/// leaving `a`, the most recently added edge first.
#[verifier::external_body]
fn graph_successors(g: &Graph<usize, (), Directed, u32>, a: usize) -> (r: Vec<usize>)
    requires
        a < graph_nodes(*g).len(),
        graph_nodes(*g).len() < u32::MAX,
    ensures
        r@ == successors(graph_edges(*g), a),
{
    g.neighbors(NodeIndex::new(a)).map(|n| n.index()).collect()
}

/// `Graph::neighbors_directed` with `Incoming`: the sources of the edges
/// entering `a`, the most recently added edge first.
#[verifier::external_body]
fn graph_predecessors(g: &Graph<usize, (), Directed, u32>, a: usize) -> (r: Vec<usize>)
    requires
        a < graph_nodes(*g).len(),
        graph_nodes(*g).len() < u32::MAX,
    ensures
        r@ == predecessors(graph_edges(*g), a),
{
    g.neighbors_directed(NodeIndex::new(a), Direction::Incoming).map(|n| n.index()).collect()
}

/// `petgraph::algo::toposort`: on an acyclic graph the nodes in an order
/// that puts every node before its successors, else a node that lies on
/// a cycle. Which order, and which node, is what the named outcome holds.
#[verifier::external_body]
fn graph_toposort(g: &Graph<usize, (), Directed, u32>) -> (r: Result<Vec<usize>, usize>)
    ensures
        toposort_outcome(graph_nodes(*g), graph_edges(*g)) == (match r {
            Ok(v) => Ok(v@),
            Err(c) => Err(c),
        }),
        r matches Ok(v) ==> is_topological(v@, graph_nodes(*g).len(), graph_edges(*g)),
        r matches Err(c) ==> c < graph_nodes(*g).len() && reaches(graph_edges(*g), c, c)
            && !exists|o: Seq<usize>| is_topological(o, graph_nodes(*g).len(), graph_edges(*g)),
{
    match petgraph::algo::toposort(g, None) {
        Ok(v) => Ok(v.into_iter().map(|n| n.index()).collect()),
        Err(c) => Err(c.node_id().index()),
    }
}

// ── Modules ────────────────────────────────────────────────────────

/// A module of the graph.
#[derive(Debug)]
pub struct ModuleNode {
    /// The module's directory.
    pub path: String,
    /// The directory relative to the root, "." for the root itself.
    pub relative_path: String,
    /// The parsed configuration, where it parsed.
    pub config: Option<TerragruntConfig>,
    /// The source of the configuration's `terraform` block.
    pub source: Option<String>,
}

/// The source of a configuration's `terraform` block, if any.
pub open spec fn source_of(config: Option<TerragruntConfig>) -> Option<Seq<char>> {
    match config {
        Some(c) => match c@.terraform {
            Some(t) => t.source,
            None => None,
        },
        None => None,
    }
}

/// Model of an optional string.
pub open spec fn opt_chars(o: Option<String>) -> Option<Seq<char>> {
    match o {
        Some(s) => Some(s@),
        None => None,
    }
}

impl ModuleNode {
    /// The module at `path`, `relative_path` below the root (an empty one
    /// is the root itself, shown as "."), with its configuration; its
    /// source is that of the configuration's `terraform` block.
    pub fn new(path: String, relative_path: String, config: Option<TerragruntConfig>) -> (r: ModuleNode)
        ensures
            r.path@ == path@,
            r.relative_path@ == (if relative_path@.len() == 0 { "."@ } else { relative_path@ }),
            r.config == config,
            opt_chars(r.source) == source_of(config),
    {
        let source = match &config {
            Some(c) => match &c.terraform {
                Some(t) => match &t.source {
                    Some(s) => Some(to_owned_string(s.as_str())),
                    None => None,
                },
                None => None,
            },
            None => None,
        };
        let relative = if relative_path.as_str().unicode_len() == 0 {
            to_owned_string(".")
        } else {
            relative_path
        };
        proof {
            reveal_strlit(".");
        }
        ModuleNode { path, relative_path: relative, config, source }
    }

    /// How the module is shown: its relative path.
    pub fn label(&self) -> (r: String)
        ensures
            r@ == self.relative_path@,
    {
        to_owned_string(self.relative_path.as_str())
    }
}

/// The relative paths of the modules.
pub open spec fn module_labels(nodes: Seq<ModuleNode>) -> Seq<Seq<char>> {
    Seq::new(nodes.len(), |i: int| nodes[i].relative_path@)
}

/// No two modules share a directory.
pub open spec fn distinct_paths(nodes: Seq<ModuleNode>) -> bool {
    forall|i: int, j: int| 0 <= i < j < nodes.len() ==> nodes[i].path@ != nodes[j].path@
}

/// The position of the module whose directory is `p`.
pub open spec fn index_of_path(nodes: Seq<ModuleNode>, p: Seq<char>) -> Option<int> {
    if exists|i: int| 0 <= i < nodes.len() && nodes[i].path@ == p {
        Some(choose|i: int| 0 <= i < nodes.len() && nodes[i].path@ == p)
    } else {
        None
    }
}

/// The position of the module whose directory is `p`, if any.
pub fn find_module(nodes: &Vec<ModuleNode>, p: &str) -> (r: Option<usize>)
    requires
        distinct_paths(nodes@),
    ensures
        match r {
            Some(i) => index_of_path(nodes@, p@) == Some(i as int) && i < nodes@.len(),
            None => index_of_path(nodes@, p@) is None,
        },
{
    let mut i: usize = 0;
    while i < nodes.len()
        invariant
            i <= nodes@.len(),
            distinct_paths(nodes@),
            forall|j: int| 0 <= j < i ==> nodes@[j].path@ != p@,
        decreases nodes@.len() - i,
    {
        if str_eq(nodes[i].path.as_str(), p) {
            proof {
                assert(0 <= i < nodes@.len() && nodes@[i as int].path@ == p@);
                let c = choose|j: int| 0 <= j < nodes@.len() && nodes@[j].path@ == p@;
                if c != i as int {
                    assert(nodes@[c].path@ == nodes@[i as int].path@);
                }
            }
            return Some(i);
        }
        i = i + 1;
    }
    None
}

// ── The graph ──────────────────────────────────────────────────────

/// The dependency graph of the modules below a root.
pub struct DependencyGraph {
    /// Node `i` stands for `nodes[i]`; an edge runs from a module to one
    /// it depends on.
    pub graph: Graph<usize, (), Directed, u32>,
    pub nodes: Vec<ModuleNode>,
    pub root: String,
}

/// Model of the dependency directories given for each module.
pub open spec fn deps_view(resolved: Seq<Vec<String>>) -> Seq<Seq<Seq<char>>> {
    Seq::new(resolved.len(), |i: int| Seq::new(resolved[i]@.len(), |j: int| resolved[i]@[j]@))
}

/// How many dependency directories the first `k` modules give.
pub open spec fn deps_total(resolved: Seq<Seq<Seq<char>>>, k: int) -> int
    decreases k,
{
    if k <= 0 || k > resolved.len() {
        0
    } else {
        deps_total(resolved, k - 1) + resolved[k - 1].len()
    }
}

/// The edges module `i` gets: one to each of `deps` that is the
/// directory of a module, in order.
pub open spec fn module_edges(nodes: Seq<ModuleNode>, i: usize, deps: Seq<Seq<char>>) -> Seq<(usize, usize)>
    decreases deps.len(),
{
    if deps.len() == 0 {
        Seq::empty()
    } else {
        let rest = module_edges(nodes, i, deps.drop_last());
        match index_of_path(nodes, deps.last()) {
            Some(j) => rest.push((i, j as usize)),
            None => rest,
        }
    }
}

/// The edges of the first `k` modules, module by module.
pub open spec fn built_edges(nodes: Seq<ModuleNode>, resolved: Seq<Seq<Seq<char>>>, k: int) -> Seq<(usize, usize)>
    decreases k,
{
    if k <= 0 || k > resolved.len() {
        Seq::empty()
    } else {
        built_edges(nodes, resolved, k - 1) + module_edges(nodes, (k - 1) as usize, resolved[k - 1])
    }
}

proof fn lemma_module_edges(nodes: Seq<ModuleNode>, i: usize, deps: Seq<Seq<char>>)
    requires
        i < nodes.len(),
    ensures
        module_edges(nodes, i, deps).len() <= deps.len(),
        forall|k: int| 0 <= k < module_edges(nodes, i, deps).len() ==>
            (#[trigger] module_edges(nodes, i, deps)[k]).0 == i && module_edges(nodes, i, deps)[k].1 < nodes.len(),
    decreases deps.len(),
{
    if deps.len() > 0 {
        lemma_module_edges(nodes, i, deps.drop_last());
        match index_of_path(nodes, deps.last()) {
            Some(j) => {
                let c = choose|c: int| 0 <= c < nodes.len() && nodes[c].path@ == deps.last();
                assert(c == j);
            },
            None => {},
        }
    }
}

proof fn lemma_built_edges(nodes: Seq<ModuleNode>, resolved: Seq<Seq<Seq<char>>>, k: int)
    requires
        0 <= k <= resolved.len(),
        resolved.len() <= nodes.len(),
    ensures
        built_edges(nodes, resolved, k).len() <= deps_total(resolved, k),
        forall|e: int| 0 <= e < built_edges(nodes, resolved, k).len() ==>
            (#[trigger] built_edges(nodes, resolved, k)[e]).0 < nodes.len() && built_edges(nodes, resolved, k)[e].1 < nodes.len(),
    decreases k,
{
    if k > 0 {
        lemma_built_edges(nodes, resolved, k - 1);
        lemma_module_edges(nodes, (k - 1) as usize, resolved[k - 1]);
        let a = built_edges(nodes, resolved, k - 1);
        let b = module_edges(nodes, (k - 1) as usize, resolved[k - 1]);
        assert forall|e: int| 0 <= e < (a + b).len() implies
            (#[trigger] (a + b)[e]).0 < nodes.len() && (a + b)[e].1 < nodes.len() by {
            if e >= a.len() {
                assert((a + b)[e] == b[e - a.len()]);
            }
        }
    }
}

proof fn lemma_deps_total_mono(resolved: Seq<Seq<Seq<char>>>, j: int, k: int)
    requires
        0 <= j <= k <= resolved.len(),
    ensures
        deps_total(resolved, j) <= deps_total(resolved, k),
    decreases k - j,
{
    if j < k {
        lemma_deps_total_mono(resolved, j, k - 1);
    }
}

impl DependencyGraph {
    /// The graph has a node for each module and no other, its edges join
    /// modules, both counts fit its `u32` indices, and no two modules
    /// share a directory.
    pub open spec fn wf(&self) -> bool {
        &&& graph_nodes(self.graph).len() == self.nodes@.len()
        &&& self.nodes@.len() < u32::MAX
        &&& graph_edges(self.graph).len() < u32::MAX
        &&& forall|k: int| 0 <= k < graph_edges(self.graph).len() ==>
            (#[trigger] graph_edges(self.graph)[k]).0 < self.nodes@.len() && graph_edges(self.graph)[k].1 < self.nodes@.len()
        &&& distinct_paths(self.nodes@)
    }

    /// The edges, as (dependent, dependency) module positions.
    pub open spec fn edges(&self) -> Seq<(usize, usize)> {
        graph_edges(self.graph)
    }

    /// The graph of `nodes`, whose `i`th module depends on the modules
    /// whose directories `resolved[i]` lists (directories of no module
    /// are passed over). A node is added for each module in order, then
    /// the edges module by module.
    pub fn build(root: String, nodes: Vec<ModuleNode>, resolved: Vec<Vec<String>>) -> (r: DependencyGraph)
        requires
            nodes@.len() == resolved@.len(),
            nodes@.len() < u32::MAX,
            deps_total(deps_view(resolved@), resolved@.len() as int) < u32::MAX,
            distinct_paths(nodes@),
        ensures
            r.wf(),
            r.root@ == root@,
            r.nodes@ == nodes@,
            r.edges() == built_edges(nodes@, deps_view(resolved@), nodes@.len() as int),
    {
        let ghost dv = deps_view(resolved@);
        let mut graph = new_graph();
        let mut i: usize = 0;
        while i < nodes.len()
            invariant
                i <= nodes@.len(),
                nodes@.len() < u32::MAX,
                graph_nodes(graph).len() == i,
                graph_edges(graph) == Seq::<(usize, usize)>::empty(),
            decreases nodes@.len() - i,
        {
            add_graph_node(&mut graph, i);
            i = i + 1;
        }
        let mut i: usize = 0;
        while i < nodes.len()
            invariant
                i <= nodes@.len(),
                nodes@.len() == resolved@.len(),
                nodes@.len() < u32::MAX,
                dv == deps_view(resolved@),
                deps_total(dv, resolved@.len() as int) < u32::MAX,
                distinct_paths(nodes@),
                graph_nodes(graph).len() == nodes@.len(),
                graph_edges(graph) == built_edges(nodes@, dv, i as int),
            decreases nodes@.len() - i,
        {
            let deps = &resolved[i];
            let mut j: usize = 0;
            proof {
                lemma_built_edges(nodes@, dv, i as int);
                lemma_deps_total_mono(dv, i as int + 1, resolved@.len() as int);
            }
            while j < deps.len()
                invariant
                    i < nodes@.len(),
                    j <= deps@.len(),
                    nodes@.len() == resolved@.len(),
                    nodes@.len() < u32::MAX,
                    dv == deps_view(resolved@),
                    deps == resolved@[i as int],
                    deps_total(dv, i as int + 1) < u32::MAX,
                    built_edges(nodes@, dv, i as int).len() <= deps_total(dv, i as int),
                    distinct_paths(nodes@),
                    graph_nodes(graph).len() == nodes@.len(),
                    graph_edges(graph) == built_edges(nodes@, dv, i as int)
                        + module_edges(nodes@, i, dv[i as int].take(j as int)),
                decreases deps@.len() - j,
            {
                proof {
                    lemma_module_edges(nodes@, i, dv[i as int].take(j as int));
                    assert(dv[i as int].len() == deps@.len());
                }
                let found = find_module(&nodes, deps[j].as_str());
                proof {
                    assert(dv[i as int].take(j as int + 1).drop_last() =~= dv[i as int].take(j as int));
                    assert(dv[i as int].take(j as int + 1).last() == deps@[j as int]@);
                }
                match found {
                    Some(t) => {
                        add_graph_edge(&mut graph, i, t);
                    },
                    None => {},
                }
                j = j + 1;
            }
            proof {
                assert(dv[i as int].take(deps@.len() as int) =~= dv[i as int]);
            }
            i = i + 1;
        }
        proof {
            lemma_built_edges(nodes@, dv, nodes@.len() as int);
        }
        DependencyGraph { graph, nodes, root }
    }

    /// The number of modules.
    pub fn module_count(&self) -> (n: usize)
        requires
            self.wf(),
        ensures
            n == self.nodes@.len(),
    {
        graph_node_count(&self.graph)
    }

    /// The number of dependency edges.
    pub fn edge_count(&self) -> (n: usize)
        ensures
            n == self.edges().len(),
    {
        graph_edge_count(&self.graph)
    }
}

// ── Rendering ──────────────────────────────────────────────────────

/// The DOT line of a module.
pub open spec fn dot_node_line(label: Seq<char>) -> Seq<char> {
    "    \""@ + label + "\" [label=\""@ + label + "\"];\n"@
}

/// The DOT line of an edge.
pub open spec fn dot_edge_line(a: Seq<char>, b: Seq<char>) -> Seq<char> {
    "    \""@ + a + "\" -> \""@ + b + "\";\n"@
}

/// The DOT lines of the first `k` modules.
pub open spec fn dot_nodes(labels: Seq<Seq<char>>, k: int) -> Seq<char>
    decreases k,
{
    if k <= 0 || k > labels.len() {
        Seq::empty()
    } else {
        dot_nodes(labels, k - 1) + dot_node_line(labels[k - 1])
    }
}

/// The DOT lines of the first `k` edges.
pub open spec fn dot_edges(labels: Seq<Seq<char>>, edges: Seq<(usize, usize)>, k: int) -> Seq<char>
    decreases k,
{
    if k <= 0 || k > edges.len() {
        Seq::empty()
    } else {
        dot_edges(labels, edges, k - 1) + dot_edge_line(labels[edges[k - 1].0 as int], labels[edges[k - 1].1 as int])
    }
}

/// The graph in Graphviz DOT: a node line per module, then an edge line
/// per edge, in the order they were added.
pub open spec fn dot_spec(labels: Seq<Seq<char>>, edges: Seq<(usize, usize)>) -> Seq<char> {
    "digraph {\n"@ + dot_nodes(labels, labels.len() as int) + dot_edges(labels, edges, edges.len() as int) + "}\n"@
}

/// The modules at the given positions.
pub open spec fn nodes_at(nodes: Seq<ModuleNode>, idx: Seq<usize>) -> Seq<ModuleNode> {
    Seq::new(idx.len(), |k: int| nodes[idx[k] as int])
}

/// The modules a sequence of references points to.
pub open spec fn deref_nodes(s: Seq<&ModuleNode>) -> Seq<ModuleNode> {
    Seq::new(s.len(), |k: int| *s[k])
}

/// The neighbours of `a` of one direction, as modules; none when no
/// module has the directory `p`.
pub open spec fn neighbour_modules(nodes: Seq<ModuleNode>, edges: Seq<(usize, usize)>, p: Seq<char>, outgoing: bool) -> Seq<ModuleNode> {
    match index_of_path(nodes, p) {
        Some(i) => nodes_at(nodes, if outgoing { successors(edges, i as usize) } else { predecessors(edges, i as usize) }),
        None => Seq::empty(),
    }
}

proof fn lemma_neighbours_bounded(edges: Seq<(usize, usize)>, a: usize, n: nat)
    requires
        forall|k: int| 0 <= k < edges.len() ==> (#[trigger] edges[k]).0 < n && edges[k].1 < n,
    ensures
        forall|k: int| 0 <= k < successors(edges, a).len() ==> #[trigger] successors(edges, a)[k] < n,
        forall|k: int| 0 <= k < predecessors(edges, a).len() ==> #[trigger] predecessors(edges, a)[k] < n,
        successors(edges, a).len() <= edges.len(),
        predecessors(edges, a).len() <= edges.len(),
    decreases edges.len(),
{
    if edges.len() > 0 {
        let e = edges.last();
        assert(edges[edges.len() - 1] == e);
        lemma_neighbours_bounded(edges.drop_last(), a, n);
        let s = successors(edges.drop_last(), a);
        let p = predecessors(edges.drop_last(), a);
        assert forall|k: int| 0 <= k < (seq![e.1] + s).len() implies #[trigger] (seq![e.1] + s)[k] < n by {
            if k > 0 {
                assert((seq![e.1] + s)[k] == s[k - 1]);
            }
        }
        assert forall|k: int| 0 <= k < (seq![e.0] + p).len() implies #[trigger] (seq![e.0] + p)[k] < n by {
            if k > 0 {
                assert((seq![e.0] + p)[k] == p[k - 1]);
            }
        }
    }
}

impl DependencyGraph {
    /// The graph in Graphviz DOT.
    pub fn to_dot(&self) -> (r: String)
        requires
            self.wf(),
        ensures
            r@ == dot_spec(module_labels(self.nodes@), self.edges()),
    {
        let ghost labels = module_labels(self.nodes@);
        let mut dot = to_owned_string("digraph {\n");
        let n = graph_node_count(&self.graph);
        let mut i: usize = 0;
        while i < n
            invariant
                n == self.nodes@.len(),
                i <= n,
                labels == module_labels(self.nodes@),
                dot@ == "digraph {\n"@ + dot_nodes(labels, i as int),
            decreases n - i,
        {
            let label = self.nodes[i].relative_path.as_str();
            push_str(&mut dot, "    \"");
            push_str(&mut dot, label);
            push_str(&mut dot, "\" [label=\"");
            push_str(&mut dot, label);
            push_str(&mut dot, "\"];\n");
            proof {
                assert(labels[i as int] == label@);
                assert(dot@ =~= "digraph {\n"@ + dot_nodes(labels, i as int + 1));
            }
            i = i + 1;
        }
        let m = graph_edge_count(&self.graph);
        let mut k: usize = 0;
        while k < m
            invariant
                self.wf(),
                m == self.edges().len(),
                k <= m,
                labels == module_labels(self.nodes@),
                dot@ == "digraph {\n"@ + dot_nodes(labels, labels.len() as int) + dot_edges(labels, self.edges(), k as int),
            decreases m - k,
        {
            let (a, b) = graph_edge_endpoints(&self.graph, k);
            proof {
                assert(self.edges()[k as int] == (a, b));
            }
            let la = self.nodes[a].relative_path.as_str();
            let lb = self.nodes[b].relative_path.as_str();
            push_str(&mut dot, "    \"");
            push_str(&mut dot, la);
            push_str(&mut dot, "\" -> \"");
            push_str(&mut dot, lb);
            push_str(&mut dot, "\";\n");
            proof {
                assert(dot@ =~= "digraph {\n"@ + dot_nodes(labels, labels.len() as int) + dot_edges(labels, self.edges(), k as int + 1));
            }
            k = k + 1;
        }
        push_str(&mut dot, "}\n");
        dot
    }

    fn modules_at(&self, idx: Vec<usize>) -> (r: Vec<&ModuleNode>)
        requires
            forall|k: int| 0 <= k < idx@.len() ==> #[trigger] idx@[k] < self.nodes@.len(),
        ensures
            deref_nodes(r@) == nodes_at(self.nodes@, idx@),
    {
        let mut r: Vec<&ModuleNode> = Vec::new();
        let mut k: usize = 0;
        while k < idx.len()
            invariant
                k <= idx@.len(),
                forall|t: int| 0 <= t < idx@.len() ==> #[trigger] idx@[t] < self.nodes@.len(),
                r@.len() == k,
                deref_nodes(r@) == nodes_at(self.nodes@, idx@.take(k as int)),
            decreases idx@.len() - k,
        {
            let ghost before = deref_nodes(r@);
            let ghost old_r = r@;
            r.push(&self.nodes[idx[k]]);
            assert(r@[k as int] == &self.nodes@[idx@[k as int] as int]);
            assert forall|t: int| 0 <= t < r@.len() implies #[trigger] deref_nodes(r@)[t] == nodes_at(self.nodes@, idx@.take(k as int + 1))[t] by {
                if t < k {
                    assert(r@[t] == old_r[t]);
                    assert(deref_nodes(r@)[t] == before[t]);
                    assert(before[t] == nodes_at(self.nodes@, idx@.take(k as int))[t]);
                }
            }
            assert(deref_nodes(r@) =~= nodes_at(self.nodes@, idx@.take(k as int + 1)));
            k = k + 1;
        }
        assert(idx@.take(idx@.len() as int) =~= idx@);
        r
    }

    /// The modules the module in directory `dir` depends on
    /// directly, the most recently added edge first; none when no module
    /// has that directory.
    pub fn dependencies_of(&self, dir: &str) -> (r: Vec<&ModuleNode>)
        requires
            self.wf(),
        ensures
            deref_nodes(r@) == neighbour_modules(self.nodes@, self.edges(), dir@, true),
    {
        match find_module(&self.nodes, dir) {
            Some(i) => {
                let idx = graph_successors(&self.graph, i);
                proof {
                    lemma_neighbours_bounded(self.edges(), i, self.nodes@.len());
                }
                self.modules_at(idx)
            },
            None => {
                let r: Vec<&ModuleNode> = Vec::new();
                assert(deref_nodes(r@) =~= Seq::<ModuleNode>::empty());
                r
            },
        }
    }

    /// The modules that depend directly on the module in directory
    /// `dir`, the most recently added edge first; none when no
    /// module has that directory.
    pub fn dependents_of(&self, dir: &str) -> (r: Vec<&ModuleNode>)
        requires
            self.wf(),
        ensures
            deref_nodes(r@) == neighbour_modules(self.nodes@, self.edges(), dir@, false),
    {
        match find_module(&self.nodes, dir) {
            Some(i) => {
                let idx = graph_predecessors(&self.graph, i);
                proof {
                    lemma_neighbours_bounded(self.edges(), i, self.nodes@.len());
                }
                self.modules_at(idx)
            },
            None => {
                let r: Vec<&ModuleNode> = Vec::new();
                assert(deref_nodes(r@) =~= Seq::<ModuleNode>::empty());
                r
            },
        }
    }
}

// ── Order ──────────────────────────────────────────────────────────

/// The directories of the modules at the given positions.
pub open spec fn paths_at(nodes: Seq<ModuleNode>, idx: Seq<usize>) -> Seq<Seq<char>> {
    Seq::new(idx.len(), |k: int| nodes[idx[k] as int].path@)
}

/// What a sort outcome gives: the directories in its order, or the error
/// that names the module found on a cycle.
pub open spec fn sorted_paths(nodes: Seq<ModuleNode>, outcome: Result<Seq<usize>, usize>, r: Result<Vec<String>, Error>) -> bool {
    match outcome {
        Ok(o) => r matches Ok(v) && strings_view(v@) == paths_at(nodes, o),
        Err(c) => r matches Err(Error::Other(m))
            && m@ == "dependency cycle detected at: "@ + nodes[c as int].relative_path@,
    }
}

impl DependencyGraph {
    /// The directories in the order of a sort outcome, or the cycle error
    /// naming the module it found on a cycle.
    pub fn sorted_from(&self, outcome: Result<Vec<usize>, usize>) -> (r: Result<Vec<String>, Error>)
        requires
            match outcome {
                Ok(o) => forall|k: int| 0 <= k < o@.len() ==> #[trigger] o@[k] < self.nodes@.len(),
                Err(c) => c < self.nodes@.len(),
            },
        ensures
            sorted_paths(self.nodes@, match outcome { Ok(o) => Ok(o@), Err(c) => Err(c) }, r),
    {
        match outcome {
            Ok(order) => {
                let mut v: Vec<String> = Vec::new();
                let mut k: usize = 0;
                while k < order.len()
                    invariant
                        k <= order@.len(),
                        forall|t: int| 0 <= t < order@.len() ==> #[trigger] order@[t] < self.nodes@.len(),
                        strings_view(v@) == paths_at(self.nodes@, order@.take(k as int)),
                    decreases order@.len() - k,
                {
                    let ghost before = strings_view(v@);
                    v.push(to_owned_string(self.nodes[order[k]].path.as_str()));
                    assert(strings_view(v@) =~= before.push(self.nodes@[order@[k as int] as int].path@));
                    assert(paths_at(self.nodes@, order@.take(k as int + 1)) =~= paths_at(self.nodes@, order@.take(k as int)).push(self.nodes@[order@[k as int] as int].path@));
                    k = k + 1;
                }
                assert(order@.take(order@.len() as int) =~= order@);
                Ok(v)
            },
            Err(c) => {
                let mut m = to_owned_string("dependency cycle detected at: ");
                push_str(&mut m, self.nodes[c].relative_path.as_str());
                Err(Error::Other(m))
            },
        }
    }

    /// The module directories in dependency order: each module before the
    /// modules it depends on. A graph with a cycle has no such order; the
    /// error names a module on a cycle.
    pub fn topo_sort(&self) -> (r: Result<Vec<String>, Error>)
        requires
            self.wf(),
        ensures
            sorted_paths(self.nodes@, toposort_outcome(graph_nodes(self.graph), self.edges()), r),
            match toposort_outcome(graph_nodes(self.graph), self.edges()) {
                Ok(o) => is_topological(o, self.nodes@.len(), self.edges()),
                Err(c) => reaches(self.edges(), c, c)
                    && !exists|o: Seq<usize>| is_topological(o, self.nodes@.len(), self.edges()),
            },
    {
        let outcome = graph_toposort(&self.graph);
        self.sorted_from(outcome)
    }
}

// ── Records ────────────────────────────────────────────────────────

/// The relative paths of the modules at the given positions, as strings.
pub open spec fn labels_val(nodes: Seq<ModuleNode>, idx: Seq<usize>) -> Seq<Val> {
    Seq::new(idx.len(), |k: int| Val::Str(nodes[idx[k] as int].relative_path@))
}

/// The record of module `i`: its relative path, its source if it has
/// one, and the relative paths of the modules it depends on and of
/// those depending on it.
pub open spec fn module_val(nodes: Seq<ModuleNode>, edges: Seq<(usize, usize)>, i: int) -> Val {
    let head = seq![("path"@, Val::Str(nodes[i].relative_path@))];
    let with_source = match opt_chars(nodes[i].source) {
        Some(src) => head.push(("source"@, Val::Str(src))),
        None => head,
    };
    Val::Object(with_source
        .push(("dependencies"@, Val::Array(labels_val(nodes, successors(edges, i as usize)))))
        .push(("dependents"@, Val::Array(labels_val(nodes, predecessors(edges, i as usize))))))
}

/// The graph as a value: root, module and edge counts, and the record of
/// each module.
pub open spec fn graph_val(root: Seq<char>, nodes: Seq<ModuleNode>, edges: Seq<(usize, usize)>) -> Val {
    Val::Object(seq![
        ("root"@, Val::Str(root)),
        ("module_count"@, Val::Int(nodes.len() as i64)),
        ("edge_count"@, Val::Int(edges.len() as i64)),
        ("modules"@, Val::Array(Seq::new(nodes.len(), |i: int| module_val(nodes, edges, i)))),
    ])
}

/// The listing record of module `i`: relative path, whether it has a
/// source, and how many edges leave and enter it.
pub open spec fn listing_val(nodes: Seq<ModuleNode>, edges: Seq<(usize, usize)>, i: int) -> Val {
    Val::Object(seq![
        ("path"@, Val::Str(nodes[i].relative_path@)),
        ("has_source"@, Val::Bool(nodes[i].source is Some)),
        ("dependency_count"@, Val::Int(successors(edges, i as usize).len() as i64)),
        ("dependent_count"@, Val::Int(predecessors(edges, i as usize).len() as i64)),
    ])
}

impl DependencyGraph {
    fn labels_value(&self, idx: &Vec<usize>) -> (r: Value)
        requires
            forall|k: int| 0 <= k < idx@.len() ==> #[trigger] idx@[k] < self.nodes@.len(),
        ensures
            r@ == Val::Array(labels_val(self.nodes@, idx@)),
    {
        let mut items: Vec<Value> = Vec::new();
        let mut k: usize = 0;
        while k < idx.len()
            invariant
                k <= idx@.len(),
                forall|t: int| 0 <= t < idx@.len() ==> #[trigger] idx@[t] < self.nodes@.len(),
                view_values(items@) == labels_val(self.nodes@, idx@.take(k as int)),
            decreases idx@.len() - k,
        {
            let ghost before = view_values(items@);
            items.push(Value::string(self.nodes[idx[k]].relative_path.as_str()));
            let ghost x = Val::Str(self.nodes@[idx@[k as int] as int].relative_path@);
            assert(view_values(items@) =~= before.push(x));
            assert(labels_val(self.nodes@, idx@.take(k as int + 1)) =~= labels_val(self.nodes@, idx@.take(k as int)).push(x));
            k = k + 1;
        }
        assert(idx@.take(idx@.len() as int) =~= idx@);
        Value::array(items)
    }

    fn module_value(&self, i: usize) -> (r: Value)
        requires
            self.wf(),
            i < self.nodes@.len(),
        ensures
            r@ == module_val(self.nodes@, self.edges(), i as int),
    {
        proof {
            lemma_neighbours_bounded(self.edges(), i, self.nodes@.len());
            reveal_strlit("path");
            reveal_strlit("source");
            reveal_strlit("dependencies");
            reveal_strlit("dependents");
        }
        let node = &self.nodes[i];
        let mut entries: Vec<(String, Value)> = Vec::new();
        entries.push((to_owned_string("path"), Value::string(node.relative_path.as_str())));
        match &node.source {
            Some(src) => {
                entries.push((to_owned_string("source"), Value::string(src.as_str())));
            },
            None => {},
        }
        let deps = graph_successors(&self.graph, i);
        let dependents = graph_predecessors(&self.graph, i);
        entries.push((to_owned_string("dependencies"), self.labels_value(&deps)));
        entries.push((to_owned_string("dependents"), self.labels_value(&dependents)));
        let r = Value::map(entries);
        assert(view_entries(entries@) =~= match module_val(self.nodes@, self.edges(), i as int) {
            Val::Object(e) => e,
            _ => Seq::empty(),
        });
        r
    }

    /// The graph as a value: root, module and edge counts, and for each
    /// module its relative path, source, dependencies and dependents.
    pub fn to_value(&self) -> (r: Value)
        requires
            self.wf(),
        ensures
            r@ == graph_val(self.root@, self.nodes@, self.edges()),
    {
        let n = self.module_count();
        let mut modules: Vec<Value> = Vec::new();
        let mut i: usize = 0;
        while i < n
            invariant
                self.wf(),
                n == self.nodes@.len(),
                i <= n,
                view_values(modules@) == Seq::new(i as nat, |k: int| module_val(self.nodes@, self.edges(), k)),
            decreases n - i,
        {
            let ghost before = view_values(modules@);
            modules.push(self.module_value(i));
            let ghost x = module_val(self.nodes@, self.edges(), i as int);
            assert(view_values(modules@) =~= before.push(x));
            assert(Seq::new((i + 1) as nat, |k: int| module_val(self.nodes@, self.edges(), k))
                =~= Seq::new(i as nat, |k: int| module_val(self.nodes@, self.edges(), k)).push(x));
            i = i + 1;
        }
        let m = self.edge_count();
        let entries = vec![
            (to_owned_string("root"), Value::string(self.root.as_str())),
            (to_owned_string("module_count"), Value::integer(n as i64)),
            (to_owned_string("edge_count"), Value::integer(m as i64)),
            (to_owned_string("modules"), Value::array(modules)),
        ];
        proof {
            reveal_strlit("root");
            reveal_strlit("module_count");
            reveal_strlit("edge_count");
            reveal_strlit("modules");
        }
        let r = Value::map(entries);
        assert(view_entries(entries@) =~= match graph_val(self.root@, self.nodes@, self.edges()) {
            Val::Object(e) => e,
            _ => Seq::empty(),
        });
        r
    }

    /// A listing of the modules: for each, its relative path, whether it
    /// has a source, and how many modules it depends on and how many
    /// depend on it.
    pub fn list_records(&self) -> (r: Value)
        requires
            self.wf(),
        ensures
            r@ == Val::Array(Seq::new(self.nodes@.len(), |i: int| listing_val(self.nodes@, self.edges(), i))),
    {
        let n = self.module_count();
        let mut records: Vec<Value> = Vec::new();
        let mut i: usize = 0;
        proof {
            reveal_strlit("path");
            reveal_strlit("has_source");
            reveal_strlit("dependency_count");
            reveal_strlit("dependent_count");
        }
        while i < n
            invariant
                self.wf(),
                n == self.nodes@.len(),
                i <= n,
                view_values(records@) == Seq::new(i as nat, |k: int| listing_val(self.nodes@, self.edges(), k)),
            decreases n - i,
        {
            proof {
                lemma_neighbours_bounded(self.edges(), i, self.nodes@.len());
            }
            let deps = graph_successors(&self.graph, i);
            let dependents = graph_predecessors(&self.graph, i);
            let node = &self.nodes[i];
            let entries = vec![
                (to_owned_string("path"), Value::string(node.relative_path.as_str())),
                (to_owned_string("has_source"), Value::bool(node.source.is_some())),
                (to_owned_string("dependency_count"), Value::integer(deps.len() as i64)),
                (to_owned_string("dependent_count"), Value::integer(dependents.len() as i64)),
            ];
            let rec = Value::map(entries);
            let ghost x = listing_val(self.nodes@, self.edges(), i as int);
            assert(rec@ == x) by {
                assert(view_entries(entries@) =~= match x {
                    Val::Object(e) => e,
                    _ => Seq::empty(),
                });
            }
            let ghost before = view_values(records@);
            records.push(rec);
            assert(view_values(records@) =~= before.push(x));
            assert(Seq::new((i + 1) as nat, |k: int| listing_val(self.nodes@, self.edges(), k))
                =~= Seq::new(i as nat, |k: int| listing_val(self.nodes@, self.edges(), k)).push(x));
            i = i + 1;
        }
        Value::array(records)
    }
}

// ── Reachability ───────────────────────────────────────────────────

/// `res` lists, each once, exactly the modules reachable from `s` along
/// one edge or more.
pub open spec fn lists_reachable(edges: Seq<(usize, usize)>, n: nat, s: usize, res: Seq<usize>) -> bool {
    &&& forall|i: int, j: int| 0 <= i < j < res.len() ==> res[i] != res[j]
    &&& forall|k: int| 0 <= k < res.len() ==> #[trigger] res[k] < n && reaches(edges, s, res[k])
    &&& forall|j: usize| j < n && #[trigger] reaches(edges, s, j) ==> res.contains(j)
}

/// How many entries of `v` are false.
pub open spec fn unvisited(v: Seq<bool>) -> nat
    decreases v.len(),
{
    if v.len() == 0 {
        0
    } else {
        unvisited(v.drop_last()) + if v.last() { 0nat } else { 1nat }
    }
}

proof fn lemma_unvisited_mark(v: Seq<bool>, i: int)
    requires
        0 <= i < v.len(),
        !v[i],
    ensures
        unvisited(v.update(i, true)) + 1 == unvisited(v),
    decreases v.len(),
{
    if i < v.len() - 1 {
        assert(v.update(i, true).drop_last() =~= v.drop_last().update(i, true));
        lemma_unvisited_mark(v.drop_last(), i);
    } else {
        assert(v.update(i, true).drop_last() =~= v.drop_last());
    }
}

proof fn lemma_successor_edge(edges: Seq<(usize, usize)>, x: usize, k: int)
    requires
        0 <= k < successors(edges, x).len(),
    ensures
        edges.contains((x, successors(edges, x)[k])),
    decreases edges.len(),
{
    let e = edges.last();
    let rest = successors(edges.drop_last(), x);
    if e.0 == x && k == 0 {
        assert(edges[edges.len() - 1] == e);
    } else {
        let k2 = if e.0 == x { k - 1 } else { k };
        if e.0 == x {
            assert((seq![e.1] + rest)[k] == rest[k2]);
        }
        lemma_successor_edge(edges.drop_last(), x, k2);
        let t = choose|t: int| 0 <= t < edges.drop_last().len() && edges.drop_last()[t] == (x, rest[k2]);
        assert(edges[t] == (x, rest[k2]));
    }
}

proof fn lemma_edge_successor(edges: Seq<(usize, usize)>, x: usize, y: usize)
    requires
        edges.contains((x, y)),
    ensures
        successors(edges, x).contains(y),
    decreases edges.len(),
{
    let e = edges.last();
    let rest = successors(edges.drop_last(), x);
    if e == (x, y) {
        assert((seq![e.1] + rest)[0] == y);
    } else {
        let t = choose|t: int| 0 <= t < edges.len() && edges[t] == (x, y);
        assert(t < edges.len() - 1);
        assert(edges.drop_last()[t] == (x, y));
        lemma_edge_successor(edges.drop_last(), x, y);
        let k = choose|k: int| 0 <= k < rest.len() && rest[k] == y;
        if e.0 == x {
            assert((seq![e.1] + rest)[k + 1] == y);
        }
    }
}

proof fn lemma_reach_edge(edges: Seq<(usize, usize)>, a: usize, y: usize)
    requires
        edges.contains((a, y)),
    ensures
        reaches(edges, a, y),
{
    let p = seq![a, y];
    assert(p[0] == a && p[1] == y && p.last() == y);
    assert(is_step(edges, p, 0));
    assert forall|i: int| 0 <= i < p.len() - 1 implies #[trigger] is_step(edges, p, i) by {
        assert(i == 0);
    }
    assert(is_walk(edges, p) && p[0] == a && p.last() == y);
}

proof fn lemma_reach_extend(edges: Seq<(usize, usize)>, a: usize, b: usize, y: usize)
    requires
        reaches(edges, a, b),
        edges.contains((b, y)),
    ensures
        reaches(edges, a, y),
{
    let p = choose|p: Seq<usize>| is_walk(edges, p) && p[0] == a && p.last() == b;
    let q = p.push(y);
    assert forall|i: int| 0 <= i < q.len() - 1 implies #[trigger] is_step(edges, q, i) by {
        if i < p.len() - 1 {
            assert(is_step(edges, p, i));
            assert(q[i] == p[i] && q[i + 1] == p[i + 1]);
        } else {
            assert(q[i] == b && q[i + 1] == y);
        }
    }
    assert(is_walk(edges, q) && q[0] == a && q.last() == y);
}

/// Every edge leaving `s` or a visited module that is not on `stack`
/// (nor `skip`) leads to a visited module.
pub open spec fn closed_except(edges: Seq<(usize, usize)>, s: usize, visited: Seq<bool>, stack: Seq<usize>, skip: int) -> bool {
    forall|x: usize, y: usize|
        (x == s || (x < visited.len() && visited[x as int])) && !stack.contains(x) && x != skip
            && #[trigger] edges.contains((x, y)) ==> y < visited.len() && visited[y as int]
}

proof fn lemma_closed_reach(edges: Seq<(usize, usize)>, s: usize, visited: Seq<bool>, p: Seq<usize>, i: int)
    requires
        closed_except(edges, s, visited, Seq::empty(), -1),
        is_walk(edges, p),
        p[0] == s,
        1 <= i < p.len(),
    ensures
        p[i] < visited.len() && visited[p[i] as int],
    decreases i,
{
    assert(is_step(edges, p, i - 1));
    if i > 1 {
        lemma_closed_reach(edges, s, visited, p, i - 1);
    }
    assert(edges.contains((p[i - 1], p[i])));
}

impl DependencyGraph {
    fn reachable_from(&self, s: usize) -> (res: Vec<usize>)
        requires
            self.wf(),
            s < self.nodes@.len(),
        ensures
            lists_reachable(self.edges(), self.nodes@.len(), s, res@),
    {
        let ghost edges = self.edges();
        let n = self.module_count();
        let mut visited: Vec<bool> = Vec::new();
        let mut i: usize = 0;
        while i < n
            invariant
                i <= n,
                visited@.len() == i,
                forall|k: int| 0 <= k < i ==> !visited@[k],
            decreases n - i,
        {
            visited.push(false);
            i = i + 1;
        }
        let mut res: Vec<usize> = Vec::new();
        let mut stack: Vec<usize> = Vec::new();
        stack.push(s);
        proof {
            assert forall|x: usize, y: usize|
                (x == s || (x < visited@.len() && visited@[x as int])) && !stack@.contains(x) && x != -1
                    && #[trigger] edges.contains((x, y)) implies y < visited@.len() && visited@[y as int] by {
                assert(stack@[0] == s);
            }
        }
        while stack.len() > 0
            invariant
                self.wf(),
                edges == self.edges(),
                n == self.nodes@.len(),
                s < n,
                visited@.len() == n,
                forall|k: int| 0 <= k < stack@.len() ==> #[trigger] stack@[k] < n
                    && (stack@[k] == s || visited@[stack@[k] as int]),
                forall|k: int| 0 <= k < res@.len() ==> #[trigger] res@[k] < n && reaches(edges, s, res@[k]),
                forall|j: int| 0 <= j < n ==> (visited@[j] <==> res@.contains(j as usize)),
                forall|a: int, b: int| 0 <= a < b < res@.len() ==> res@[a] != res@[b],
                closed_except(edges, s, visited@, stack@, -1),
            decreases 2 * unvisited(visited@) + stack@.len(),
        {
            let ghost measure = 2 * unvisited(visited@) + stack@.len();
            let ghost old_stack = stack@;
            let idx = stack.pop().unwrap();
            proof {
                assert(old_stack == stack@.push(idx));
                assert forall|x: usize, y: usize|
                    (x == s || (x < visited@.len() && visited@[x as int])) && !stack@.contains(x) && x != idx
                        && #[trigger] edges.contains((x, y)) implies y < visited@.len() && visited@[y as int] by {
                    if old_stack.contains(x) {
                        let t = choose|t: int| 0 <= t < old_stack.len() && old_stack[t] == x;
                        if t < stack@.len() {
                            assert(stack@[t] == x);
                        }
                    }
                }
                lemma_neighbours_bounded(edges, idx, n as nat);
            }
            let nb = graph_successors(&self.graph, idx);
            let mut j: usize = 0;
            while j < nb.len()
                invariant
                    self.wf(),
                    edges == self.edges(),
                    n == self.nodes@.len(),
                    s < n,
                    idx < n,
                    idx == s || visited@[idx as int],
                    nb@ == successors(edges, idx),
                    forall|k: int| 0 <= k < nb@.len() ==> #[trigger] nb@[k] < n,
                    j <= nb@.len(),
                    visited@.len() == n,
                    forall|k: int| 0 <= k < j ==> visited@[#[trigger] nb@[k] as int],
                    forall|k: int| 0 <= k < stack@.len() ==> #[trigger] stack@[k] < n
                        && (stack@[k] == s || visited@[stack@[k] as int]),
                    forall|k: int| 0 <= k < res@.len() ==> #[trigger] res@[k] < n && reaches(edges, s, res@[k]),
                    forall|t: int| 0 <= t < n ==> (visited@[t] <==> res@.contains(t as usize)),
                    forall|a: int, b: int| 0 <= a < b < res@.len() ==> res@[a] != res@[b],
                    closed_except(edges, s, visited@, stack@, idx as int),
                    2 * unvisited(visited@) + stack@.len() < measure,
                decreases nb@.len() - j,
            {
                let y = nb[j];
                if !visited[y] {
                    proof {
                        lemma_successor_edge(edges, idx, j as int);
                        if idx == s {
                            lemma_reach_edge(edges, s, y);
                        } else {
                            assert(res@.contains(idx));
                            let t = choose|t: int| 0 <= t < res@.len() && res@[t] == idx;
                            assert(reaches(edges, s, res@[t]));
                            lemma_reach_extend(edges, s, idx, y);
                        }
                        lemma_unvisited_mark(visited@, y as int);
                    }
                    let ghost old_visited = visited@;
                    let ghost old_res = res@;
                    let ghost old_stack2 = stack@;
                    visited.set(y, true);
                    res.push(y);
                    stack.push(y);
                    proof {
                        assert(visited@ == old_visited.update(y as int, true));
                        assert forall|t: int| 0 <= t < n implies (visited@[t] <==> res@.contains(t as usize)) by {
                            if t == y as int {
                                assert(res@[res@.len() - 1] == y);
                            } else {
                                if old_res.contains(t as usize) {
                                    let w = choose|w: int| 0 <= w < old_res.len() && old_res[w] == t as usize;
                                    assert(res@[w] == t as usize);
                                }
                                if res@.contains(t as usize) {
                                    let w = choose|w: int| 0 <= w < res@.len() && res@[w] == t as usize;
                                    assert(w < old_res.len());
                                    assert(old_res[w] == t as usize);
                                }
                            }
                        }
                        assert forall|a: int, b: int| 0 <= a < b < res@.len() implies res@[a] != res@[b] by {
                            if b == res@.len() - 1 {
                                assert(res@[a] == old_res[a]);
                                assert(old_res.contains(res@[a]));
                                assert(!old_visited[y as int]);
                            }
                        }
                        assert forall|x: usize, z: usize|
                            (x == s || (x < visited@.len() && visited@[x as int])) && !stack@.contains(x) && x != idx
                                && #[trigger] edges.contains((x, z)) implies z < visited@.len() && visited@[z as int] by {
                            assert(stack@[stack@.len() - 1] == y);
                            if old_stack2.contains(x) {
                                let t = choose|t: int| 0 <= t < old_stack2.len() && old_stack2[t] == x;
                                assert(stack@[t] == x);
                            }
                        }
                        assert forall|k: int| 0 <= k < j + 1 implies visited@[#[trigger] nb@[k] as int] by {
                            if k < j {
                                assert(old_visited[nb@[k] as int]);
                            }
                        }
                    }
                }
                j = j + 1;
            }
            proof {
                assert forall|x: usize, y: usize|
                    (x == s || (x < visited@.len() && visited@[x as int])) && !stack@.contains(x) && x != -1
                        && #[trigger] edges.contains((x, y)) implies y < visited@.len() && visited@[y as int] by {
                    if x == idx {
                        lemma_edge_successor(edges, idx, y);
                        let k = choose|k: int| 0 <= k < nb@.len() && nb@[k] == y;
                        assert(visited@[nb@[k] as int]);
                    }
                }
            }
        }
        proof {
            assert forall|j: usize| j < n && #[trigger] reaches(edges, s, j) implies res@.contains(j) by {
                let p = choose|p: Seq<usize>| is_walk(edges, p) && p[0] == s && p.last() == j;
                lemma_closed_reach(edges, s, visited@, p, p.len() - 1);
            }
        }
        res
    }

    /// The modules the module in directory `dir` depends on, directly or
    /// through others, each once; none when no module has that directory.
    pub fn transitive_dependencies_of(&self, dir: &str) -> (r: Vec<&ModuleNode>)
        requires
            self.wf(),
        ensures
            match index_of_path(self.nodes@, dir@) {
                Some(s) => exists|res: Seq<usize>|
                    lists_reachable(self.edges(), self.nodes@.len(), s as usize, res)
                        && deref_nodes(r@) == #[trigger] nodes_at(self.nodes@, res),
                None => r@.len() == 0,
            },
    {
        match find_module(&self.nodes, dir) {
            Some(s) => {
                let res = self.reachable_from(s);
                let r = self.modules_at(res);
                r
            },
            None => Vec::new(),
        }
    }
}

// ── Laws ───────────────────────────────────────────────────────────

proof fn lemma_successors_contains(edges: Seq<(usize, usize)>, x: usize, y: usize)
    ensures
        successors(edges, x).contains(y) <==> edges.contains((x, y)),
{
    if edges.contains((x, y)) {
        lemma_edge_successor(edges, x, y);
    }
    if successors(edges, x).contains(y) {
        let k = choose|k: int| 0 <= k < successors(edges, x).len() && successors(edges, x)[k] == y;
        lemma_successor_edge(edges, x, k);
    }
}

proof fn lemma_predecessors_contains(edges: Seq<(usize, usize)>, x: usize, y: usize)
    ensures
        predecessors(edges, y).contains(x) <==> edges.contains((x, y)),
    decreases edges.len(),
{
    if edges.len() > 0 {
        let e = edges.last();
        let init = edges.drop_last();
        let rest = predecessors(init, y);
        lemma_predecessors_contains(init, x, y);
        assert(edges =~= init.push(e));
        if init.contains((x, y)) {
            let t = choose|t: int| 0 <= t < init.len() && init[t] == (x, y);
            assert(edges[t] == (x, y));
        }
        if edges.contains((x, y)) && !init.contains((x, y)) {
            let t = choose|t: int| 0 <= t < edges.len() && edges[t] == (x, y);
            if t < init.len() {
                assert(init[t] == (x, y));
            }
            assert(e == (x, y));
            assert((seq![e.0] + rest)[0] == x);
        }
        if e.1 == y {
            if rest.contains(x) {
                let k = choose|k: int| 0 <= k < rest.len() && rest[k] == x;
                assert((seq![e.0] + rest)[k + 1] == x);
            }
            if (seq![e.0] + rest).contains(x) {
                let k = choose|k: int| 0 <= k < (seq![e.0] + rest).len() && (seq![e.0] + rest)[k] == x;
                if k > 0 {
                    assert(rest[k - 1] == x);
                } else {
                    assert(edges[edges.len() - 1] == (x, y));
                }
            }
        }
    }
}

/// A module is among the dependents of each module it depends on, and
/// only of those: `y` is a direct dependency of `x` exactly when `x` is
/// a direct dependent of `y`.
pub proof fn law_dependents_mirror_dependencies(edges: Seq<(usize, usize)>, x: usize, y: usize)
    ensures
        successors(edges, x).contains(y) <==> predecessors(edges, y).contains(x),
{
    lemma_successors_contains(edges, x, y);
    lemma_predecessors_contains(edges, x, y);
}

/// Every direct dependency is also a transitive one.
pub proof fn law_direct_dependency_is_transitive(edges: Seq<(usize, usize)>, x: usize, y: usize)
    requires
        successors(edges, x).contains(y),
    ensures
        reaches(edges, x, y),
{
    lemma_successors_contains(edges, x, y);
    lemma_reach_edge(edges, x, y);
}

/// Dependencies compose: what a dependency of `x` reaches, `x` reaches.
pub proof fn law_transitive_dependencies_compose(edges: Seq<(usize, usize)>, x: usize, y: usize, z: usize)
    requires
        reaches(edges, x, y),
        reaches(edges, y, z),
    ensures
        reaches(edges, x, z),
{
    let p = choose|p: Seq<usize>| is_walk(edges, p) && p[0] == x && p.last() == y;
    let q = choose|q: Seq<usize>| is_walk(edges, q) && q[0] == y && q.last() == z;
    let w = p + q.drop_first();
    assert forall|i: int| 0 <= i < w.len() - 1 implies #[trigger] is_step(edges, w, i) by {
        if i < p.len() - 1 {
            assert(is_step(edges, p, i));
            assert(w[i] == p[i] && w[i + 1] == p[i + 1]);
        } else if i == p.len() - 1 {
            assert(is_step(edges, q, 0));
            assert(w[i] == y && w[i + 1] == q[1]);
        } else {
            let t = i - p.len() + 1;
            assert(is_step(edges, q, t));
            assert(w[i] == q[t] && w[i + 1] == q[t + 1]);
        }
    }
    assert(w.last() == z);
    assert(is_walk(edges, w) && w[0] == x);
}

proof fn lemma_walk_climbs(order: Seq<usize>, n: nat, edges: Seq<(usize, usize)>, p: Seq<usize>, a: int, i: int)
    requires
        is_topological(order, n, edges),
        is_walk(edges, p),
        forall|k: int| 0 <= k < p.len() ==> #[trigger] p[k] < n,
        0 <= a < order.len(),
        order[a] == p[0],
        1 <= i < p.len(),
    ensures
        exists|b: int| a < b < order.len() && order[b] == p[i],
    decreases i,
{
    assert(is_step(edges, p, i - 1));
    let k = choose|k: int| 0 <= k < edges.len() && edges[k] == (p[i - 1], p[i]);
    assert(order.contains(p[i]));
    let b = choose|b: int| 0 <= b < order.len() && order[b] == p[i];
    if i == 1 {
        assert(a < b);
    } else {
        lemma_walk_climbs(order, n, edges, p, a, i - 1);
        let c = choose|c: int| a < c < order.len() && order[c] == p[i - 1];
        assert(c < b);
    }
}

/// A module that depends on itself, directly or through others, leaves
/// no order in which every module comes before its dependencies; so the
/// sort of such a graph fails.
pub proof fn law_cycle_blocks_order(edges: Seq<(usize, usize)>, n: nat, c: usize)
    requires
        forall|k: int| 0 <= k < edges.len() ==> (#[trigger] edges[k]).0 < n && edges[k].1 < n,
        reaches(edges, c, c),
    ensures
        !exists|o: Seq<usize>| is_topological(o, n, edges),
{
    if exists|o: Seq<usize>| is_topological(o, n, edges) {
        let o = choose|o: Seq<usize>| is_topological(o, n, edges);
        let p = choose|p: Seq<usize>| is_walk(edges, p) && p[0] == c && p.last() == c;
        assert forall|k: int| 0 <= k < p.len() implies #[trigger] p[k] < n by {
            if k < p.len() - 1 {
                assert(is_step(edges, p, k));
                let t = choose|t: int| 0 <= t < edges.len() && edges[t] == (p[k], p[k + 1]);
                assert(edges[t].0 < n);
            } else {
                assert(is_step(edges, p, k - 1));
                let t = choose|t: int| 0 <= t < edges.len() && edges[t] == (p[k - 1], p[k]);
                assert(edges[t].1 < n);
            }
        }
        assert(o.contains(c));
        let a = choose|a: int| 0 <= a < o.len() && o[a] == c;
        lemma_walk_climbs(o, n, edges, p, a, p.len() - 1);
        let b = choose|b: int| a < b < o.len() && o[b] == p[p.len() - 1];
        assert(o[a] == o[b]);
    }
}

} // verus!
