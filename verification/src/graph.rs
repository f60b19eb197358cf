//! The dependency graph: packages as nodes of a `petgraph::StableGraph`,
//! dependency edges between them, and the logical `node_modules/`
//! hierarchy (each node's parent and children) that decides where each
//! package is installed.

use vstd::prelude::*;

use petgraph::stable_graph::{EdgeIndex, NodeIndex, StableGraph};
use petgraph::visit::EdgeRef;
use petgraph::Direction;

use crate::names::{name_get, names_match, unicase_equal, unicase_eq, NameMap};
use crate::resolution::{spec_satisfies, PackageResolution, ResolutionView};
use crate::spec::{PackageSpec, SpecView};

verus! {

/// A resolved package: the specifier it was resolved from, the name it is
/// installed under, and its resolution.
#[derive(Debug)]
pub struct Package {
    pub name: String,
    pub from: PackageSpec,
    pub resolved: PackageResolution,
}

/// The mathematical value of a [`Package`].
pub struct PackageView {
    pub name: Seq<char>,
    pub from: SpecView,
    pub resolved: ResolutionView,
}

impl View for Package {
    type V = PackageView;

    open spec fn view(&self) -> PackageView {
        PackageView { name: self.name@, from: self.from@, resolved: self.resolved@ }
    }
}

impl Clone for Package {
    fn clone(&self) -> (res: Self)
        ensures
            res@ == self@,
    {
        Package { name: self.name.clone(), from: self.from.clone(), resolved: self.resolved.clone() }
    }
}

impl Package {
    /// Name of the package, as it is used in the dependency graph.
    pub fn name(&self) -> (res: &String)
        ensures
            res@ == self@.name,
    {
        &self.name
    }

    /// The resolution this package was created from.
    pub fn resolved(&self) -> (res: &PackageResolution)
        ensures
            res@ == self@.resolved,
    {
        &self.resolved
    }

    /// The specifier this package was resolved from.
    pub fn from(&self) -> (res: &PackageSpec)
        ensures
            res@ == self@.from,
    {
        &self.from
    }
}

/// The kind of a dependency.
#[derive(Debug, Clone, Copy, PartialEq, Eq, PartialOrd, Ord)]
pub enum DepType {
    Prod,
    Dev,
    Peer,
    Opt,
}

/// A dependency edge: what the dependent asked for, and how.
#[derive(Debug)]
pub struct Edge {
    pub requested: PackageSpec,
    pub dep_type: DepType,
}

impl Edge {
    pub fn new(requested: PackageSpec, dep_type: DepType) -> (res: Edge)
        ensures
            res.requested == requested,
            res.dep_type == dep_type,
    {
        Edge { requested, dep_type }
    }
}

/// A package in the graph, with its place in the hierarchy.
#[derive(Debug)]
pub struct Node {
    /// Index of this node inside its graph.
    pub idx: usize,
    /// The resolved package.
    pub package: Package,
    /// Index of the graph's root node.
    pub root: usize,
    /// Outgoing dependency edges, by dependency name.
    pub dependencies: NameMap<usize>,
    /// Parent of this node in the logical filesystem hierarchy.
    pub parent: Option<usize>,
    /// Children of this node in the logical filesystem hierarchy, by name.
    /// These are not necessarily dependencies, and this node's dependencies
    /// may not all be here.
    pub children: NameMap<usize>,
    /// What the package's manifest asks for, by dependency name.
    pub dependency_reqs: NameMap<(PackageSpec, DepType)>,
    /// Unpacked tarball size, if known.
    pub tarball_size: Option<u64>,
    /// Number of files in the tarball, if known.
    pub tarball_file_count: Option<u64>,
}

impl Node {
    /// A node for `package` that is not yet placed in a graph.
    pub fn new(
        package: Package,
        dependency_reqs: NameMap<(PackageSpec, DepType)>,
        tarball_size: Option<u64>,
        tarball_file_count: Option<u64>,
    ) -> (res: Node)
        ensures
            res.package == package,
            res.dependency_reqs == dependency_reqs,
            res.parent is None,
            res.children@.len() == 0,
            res.dependencies@.len() == 0,
            res.idx == 0,
            res.root == 0,
            res.tarball_size == tarball_size,
            res.tarball_file_count == tarball_file_count,
    {
        Node {
            idx: 0,
            package,
            root: 0,
            dependencies: NameMap::new(),
            parent: None,
            children: NameMap::new(),
            dependency_reqs,
            tarball_size,
            tarball_file_count,
        }
    }
}

// ---------------------------------------------------------------------
// petgraph
// ---------------------------------------------------------------------

#[verifier::external_type_specification]
#[verifier::external_body]
#[verifier::reject_recursive_types(N)]
#[verifier::reject_recursive_types(E)]
#[verifier::reject_recursive_types(Ty)]
#[verifier::reject_recursive_types(Ix)]
pub struct ExStableGraph<N, E, Ty, Ix>(StableGraph<N, E, Ty, Ix>);

#[verifier::external_type_specification]
#[verifier::external_body]
pub struct ExDirected(petgraph::Directed);

/// The live nodes of a `StableGraph`, by node index.
pub uninterp spec fn graph_nodes(g: StableGraph<Node, Edge>) -> Map<usize, Node>;

/// The live edges of a `StableGraph`, by edge index: source, target and
/// weight.
pub uninterp spec fn graph_edges(g: StableGraph<Node, Edge>) -> Map<usize, (usize, usize, Edge)>;

/// The largest node or edge index a `StableGraph` with the default `u32`
/// index type can hand out.
pub open spec fn index_limit() -> int {
    0xffff_ffff
}

pub open spec fn empty_nodes() -> Map<usize, Node> {
    Map::empty()
}

pub open spec fn empty_edges() -> Map<usize, (usize, usize, Edge)> {
    Map::empty()
}

/// Creates an empty graph (`StableGraph::new`).
///
/// Trusted: the graph has no nodes and no edges.
#[verifier::external_body]
fn sg_new() -> (res: StableGraph<Node, Edge>)
    ensures
        graph_nodes(res) == empty_nodes(),
        graph_edges(res) == empty_edges(),
{
    StableGraph::new()
}

/// Adds a node (`StableGraph::add_node`).
///
/// Trusted: the new node gets an index that was not in use, below the
/// index type's maximum, and nothing else changes. `add_node` panics only
/// when every index below that maximum is taken, which the bound on the
/// number of live nodes rules out.
#[verifier::external_body]
fn sg_add_node(g: &mut StableGraph<Node, Edge>, weight: Node) -> (i: usize)
    requires
        graph_nodes(*old(g)).dom().finite(),
        graph_nodes(*old(g)).len() < index_limit(),
    ensures
        !graph_nodes(*old(g)).dom().contains(i),
        i < index_limit(),
        graph_nodes(*final(g)) == graph_nodes(*old(g)).insert(i, weight),
        graph_edges(*final(g)) == graph_edges(*old(g)),
{
    g.add_node(weight).index()
}

/// Adds an edge from `a` to `b` (`StableGraph::add_edge`).
///
/// Trusted: the new edge gets an index that was not in use, below the index
/// type's maximum, and nothing else changes. `add_edge` panics where an
/// endpoint is missing or every edge index is taken, which the requires
/// rule out.
#[verifier::external_body]
fn sg_add_edge(g: &mut StableGraph<Node, Edge>, a: usize, b: usize, weight: Edge) -> (e: usize)
    requires
        graph_nodes(*old(g)).dom().contains(a),
        graph_nodes(*old(g)).dom().contains(b),
        a < index_limit(),
        b < index_limit(),
        graph_edges(*old(g)).dom().finite(),
        graph_edges(*old(g)).len() < index_limit(),
    ensures
        !graph_edges(*old(g)).dom().contains(e),
        e < index_limit(),
        graph_edges(*final(g)) == graph_edges(*old(g)).insert(e, (a, b, weight)),
        graph_nodes(*final(g)) == graph_nodes(*old(g)),
{
    g.add_edge(NodeIndex::new(a), NodeIndex::new(b), weight).index()
}

/// The weight of node `i` (`StableGraph::node_weight`).
///
/// Trusted: it is the live node at that index.
#[verifier::external_body]
fn sg_node(g: &StableGraph<Node, Edge>, i: usize) -> (r: &Node)
    requires
        graph_nodes(*g).dom().contains(i),
        i < index_limit(),
    ensures
        *r == graph_nodes(*g)[i],
{
    g.node_weight(NodeIndex::new(i)).unwrap()
}

/// The weight of node `i`, mutably (`StableGraph::node_weight_mut`).
///
/// Trusted: it is the live node at that index, and what is written through
/// it is what the graph then holds there; nothing else changes.
#[verifier::external_body]
fn sg_node_mut(g: &mut StableGraph<Node, Edge>, i: usize) -> (r: &mut Node)
    requires
        graph_nodes(*old(g)).dom().contains(i),
        i < index_limit(),
    ensures
        *r == graph_nodes(*old(g))[i],
        graph_nodes(*final(g)) == graph_nodes(*old(g)).insert(i, *final(r)),
        graph_edges(*final(g)) == graph_edges(*old(g)),
{
    g.node_weight_mut(NodeIndex::new(i)).unwrap()
}

/// The weight of edge `e` (`StableGraph::edge_weight`).
///
/// Trusted: it is the live edge's weight.
#[verifier::external_body]
fn sg_edge(g: &StableGraph<Node, Edge>, e: usize) -> (r: &Edge)
    requires
        graph_edges(*g).dom().contains(e),
        e < index_limit(),
    ensures
        *r == graph_edges(*g)[e].2,
{
    g.edge_weight(EdgeIndex::new(e)).unwrap()
}

/// The endpoints of edge `e` (`StableGraph::edge_endpoints`).
///
/// Trusted: source and target of the live edge.
#[verifier::external_body]
fn sg_edge_endpoints(g: &StableGraph<Node, Edge>, e: usize) -> (r: (usize, usize))
    requires
        graph_edges(*g).dom().contains(e),
        e < index_limit(),
    ensures
        r.0 == graph_edges(*g)[e].0,
        r.1 == graph_edges(*g)[e].1,
{
    let (a, b) = g.edge_endpoints(EdgeIndex::new(e)).unwrap();
    (a.index(), b.index())
}

/// Whether some edge goes from `a` to `b`.
pub open spec fn has_edge(edges: Map<usize, (usize, usize, Edge)>, a: usize, b: usize) -> bool {
    exists|e: usize| #[trigger] edges.dom().contains(e) && edges[e].0 == a && edges[e].1 == b
}

/// Whether `p` is a walk along edges: each node has an edge to the next.
pub open spec fn is_walk(edges: Map<usize, (usize, usize, Edge)>, p: Seq<usize>) -> bool {
    p.len() >= 1 && forall|k: int| 0 <= k < p.len() - 1 ==> has_edge(edges, #[trigger] p[k], p[k + 1])
}

/// Whether some walk leads from `a` to `b` (every node reaches itself).
pub open spec fn reaches(edges: Map<usize, (usize, usize, Edge)>, a: usize, b: usize) -> bool {
    exists|p: Seq<usize>| #[trigger] is_walk(edges, p) && p[0] == a && p.last() == b
}

/// Whether `b` can be reached from `a` along edges
/// (`petgraph::algo::has_path_connecting`).
///
/// Trusted: the crate runs a depth-first search from `a` over outgoing
/// edges and reports whether it visits `b`; the search visits `a` itself
/// and exactly the nodes some walk leads to. Both nodes must be live, or
/// the search's visit map could be indexed out of bounds.
#[verifier::external_body]
fn sg_has_path(g: &StableGraph<Node, Edge>, a: usize, b: usize) -> (r: bool)
    requires
        graph_nodes(*g).dom().contains(a),
        graph_nodes(*g).dom().contains(b),
        a < index_limit(),
        b < index_limit(),
    ensures
        r == reaches(graph_edges(*g), a, b),
{
    petgraph::algo::has_path_connecting(g, NodeIndex::new(a), NodeIndex::new(b), None)
}

/// The sources of the edges into node `i`
/// (`StableGraph::edges_directed(i, Incoming)`).
///
/// Trusted: a node occurs in the result exactly when some live edge goes
/// from it to `i`. The order (and how often a node with several such edges
/// occurs) is not stated.
#[verifier::external_body]
fn sg_incoming_sources(g: &StableGraph<Node, Edge>, i: usize) -> (r: Vec<usize>)
    requires
        i < index_limit(),
    ensures
        forall|s: usize| r@.contains(s) <==> has_edge(graph_edges(*g), s, i),
{
    g.edges_directed(NodeIndex::new(i), Direction::Incoming).map(|e| e.source().index()).collect()
}

/// The number of live edges (`StableGraph::edge_count`).
///
/// Trusted: the crate keeps this count of the live edges as edges are added
/// and removed.
#[verifier::external_body]
fn sg_edge_count(g: &StableGraph<Node, Edge>) -> (r: usize)
    ensures
        r == graph_edges(*g).len(),
{
    g.edge_count()
}

/// The indices of the live nodes (`StableGraph::node_indices`).
///
/// Trusted: each live node index occurs once, in increasing order.
#[verifier::external_body]
fn sg_node_indices(g: &StableGraph<Node, Edge>) -> (r: Vec<usize>)
    ensures
        forall|i: usize| r@.contains(i) <==> graph_nodes(*g).dom().contains(i),
        forall|a: int, b: int| 0 <= a < b < r@.len() ==> r@[a] < r@[b],
{
    g.node_indices().map(|n| n.index()).collect()
}


// ---------------------------------------------------------------------
// The graph
// ---------------------------------------------------------------------

/// A dependency graph with its `node_modules/` hierarchy.
///
/// Besides the `petgraph` graph it keeps, as ghost state, each node's rank:
/// the order in which nodes were added. A parent is always older than its
/// children, which bounds every walk up the hierarchy.
pub struct Graph {
    pub(crate) root: usize,
    pub(crate) inner: StableGraph<Node, Edge>,
    pub(crate) rank: Ghost<Map<usize, nat>>,
}

/// The mathematical value of a [`Graph`].
pub struct GraphView {
    pub root: usize,
    pub nodes: Map<usize, Node>,
    pub edges: Map<usize, (usize, usize, Edge)>,
    pub rank: Map<usize, nat>,
}

impl View for Graph {
    type V = GraphView;

    closed spec fn view(&self) -> GraphView {
        GraphView {
            root: self.root,
            nodes: graph_nodes(self.inner),
            edges: graph_edges(self.inner),
            rank: self.rank@,
        }
    }
}

impl GraphView {
    /// Whether node `i` is in the graph.
    pub open spec fn has(self, i: usize) -> bool {
        self.nodes.dom().contains(i)
    }

    /// Whether `i` has a parent that is older than it.
    pub open spec fn steps_up(self, i: usize) -> bool {
        match self.nodes[i].parent {
            Some(p) => self.rank.dom().contains(p) && self.rank[p] < self.rank[i],
            None => false,
        }
    }

    /// The parent of `i` in the hierarchy.
    pub open spec fn up(self, i: usize) -> usize {
        self.nodes[i].parent.unwrap()
    }

    /// The name node `i` is installed under.
    pub open spec fn name_of(self, i: usize) -> Seq<char> {
        self.nodes[i].package.name@
    }

    pub open spec fn node_ok(self, i: usize) -> bool {
        &&& i < index_limit()
        &&& self.nodes[i].idx == i
        &&& self.nodes[i].root == self.root
        &&& (i != self.root ==> self.steps_up(i) && self.has(self.up(i)))
        &&& forall|k: int|
            0 <= k < self.nodes[i].children@.len() ==> self.has(#[trigger] self.nodes[i].children@[k].1)
                && self.nodes[self.nodes[i].children@[k].1].parent == Some(i)
        &&& forall|k: int|
            0 <= k < self.nodes[i].dependencies@.len() ==> self.edges.dom().contains(
                #[trigger] self.nodes[i].dependencies@[k].1,
            ) && self.edges[self.nodes[i].dependencies@[k].1].0 == i
    }

    /// Well-formedness: the root has no parent, every other node has an
    /// older parent in the graph, children point back at their parent,
    /// dependency edges leave the node that lists them, and every index is
    /// one the graph can hand out.
    pub open spec fn wf(self) -> bool {
        &&& self.nodes.dom().finite()
        &&& self.edges.dom().finite()
        &&& self.nodes.dom() == self.rank.dom()
        &&& self.nodes.len() < index_limit()
        &&& forall|i: usize| #[trigger] self.has(i) ==> self.rank[i] < self.nodes.len()
        &&& self.has(self.root)
        &&& self.nodes[self.root].parent is None
        &&& forall|i: usize| #[trigger] self.has(i) ==> self.node_ok(i)
        &&& forall|e: usize|
            #[trigger] self.edges.dom().contains(e) ==> e < index_limit() && self.has(self.edges[e].0)
                && self.has(self.edges[e].1)
    }
}

/// The node that dependency `name` of node `i` resolves to: the child of
/// that name of `i` or of its nearest ancestor that has one.
pub open spec fn resolved_dep(g: GraphView, i: usize, name: Seq<char>) -> Option<usize>
    decreases g.rank[i],
{
    match name_get(g.nodes[i].children@, name) {
        Some(c) => Some(c),
        None => if g.steps_up(i) {
            resolved_dep(g, g.up(i), name)
        } else {
            None
        },
    }
}

/// Whether `a` is `d` or one of its ancestors in the hierarchy.
pub open spec fn ancestor_of(g: GraphView, a: usize, d: usize) -> bool
    decreases g.rank[d],
{
    d == a || (g.steps_up(d) && ancestor_of(g, a, g.up(d)))
}

/// The names from just below the root down to `i` (empty for the root).
pub open spec fn path_to(g: GraphView, i: usize) -> Seq<Seq<char>>
    decreases g.rank[i],
{
    if i == g.root {
        Seq::empty()
    } else if g.steps_up(i) {
        path_to(g, g.up(i)).push(g.name_of(i))
    } else {
        seq![g.name_of(i)]
    }
}

/// The path of node `i` in `node_modules/`, as a list of package names: the
/// names from just below the root down to `i`; for the root, its own name.
pub open spec fn node_path(g: GraphView, i: usize) -> Seq<Seq<char>> {
    if i == g.root {
        seq![g.name_of(i)]
    } else {
        path_to(g, i)
    }
}

/// The number of ancestors of `i`.
pub open spec fn depth_of(g: GraphView, i: usize) -> nat
    decreases g.rank[i],
{
    if g.steps_up(i) {
        depth_of(g, g.up(i)) + 1
    } else {
        0
    }
}

pub open spec fn strings_view(s: Seq<String>) -> Seq<Seq<char>> {
    s.map_values(|x: String| x@)
}

impl Graph {
    /// A graph holding only `root`.
    pub fn new(root: Node) -> (res: Graph)
        requires
            root.parent is None,
            root.children@.len() == 0,
            root.dependencies@.len() == 0,
        ensures
            res@.wf(),
            res@.nodes.len() == 1,
            res@.edges.len() == 0,
            res@.nodes[res@.root].package == root.package,
            res@.nodes[res@.root].dependency_reqs == root.dependency_reqs,
            res@.nodes[res@.root].dependencies@.len() == 0,
    {
        let mut inner = sg_new();
        let r = sg_add_node(&mut inner, root);
        {
            let n = sg_node_mut(&mut inner, r);
            n.idx = r;
            n.root = r;
        }
        let g = Graph { root: r, inner, rank: Ghost(Map::empty().insert(r, 0nat)) };
        proof {
            let gv = g@;
            assert(gv.nodes.dom() =~= set![r]);
            assert(gv.rank.dom() =~= set![r]);
            assert(gv.edges.dom() =~= Set::<usize>::empty());
            assert forall|i: usize| #[trigger] gv.has(i) implies gv.node_ok(i) by {
                assert(i == r);
            }
        }
        g
    }

    /// Index of the root node.
    pub fn root(&self) -> (res: usize)
        ensures
            res == self@.root,
    {
        self.root
    }

    /// The node at index `i` (`graph[i]`).
    pub fn node(&self, i: usize) -> (res: &Node)
        requires
            self@.wf(),
            self@.has(i),
        ensures
            *res == self@.nodes[i],
    {
        sg_node(&self.inner, i)
    }

    /// The edge at index `e` (`graph[e]`).
    pub fn edge(&self, e: usize) -> (res: &Edge)
        requires
            self@.wf(),
            self@.edges.dom().contains(e),
        ensures
            *res == self@.edges[e].2,
    {
        sg_edge(&self.inner, e)
    }

    /// The source and target of edge `e`.
    pub fn edge_endpoints(&self, e: usize) -> (res: (usize, usize))
        requires
            self@.wf(),
            self@.edges.dom().contains(e),
        ensures
            res.0 == self@.edges[e].0,
            res.1 == self@.edges[e].1,
            self@.has(res.0),
            self@.has(res.1),
    {
        sg_edge_endpoints(&self.inner, e)
    }

    /// The nodes with an edge into node `i`.
    pub fn incoming_sources(&self, i: usize) -> (res: Vec<usize>)
        requires
            self@.wf(),
            self@.has(i),
        ensures
            forall|s: usize| res@.contains(s) <==> has_edge(self@.edges, s, i),
    {
        assert(self@.node_ok(i));
        sg_incoming_sources(&self.inner, i)
    }

    /// Whether `b` can be reached from `a` along dependency edges.
    pub fn has_path(&self, a: usize, b: usize) -> (res: bool)
        requires
            self@.wf(),
            self@.has(a),
            self@.has(b),
        ensures
            res == reaches(self@.edges, a, b),
    {
        assert(self@.node_ok(a));
        assert(self@.node_ok(b));
        sg_has_path(&self.inner, a, b)
    }

    /// The indices of the nodes, each once, in increasing order.
    pub fn node_indices(&self) -> (res: Vec<usize>)
        ensures
            forall|i: usize| res@.contains(i) <==> self@.has(i),
            forall|a: int, b: int| 0 <= a < b < res@.len() ==> res@[a] < res@[b],
    {
        sg_node_indices(&self.inner)
    }

    /// The number of edges.
    pub fn edge_count(&self) -> (res: usize)
        ensures
            res == self@.edges.len(),
    {
        sg_edge_count(&self.inner)
    }

    /// The number of nodes.
    pub fn node_count(&self) -> (res: usize)
        requires
            self@.wf(),
        ensures
            res == self@.nodes.len(),
    {
        let idx = sg_node_indices(&self.inner);
        proof {
            lemma_indices_cover(idx@, self@.nodes.dom());
        }
        idx.len()
    }

    /// The node that dependency `dep` of `node` resolves to: the child of
    /// that name of `node` or of its nearest ancestor that has one.
    pub fn resolve_dep(&self, node: usize, dep: &String) -> (res: Option<usize>)
        requires
            self@.wf(),
            self@.has(node),
        ensures
            res == resolved_dep(self@, node, dep@),
            res matches Some(c) ==> self@.has(c),
    {
        let ghost g = self@;
        let mut cur = node;
        loop
            invariant
                g == self@,
                g.wf(),
                g.has(cur),
                resolved_dep(g, node, dep@) == resolved_dep(g, cur, dep@),
            decreases g.rank[cur],
        {
            let n = self.node(cur);
            assert(g.node_ok(cur));
            match n.children.get(dep) {
                Some(c) => {
                    proof {
                        crate::names::lemma_name_pos(n.children@, dep@);
                    }
                    return Some(*c);
                },
                None => {},
            }
            match n.parent {
                Some(p) => {
                    if cur == self.root {
                        return None;
                    }
                    cur = p;
                },
                None => {
                    return None;
                },
            }
        }
    }

    /// Whether `ancestor` is `descendant` or one of its ancestors.
    pub fn is_ancestor(&self, ancestor: usize, descendant: usize) -> (res: bool)
        requires
            self@.wf(),
            self@.has(descendant),
        ensures
            res == ancestor_of(self@, ancestor, descendant),
    {
        let ghost g = self@;
        let mut cur = descendant;
        loop
            invariant
                g == self@,
                g.wf(),
                g.has(cur),
                ancestor_of(g, ancestor, descendant) == ancestor_of(g, ancestor, cur),
            decreases g.rank[cur],
        {
            if cur == ancestor {
                return true;
            }
            let n = self.node(cur);
            assert(g.node_ok(cur));
            match n.parent {
                Some(p) => {
                    if cur == self.root {
                        return false;
                    }
                    cur = p;
                },
                None => {
                    return false;
                },
            }
        }
    }

    /// The node named `name` that `parent` would find: the same as
    /// [`Graph::resolve_dep`].
    pub fn find_by_name(&self, parent: usize, name: &String) -> (res: Option<usize>)
        requires
            self@.wf(),
            self@.has(parent),
        ensures
            res == resolved_dep(self@, parent, name@),
            res matches Some(c) ==> self@.has(c),
    {
        self.resolve_dep(parent, name)
    }

    /// The number of ancestors of node `i`.
    pub fn depth(&self, i: usize) -> (res: usize)
        requires
            self@.wf(),
            self@.has(i),
        ensures
            res == depth_of(self@, i),
    {
        let ghost g = self@;
        proof {
            lemma_depth_bounded(g, i);
        }
        let mut cur = i;
        let mut count: usize = 0;
        loop
            invariant
                g == self@,
                g.wf(),
                g.has(cur),
                depth_of(g, i) == depth_of(g, cur) + count,
                depth_of(g, i) <= g.rank[i],
                g.rank[i] < g.nodes.len(),
                g.nodes.len() < index_limit(),
                count <= g.rank[i],
            decreases g.rank[cur],
        {
            if cur == self.root {
                return count;
            }
            let n = self.node(cur);
            assert(g.node_ok(cur));
            cur = match n.parent {
                Some(p) => p,
                None => cur,
            };
            count = count + 1;
        }
    }

    /// The path of node `i` in `node_modules/`, as package names (see
    /// [`node_path`]).
    pub fn node_path(&self, i: usize) -> (res: Vec<String>)
        requires
            self@.wf(),
            self@.has(i),
        ensures
            strings_view(res@) == node_path(self@, i),
    {
        let ghost g = self@;
        let node = self.node(i);
        if i == self.root {
            let mut out: Vec<String> = Vec::new();
            out.push(node.package.name.clone());
            assert(strings_view(out@) =~= seq![g.name_of(i)]);
            return out;
        }
        let mut out: Vec<String> = Vec::new();
        let mut cur = i;
        loop
            invariant
                g == self@,
                g.wf(),
                g.has(cur),
                i != g.root,
                path_to(g, i) =~= path_to(g, cur) + strings_view(out@),
            decreases g.rank[cur],
        {
            if cur == self.root {
                assert(path_to(g, cur) =~= Seq::<Seq<char>>::empty());
                return out;
            }
            let n = self.node(cur);
            assert(g.node_ok(cur));
            out.insert(0, n.package.name.clone());
            proof {
                assert(strings_view(out@) =~= seq![g.name_of(cur)] + strings_view(out@.drop_first()));
            }
            match n.parent {
                Some(p) => {
                    cur = p;
                },
                None => {
                    assert(false);
                    return out;
                },
            }
        }
    }
}

proof fn lemma_depth_bounded(g: GraphView, i: usize)
    requires
        g.wf(),
        g.has(i),
    ensures
        depth_of(g, i) <= g.rank[i],
    decreases g.rank[i],
{
    assert(g.node_ok(i));
    if g.steps_up(i) && i != g.root {
        lemma_depth_bounded(g, g.up(i));
    }
}

proof fn lemma_indices_cover(s: Seq<usize>, d: Set<usize>)
    requires
        d.finite(),
        forall|i: usize| s.contains(i) <==> d.contains(i),
        forall|a: int, b: int| 0 <= a < b < s.len() ==> s[a] < s[b],
    ensures
        s.len() == d.len(),
{
    assert(s.no_duplicates()) by {
        assert forall|a: int, b: int| 0 <= a < s.len() && 0 <= b < s.len() && a != b implies s[a]
            != s[b] by {
            if a < b {
            } else {
            }
        }
    }
    s.unique_seq_to_set();
    assert(s.to_set() =~= d);
}


/// Two nodes agree on everything but their children and dependency maps.
pub open spec fn same_but_links(a: Node, b: Node) -> bool {
    &&& a.idx == b.idx
    &&& a.package == b.package
    &&& a.root == b.root
    &&& a.parent == b.parent
    &&& a.dependency_reqs == b.dependency_reqs
    &&& a.tarball_size == b.tarball_size
    &&& a.tarball_file_count == b.tarball_file_count
}

/// `new` is `old` with edge `e` from `from` to `to` added and recorded as
/// `from`'s dependency `name`.
pub open spec fn edge_added(
    old: GraphView,
    new: GraphView,
    from: usize,
    to: usize,
    name: Seq<char>,
    e: usize,
    edge: Edge,
) -> bool {
    &&& !old.edges.dom().contains(e)
    &&& new.edges == old.edges.insert(e, (from, to, edge))
    &&& new.root == old.root
    &&& new.rank == old.rank
    &&& new.nodes.dom() == old.nodes.dom()
    &&& same_but_links(new.nodes[from], old.nodes[from])
    &&& new.nodes[from].children == old.nodes[from].children
    &&& new.nodes[from].dependencies@ == crate::names::name_insert(
        old.nodes[from].dependencies@,
        name,
        e,
    )
    &&& forall|i: usize| #[trigger] old.has(i) && i != from ==> new.nodes[i] == old.nodes[i]
}

/// `new` is `old` with node `child` (holding `node`'s package) placed under
/// `target` as its child `name`, and edge `e` from `dependent` to `child`
/// recorded as `dependent`'s dependency `name`.
pub open spec fn child_placed(
    old: GraphView,
    new: GraphView,
    dependent: usize,
    target: usize,
    name: Seq<char>,
    node: Node,
    edge: Edge,
    child: usize,
    e: usize,
) -> bool {
    &&& !old.has(child)
    &&& !old.edges.dom().contains(e)
    &&& new.root == old.root
    &&& new.nodes.dom() == old.nodes.dom().insert(child)
    &&& new.edges == old.edges.insert(e, (dependent, child, edge))
    &&& new.rank == old.rank.insert(child, old.nodes.len())
    &&& new.nodes[child].package == node.package
    &&& new.nodes[child].dependency_reqs == node.dependency_reqs
    &&& new.nodes[child].parent == Some(target)
    &&& new.nodes[child].children@.len() == 0
    &&& new.nodes[child].dependencies@.len() == 0
    &&& same_but_links(new.nodes[target], old.nodes[target])
    &&& same_but_links(new.nodes[dependent], old.nodes[dependent])
    &&& new.nodes[target].children@ == crate::names::name_insert(
        old.nodes[target].children@,
        name,
        child,
    )
    &&& new.nodes[dependent].dependencies@ == crate::names::name_insert(
        old.nodes[dependent].dependencies@,
        name,
        e,
    )
    &&& (target != dependent ==> new.nodes[target].dependencies == old.nodes[target].dependencies)
    &&& (target != dependent ==> new.nodes[dependent].children == old.nodes[dependent].children)
    &&& forall|i: usize|
        #[trigger] old.has(i) && i != target && i != dependent ==> new.nodes[i] == old.nodes[i]
}

proof fn lemma_name_insert_values<T>(m: Seq<(Seq<char>, T)>, k: Seq<char>, v: T, j: int)
    requires
        0 <= j < crate::names::name_insert(m, k, v).len(),
    ensures
        crate::names::name_insert(m, k, v)[j].1 == v || (j < m.len() && crate::names::name_insert(
            m,
            k,
            v,
        )[j].1 == m[j].1),
        j < m.len() || crate::names::name_insert(m, k, v)[j].1 == v,
{
    crate::names::lemma_name_pos(m, k);
}

impl Graph {
    /// Records an edge from `from` to the existing node `to` as `from`'s
    /// dependency `name`.
    pub fn add_dependency_edge(&mut self, from: usize, to: usize, name: String, edge: Edge) -> (res: usize)
        requires
            old(self)@.wf(),
            old(self)@.has(from),
            old(self)@.has(to),
            old(self)@.edges.len() + 1 < index_limit(),
        ensures
            final(self)@.wf(),
            edge_added(old(self)@, final(self)@, from, to, name@, res, edge),
    {
        let ghost g0 = self@;
        assert(g0.node_ok(from));
        assert(g0.node_ok(to));
        let ghost edge_v = edge;
        let e = sg_add_edge(&mut self.inner, from, to, edge);
        let ghost g1 = self@;
        let ghost name_v = name@;
        {
            let d = sg_node_mut(&mut self.inner, from);
            d.dependencies.insert(name, e);
        }
        proof {
            let g2 = self@;
            assert(g2.nodes.dom() =~= g0.nodes.dom());
            assert forall|i: usize| #[trigger] g0.has(i) && i != from implies g2.nodes[i] == g0.nodes[i] by {}
            assert forall|i: usize| #[trigger] g2.has(i) implies g2.node_ok(i) by {
                assert(g0.has(i));
                assert(g0.node_ok(i));
                if i == from {
                    assert forall|k: int|
                        0 <= k < g2.nodes[i].dependencies@.len() implies g2.edges.dom().contains(
                        #[trigger] g2.nodes[i].dependencies@[k].1,
                    ) && g2.edges[g2.nodes[i].dependencies@[k].1].0 == i by {
                        lemma_name_insert_values(g0.nodes[i].dependencies@, name_v, e, k);
                    }
                    assert forall|k: int|
                        0 <= k < g2.nodes[i].children@.len() implies g2.has(
                        #[trigger] g2.nodes[i].children@[k].1,
                    ) && g2.nodes[g2.nodes[i].children@[k].1].parent == Some(i) by {
                        let c = g0.nodes[i].children@[k].1;
                        assert(g0.has(c));
                        assert(g0.nodes[c].parent == Some(i));
                        if c != from {
                            assert(g2.nodes[c] == g0.nodes[c]);
                        }
                    }
                } else {
                    assert forall|k: int|
                        0 <= k < g2.nodes[i].children@.len() implies g2.has(
                        #[trigger] g2.nodes[i].children@[k].1,
                    ) && g2.nodes[g2.nodes[i].children@[k].1].parent == Some(i) by {
                        let c = g0.nodes[i].children@[k].1;
                        assert(g0.has(c));
                        if c != from {
                            assert(g2.nodes[c] == g0.nodes[c]);
                        }
                    }
                    assert forall|k: int|
                        0 <= k < g2.nodes[i].dependencies@.len() implies g2.edges.dom().contains(
                        #[trigger] g2.nodes[i].dependencies@[k].1,
                    ) && g2.edges[g2.nodes[i].dependencies@[k].1].0 == i by {
                        let d = g0.nodes[i].dependencies@[k].1;
                        assert(g0.edges.dom().contains(d));
                    }
                }
            }
            assert(g2.edges.dom() =~= g0.edges.dom().insert(e));
            assert forall|x: usize| #[trigger] g2.edges.dom().contains(x) implies x < index_limit()
                && g2.has(g2.edges[x].0) && g2.has(g2.edges[x].1) by {
                if x != e {
                    assert(g0.edges.dom().contains(x));
                }
            }
            assert forall|i: usize| #[trigger] g2.has(i) implies g2.rank[i] < g2.nodes.len() by {
                assert(g0.has(i));
            }
            assert(g2.nodes.len() == g0.nodes.len());
            assert(g2.wf());
        }
        e
    }

    /// Adds `node` as a new child `name` of `target`, with an edge from
    /// `dependent` to it recorded as `dependent`'s dependency `name`.
    pub fn place_node(
        &mut self,
        dependent: usize,
        target: usize,
        name: String,
        node: Node,
        edge: Edge,
    ) -> (res: (usize, usize))
        requires
            old(self)@.wf(),
            old(self)@.has(dependent),
            old(self)@.has(target),
            node.parent is None,
            node.children@.len() == 0,
            node.dependencies@.len() == 0,
            old(self)@.nodes.len() + 1 < index_limit(),
            old(self)@.edges.len() + 1 < index_limit(),
        ensures
            final(self)@.wf(),
            child_placed(old(self)@, final(self)@, dependent, target, name@, node, edge, res.0, res.1),
    {
        let ghost g0 = self@;
        let ghost node_v = node;
        let ghost edge_v = edge;
        let ghost name_v = name@;
        assert(g0.node_ok(dependent));
        assert(g0.node_ok(target));
        let child = sg_add_node(&mut self.inner, node);
        {
            let n = sg_node_mut(&mut self.inner, child);
            n.idx = child;
            n.root = self.root;
            n.parent = Some(target);
        }
        let e = sg_add_edge(&mut self.inner, dependent, child, edge);
        {
            let d = sg_node_mut(&mut self.inner, dependent);
            d.dependencies.insert(name.clone(), e);
        }
        {
            let t = sg_node_mut(&mut self.inner, target);
            t.children.insert(name, child);
        }
        self.rank = Ghost(self.rank@.insert(child, g0.nodes.len()));
        proof {
            let g = self@;
            assert(g.nodes.dom() =~= g0.nodes.dom().insert(child));
            assert(g.rank.dom() =~= g0.rank.dom().insert(child));
            assert(g.edges.dom() =~= g0.edges.dom().insert(e));
            assert(g.nodes.len() == g0.nodes.len() + 1);
            assert forall|i: usize| #[trigger] g0.has(i) && i != target && i != dependent implies g.nodes[i]
                == g0.nodes[i] by {}
            assert(g.nodes[child].children@.len() == 0);
            assert(g.nodes[child].dependencies@.len() == 0);
            assert forall|i: usize| #[trigger] g.has(i) implies g.node_ok(i) by {
                if i == child {
                    assert(g.steps_up(child));
                } else {
                    assert(g0.has(i));
                    assert(g0.node_ok(i));
                    assert(g.rank[i] == g0.rank[i]);
                    if i != g.root {
                        assert(g.nodes[i].parent == g0.nodes[i].parent);
                        assert(g.steps_up(i));
                    }
                    assert forall|k: int|
                        0 <= k < g.nodes[i].children@.len() implies g.has(
                        #[trigger] g.nodes[i].children@[k].1,
                    ) && g.nodes[g.nodes[i].children@[k].1].parent == Some(i) by {
                        let c = g.nodes[i].children@[k].1;
                        if i == target {
                            lemma_name_insert_values(g0.nodes[i].children@, name_v, child, k);
                            if c != child {
                                assert(c == g0.nodes[i].children@[k].1);
                                assert(g0.has(c));
                                assert(g0.nodes[c].parent == Some(i));
                                assert(g.nodes[c].parent == g0.nodes[c].parent);
                            }
                        } else {
                            assert(g.nodes[i].children == g0.nodes[i].children);
                            assert(g0.has(c));
                            assert(g0.nodes[c].parent == Some(i));
                            assert(c != child);
                            assert(g.nodes[c].parent == g0.nodes[c].parent);
                        }
                    }
                    assert forall|k: int|
                        0 <= k < g.nodes[i].dependencies@.len() implies g.edges.dom().contains(
                        #[trigger] g.nodes[i].dependencies@[k].1,
                    ) && g.edges[g.nodes[i].dependencies@[k].1].0 == i by {
                        if i == dependent {
                            lemma_name_insert_values(g0.nodes[i].dependencies@, name_v, e, k);
                            let d = g.nodes[i].dependencies@[k].1;
                            if d != e {
                                assert(g0.edges.dom().contains(d));
                            }
                        } else {
                            assert(g.nodes[i].dependencies == g0.nodes[i].dependencies);
                            let d = g.nodes[i].dependencies@[k].1;
                            assert(g0.edges.dom().contains(d));
                        }
                    }
                }
            }
        }
        proof {
            let g = self@;
            assert forall|x: usize| #[trigger] g.edges.dom().contains(x) implies x < index_limit()
                && g.has(g.edges[x].0) && g.has(g.edges[x].1) by {
                if x != e {
                    assert(g0.edges.dom().contains(x));
                }
            }
            assert forall|i: usize| #[trigger] g.has(i) implies g.rank[i] < g.nodes.len() by {
                if i != child {
                    assert(g0.has(i));
                }
            }
            assert(g.nodes[g.root].parent is None);
            assert(g.wf());
        }
        (child, e)
    }
}

} // verus!
