//! Placing resolved packages in the `node_modules/` hierarchy: reusing a
//! package that is already reachable, or hoisting a new one as high as it
//! can go without breaking what other packages see.

use vstd::prelude::*;

use crate::graph::{
    ancestor_of, child_placed, edge_added, has_edge, index_limit, node_path, resolved_dep,
    strings_view, DepType, Edge, Graph, GraphView, Node, Package,
};
use crate::names::{name_get, names_match, same_name, NameMap};
use crate::resolution::spec_satisfies;
use crate::spec::{PackageSpec, SpecView};

verus! {

/// A dependency of a node that is waiting to be satisfied.
#[derive(Debug)]
pub struct NodeDependency {
    /// The name the dependency is requested under.
    pub name: String,
    /// What was requested.
    pub spec: PackageSpec,
    /// The kind of dependency.
    pub dep_type: DepType,
    /// The dependent node.
    pub node_idx: usize,
}

/// Whether two paths name the same packages, position by position.
pub open spec fn paths_match(a: Seq<Seq<char>>, b: Seq<Seq<char>>) -> bool {
    a.len() == b.len() && forall|i: int| 0 <= i < a.len() ==> same_name(#[trigger] a[i], b[i])
}

/// Whether hoisting a new package `name` (resolved as `child`, requested as
/// `requested`) up to `curr` would break something: the package that `curr`
/// sees under that name is used from within `curr`'s subtree and does not
/// satisfy the request, or `curr` itself asks for `name` and the new package
/// does not satisfy that.
pub open spec fn blocked_at(
    g: GraphView,
    curr: usize,
    name: Seq<char>,
    requested: SpecView,
    child: crate::resolution::ResolutionView,
) -> bool {
    ||| (resolved_dep(g, curr, name) matches Some(r) && (exists|from: usize|
        #[trigger] has_edge(g.edges, from, r) && ancestor_of(g, curr, from)) && !spec_satisfies(
        g.nodes[r].package.resolved@,
        requested,
    ))
    ||| (name_get(g.nodes[curr].dependency_reqs@, name) matches Some(req) && !spec_satisfies(
        child,
        req.0@,
    ))
}

/// Where the climb from `curr` ends, `last` being the highest node reached so
/// far: it stops below a node where hoisting is blocked, at a node whose path
/// matches the locked path, or at the root.
pub open spec fn climb(
    g: GraphView,
    curr: usize,
    last: usize,
    name: Seq<char>,
    requested: SpecView,
    child: crate::resolution::ResolutionView,
    locked: Option<Seq<Seq<char>>>,
) -> usize
    decreases g.rank[curr],
{
    if blocked_at(g, curr, name, requested, child) {
        last
    } else if locked matches Some(l) && paths_match(l, node_path(g, curr)) {
        curr
    } else if g.steps_up(curr) {
        climb(g, g.up(curr), curr, name, requested, child, locked)
    } else {
        curr
    }
}

/// The node under which a new package for a dependency of `dependent` is
/// placed: as high up the dependent's ancestors as it goes unblocked.
pub open spec fn placement_target(
    g: GraphView,
    dependent: usize,
    name: Seq<char>,
    requested: SpecView,
    child: crate::resolution::ResolutionView,
    locked: Option<Seq<Seq<char>>>,
) -> usize {
    climb(g, dependent, dependent, name, requested, child, locked)
}

/// The locked path with its last element (the package itself) dropped.
pub open spec fn locked_parent(target_path: Option<Seq<Seq<char>>>) -> Option<Seq<Seq<char>>> {
    match target_path {
        Some(p) => Some(p.take(p.len() - 1)),
        None => None,
    }
}

pub open spec fn opt_strings_view(o: Option<Vec<String>>) -> Option<Seq<Seq<char>>> {
    match o {
        Some(v) => Some(strings_view(v@)),
        None => None,
    }
}

/// Every node but the root is used from within its parent's subtree: some
/// edge into it comes from its parent or a descendant of its parent.
pub open spec fn anchored(g: GraphView) -> bool {
    forall|c: usize|
        #[trigger] g.has(c) && c != g.root ==> exists|from: usize|
            #[trigger] has_edge(g.edges, from, c) && ancestor_of(g, g.up(c), from)
}

fn paths_equal(a: &Vec<String>, b: &Vec<String>) -> (res: bool)
    ensures
        res == paths_match(strings_view(a@), strings_view(b@)),
{
    if a.len() != b.len() {
        return false;
    }
    let mut i: usize = 0;
    while i < a.len()
        invariant
            a.len() == b.len(),
            i <= a.len(),
            forall|j: int| 0 <= j < i ==> same_name(a@[j]@, b@[j]@),
        decreases a.len() - i,
    {
        if !names_match(&a[i], &b[i]) {
            assert(!same_name(strings_view(a@)[i as int], strings_view(b@)[i as int]));
            return false;
        }
        i = i + 1;
    }
    assert forall|j: int| 0 <= j < strings_view(a@).len() implies same_name(
        #[trigger] strings_view(a@)[j],
        strings_view(b@)[j],
    ) by {
        assert(same_name(a@[j]@, b@[j]@));
    }
    true
}

/// Whether hoisting is blocked at `curr` (see [`blocked_at`]).
fn is_blocked(
    graph: &Graph,
    curr: usize,
    name: &String,
    requested: &PackageSpec,
    child: &crate::resolution::PackageResolution,
) -> (res: bool)
    requires
        graph@.wf(),
        graph@.has(curr),
    ensures
        res == blocked_at(graph@, curr, name@, requested@, child@),
{
    let ghost g = graph@;
    if let Some(resolved) = graph.resolve_dep(curr, name) {
        if !graph.node(resolved).package.resolved.satisfies_canonical(requested) {
            let sources = graph.incoming_sources(resolved);
            let mut i: usize = 0;
            while i < sources.len()
                invariant
                    g == graph@,
                    g.wf(),
                    g.has(curr),
                    g.has(resolved),
                    resolved_dep(g, curr, name@) == Some(resolved),
                    !spec_satisfies(g.nodes[resolved].package.resolved@, requested@),
                    i <= sources.len(),
                    forall|s: usize| sources@.contains(s) <==> has_edge(g.edges, s, resolved),
                    forall|j: int| 0 <= j < i ==> !ancestor_of(g, curr, #[trigger] sources@[j]),
                decreases sources.len() - i,
            {
                let from = sources[i];
                assert(sources@.contains(from));
                proof {
                    let e = choose|e: usize|
                        #[trigger] g.edges.dom().contains(e) && g.edges[e].0 == from && g.edges[e].1
                            == resolved;
                }
                assert(g.has(from));
                if graph.is_ancestor(curr, from) {
                    assert(has_edge(g.edges, from, resolved));
                    assert(resolved_dep(g, curr, name@) == Some(resolved));
                    assert(!spec_satisfies(g.nodes[resolved].package.resolved@, requested@));
                    assert(ancestor_of(g, curr, from));
                    assert(exists|f: usize| #[trigger] has_edge(g.edges, f, resolved) && ancestor_of(g, curr, f));
                    assert(blocked_at(g, curr, name@, requested@, child@));
                    return true;
                }
                i = i + 1;
            }
            assert forall|from: usize| #[trigger] has_edge(g.edges, from, resolved) implies !ancestor_of(
                g,
                curr,
                from,
            ) by {
                assert(sources@.contains(from));
                let j = sources@.index_of(from);
                assert(sources@[j] == from);
            }
        }
    }
    let n = graph.node(curr);
    match n.dependency_reqs.get(name) {
        Some(req) => !child.satisfies_canonical(&req.0),
        None => false,
    }
}

/// The node under which a new package for dependency `dep` goes (see
/// [`placement_target`]). `locked` is the path the lockfile recorded for
/// the package, if any.
pub fn find_target(
    graph: &Graph,
    dep: &NodeDependency,
    child: &crate::resolution::PackageResolution,
    locked: &Option<Vec<String>>,
) -> (res: usize)
    requires
        graph@.wf(),
        graph@.has(dep.node_idx),
        locked matches Some(p) ==> p@.len() > 0,
    ensures
        graph@.has(res),
        res == placement_target(
            graph@,
            dep.node_idx,
            dep.name@,
            dep.spec@,
            child@,
            locked_parent(opt_strings_view(*locked)),
        ),
{
    let ghost g = graph@;
    let ghost lp = locked_parent(opt_strings_view(*locked));
    let parent_path: Option<Vec<String>> = match locked {
        Some(p) => {
            let mut out: Vec<String> = Vec::new();
            let mut i: usize = 0;
            while i < p.len() - 1
                invariant
                    p@.len() > 0,
                    i + 1 <= p@.len(),
                    out@.len() == i,
                    forall|j: int| 0 <= j < i ==> (#[trigger] out@[j])@ == p@[j]@,
                decreases p.len() - i,
            {
                out.push(p[i].clone());
                i = i + 1;
            }
            assert(strings_view(out@) =~= strings_view(p@).take(p@.len() - 1));
            Some(out)
        },
        None => None,
    };
    assert(opt_strings_view(parent_path) == lp);
    let dependent = dep.node_idx;
    let mut target = dependent;
    let mut curr = dependent;
    loop
        invariant
            g == graph@,
            g.wf(),
            g.has(curr),
            g.has(target),
            opt_strings_view(parent_path) == lp,
            lp == locked_parent(opt_strings_view(*locked)),
            dependent == dep.node_idx,
            placement_target(g, dependent, dep.name@, dep.spec@, child@, lp) == climb(
                g,
                curr,
                target,
                dep.name@,
                dep.spec@,
                child@,
                lp,
            ),
        decreases g.rank[curr],
    {
        let ghost last = target;
        if is_blocked(graph, curr, &dep.name, &dep.spec, child) {
            assert(climb(g, curr, last, dep.name@, dep.spec@, child@, lp) == last);
            assert(target == placement_target(g, dependent, dep.name@, dep.spec@, child@, lp));
            return target;
        }
        target = curr;
        if let Some(p) = &parent_path {
            let here = graph.node_path(target);
            if paths_equal(p, &here) {
                assert(lp == Some(strings_view(p@)));
                assert(climb(g, curr, last, dep.name@, dep.spec@, child@, lp) == curr);
                return target;
            }
        }
        assert(g.node_ok(curr));
        match graph.node(curr).parent {
            Some(p) => {
                if curr == graph.root() {
                    return target;
                }
                assert(g.steps_up(curr));
                assert(climb(g, curr, last, dep.name@, dep.spec@, child@, lp) == climb(g, p, curr, dep.name@, dep.spec@, child@, lp));
                curr = p;
            },
            None => {
                assert(!g.steps_up(curr));
                assert(climb(g, curr, last, dep.name@, dep.spec@, child@, lp) == curr);
                return target;
            },
        }
    }
}

/// Satisfies `dep` with the package its dependent already sees under that
/// name, if that package satisfies the request: records an edge to it and
/// returns it. Otherwise the graph is unchanged.
pub fn satisfy_dependency(graph: &mut Graph, dep: &NodeDependency) -> (res: Option<usize>)
    requires
        old(graph)@.wf(),
        old(graph)@.has(dep.node_idx),
        old(graph)@.edges.len() + 1 < index_limit(),
    ensures
        final(graph)@.wf(),
        match res {
            Some(s) => {
                &&& resolved_dep(old(graph)@, dep.node_idx, dep.name@) == Some(s)
                &&& spec_satisfies(old(graph)@.nodes[s].package.resolved@, dep.spec@)
                &&& exists|e: usize, edge: Edge|
                    edge_added(old(graph)@, final(graph)@, dep.node_idx, s, dep.name@, e, edge)
                        && edge.requested@ == dep.spec@ && edge.dep_type == dep.dep_type
            },
            None => {
                &&& final(graph)@ == old(graph)@
                &&& match resolved_dep(old(graph)@, dep.node_idx, dep.name@) {
                    Some(s) => !spec_satisfies(old(graph)@.nodes[s].package.resolved@, dep.spec@),
                    None => true,
                }
            },
        },
{
    if let Some(satisfier) = graph.find_by_name(dep.node_idx, &dep.name) {
        if graph.node(satisfier).package.resolved.satisfies_canonical(&dep.spec) {
            let edge = Edge::new(dep.spec.clone(), dep.dep_type);
            let _e = graph.add_dependency_edge(dep.node_idx, satisfier, dep.name.clone(), edge);
            return Some(satisfier);
        }
        return None;
    }
    None
}

/// Adds a new node for `package` to satisfy `dep`, placed by
/// [`find_target`], with an edge from the dependent to it. Returns the new
/// node.
pub fn place_child(
    graph: &mut Graph,
    dep: &NodeDependency,
    package: Package,
    dependency_reqs: NameMap<(PackageSpec, DepType)>,
    tarball_size: Option<u64>,
    tarball_file_count: Option<u64>,
    target_path: Option<Vec<String>>,
) -> (res: usize)
    requires
        old(graph)@.wf(),
        old(graph)@.has(dep.node_idx),
        old(graph)@.nodes.len() + 1 < index_limit(),
        old(graph)@.edges.len() + 1 < index_limit(),
        target_path matches Some(p) ==> p@.len() > 0,
    ensures
        final(graph)@.wf(),
        exists|e: usize, node: Node, edge: Edge|
            {
                &&& child_placed(
                    old(graph)@,
                    final(graph)@,
                    dep.node_idx,
                    placement_target(
                        old(graph)@,
                        dep.node_idx,
                        dep.name@,
                        dep.spec@,
                        package.resolved@,
                        locked_parent(opt_strings_view(target_path)),
                    ),
                    dep.name@,
                    node,
                    edge,
                    res,
                    e,
                )
                &&& node.package == package
                &&& node.dependency_reqs == dependency_reqs
                &&& edge.requested@ == dep.spec@
                &&& edge.dep_type == dep.dep_type
            },
{
    let target = find_target(graph, dep, &package.resolved, &target_path);
    let node = Node::new(package, dependency_reqs, tarball_size, tarball_file_count);
    let edge = Edge::new(dep.spec.clone(), dep.dep_type);
    let ghost node_v = node;
    let ghost edge_v = edge;
    let (child, e) = graph.place_node(dep.node_idx, target, dep.name.clone(), node, edge);
    assert(child_placed(
        old(graph)@,
        graph@,
        dep.node_idx,
        target,
        dep.name@,
        node_v,
        edge_v,
        child,
        e,
    ));
    child
}


// ---------------------------------------------------------------------
// Laws of placement
// ---------------------------------------------------------------------

/// No node on the hierarchy path from `i` up to `top` (both included) has a
/// child named `name`, and `top` lies on that path.
pub open spec fn clear_upto(g: GraphView, i: usize, top: usize, name: Seq<char>) -> bool
    decreases g.rank[i],
{
    name_get(g.nodes[i].children@, name) is None && (i == top || (g.steps_up(i) && clear_upto(
        g,
        g.up(i),
        top,
        name,
    )))
}

proof fn lemma_clear_extend(g: GraphView, i: usize, top: usize, name: Seq<char>)
    requires
        clear_upto(g, i, top, name),
        g.steps_up(top),
        name_get(g.nodes[g.up(top)].children@, name) is None,
    ensures
        clear_upto(g, i, g.up(top), name),
    decreases g.rank[i],
{
    if i != top {
        lemma_clear_extend(g, g.up(i), top, name);
    } else {
        assert(clear_upto(g, g.up(top), g.up(top), name));
    }
}

proof fn lemma_clear_resolves(g: GraphView, i: usize, top: usize, name: Seq<char>)
    requires
        clear_upto(g, i, top, name),
    ensures
        resolved_dep(g, i, name) == resolved_dep(g, top, name),
    decreases g.rank[i],
{
    if i != top {
        lemma_clear_resolves(g, g.up(i), top, name);
    }
}

proof fn lemma_clear_ancestor(g: GraphView, i: usize, top: usize, name: Seq<char>)
    requires
        clear_upto(g, i, top, name),
    ensures
        ancestor_of(g, top, i),
    decreases g.rank[i],
{
    if i != top {
        lemma_clear_ancestor(g, g.up(i), top, name);
    }
}

proof fn lemma_climb_clear(
    g: GraphView,
    dep: usize,
    curr: usize,
    last: usize,
    name: Seq<char>,
    requested: SpecView,
    child: crate::resolution::ResolutionView,
    locked: Option<Seq<Seq<char>>>,
)
    requires
        g.wf(),
        anchored(g),
        g.has(curr),
        g.has(last),
        clear_upto(g, dep, last, name),
        curr == last || (last != g.root && g.up(last) == curr && g.steps_up(last)),
        resolved_dep(g, dep, name) == resolved_dep(g, curr, name),
        match resolved_dep(g, dep, name) {
            Some(s) => !spec_satisfies(g.nodes[s].package.resolved@, requested),
            None => true,
        },
    ensures
        clear_upto(g, dep, climb(g, curr, last, name, requested, child, locked), name),
    decreases g.rank[curr],
{
    if !blocked_at(g, curr, name, requested, child) {
        assert(g.node_ok(curr));
        match name_get(g.nodes[curr].children@, name) {
            Some(c) => {
                crate::names::lemma_name_pos(g.nodes[curr].children@, name);
                let k = crate::names::name_pos(g.nodes[curr].children@, name).unwrap();
                assert(g.nodes[curr].children@[k].1 == c);
                assert(g.has(c));
                assert(g.nodes[c].parent == Some(curr));
                assert(c != g.root);
                assert(resolved_dep(g, curr, name) == Some(c));
                assert(g.has(c) && c != g.root);
                let from = choose|from: usize|
                    #[trigger] has_edge(g.edges, from, c) && ancestor_of(g, g.up(c), from);
                assert(has_edge(g.edges, from, c) && ancestor_of(g, curr, from));
                assert(false);
            },
            None => {},
        }
        if curr != last {
            lemma_clear_extend(g, dep, last, name);
        }
        assert(clear_upto(g, dep, curr, name));
        if locked matches Some(l) && paths_match(l, node_path(g, curr)) {
        } else if g.steps_up(curr) {
            assert(curr != g.root);
            assert(g.has(g.up(curr)));
            lemma_climb_clear(g, dep, g.up(curr), curr, name, requested, child, locked);
        }
    }
}

/// The hierarchy (parents, children and ranks) of the nodes of `old` is the
/// same in `new`, apart from the children of `changed`.
pub open spec fn hierarchy_kept(old: GraphView, new: GraphView, changed: Option<usize>) -> bool {
    &&& new.root == old.root
    &&& forall|i: usize| #[trigger] old.has(i) ==> new.has(i) && new.rank.dom().contains(i)
    &&& forall|i: usize|
        #[trigger] old.has(i) ==> new.nodes[i].parent == old.nodes[i].parent && new.rank[i]
            == old.rank[i] && new.nodes[i].package == old.nodes[i].package
    &&& forall|i: usize|
        #[trigger] old.has(i) && Some(i) != changed ==> new.nodes[i].children == old.nodes[i].children
}

proof fn lemma_kept_ancestor(old: GraphView, new: GraphView, changed: Option<usize>, a: usize, d: usize)
    requires
        old.wf(),
        old.has(d),
        hierarchy_kept(old, new, changed),
    ensures
        ancestor_of(new, a, d) == ancestor_of(old, a, d),
    decreases old.rank[d],
{
    assert(old.node_ok(d));
    if d != a && old.steps_up(d) {
        assert(old.has(old.up(d)));
        assert(new.steps_up(d));
        lemma_kept_ancestor(old, new, changed, a, old.up(d));
    } else if d != a {
        assert(d == old.root);
        assert(!new.steps_up(d));
    }
}

proof fn lemma_kept_resolves(old: GraphView, new: GraphView, i: usize, name: Seq<char>)
    requires
        old.wf(),
        old.has(i),
        hierarchy_kept(old, new, None),
    ensures
        resolved_dep(new, i, name) == resolved_dep(old, i, name),
    decreases old.rank[i],
{
    assert(old.node_ok(i));
    if old.steps_up(i) {
        assert(old.has(old.up(i)));
        lemma_kept_resolves(old, new, old.up(i), name);
    } else {
        assert(i == old.root);
    }
}

proof fn lemma_placed_chain(
    old: GraphView,
    new: GraphView,
    dep: usize,
    i: usize,
    top: usize,
    name: Seq<char>,
    node: Node,
    edge: Edge,
    child: usize,
    e: usize,
)
    requires
        old.wf(),
        old.has(i),
        old.has(dep),
        clear_upto(old, i, top, name),
        child_placed(old, new, dep, top, name, node, edge, child, e),
    ensures
        resolved_dep(new, i, name) == Some(child),
    decreases old.rank[i],
{
    assert(old.node_ok(i));
    if i == top {
        crate::names::lemma_name_get_insert(old.nodes[top].children@, name, child);
    } else {
        assert(new.nodes[i].children@ == old.nodes[i].children@);
        assert(new.nodes[i].parent == old.nodes[i].parent);
        assert(i != child);
        assert(old.has(old.up(i)));
        assert(old.up(i) != child);
        assert(new.rank[old.up(i)] == old.rank[old.up(i)]);
        assert(new.steps_up(i));
        lemma_placed_chain(old, new, dep, old.up(i), top, name, node, edge, child, e);
    }
}

/// Hoisting makes the new package what its dependent sees: after a new node
/// for dependency `name` of `dependent` is placed where
/// [`placement_target`] says, `dependent` resolves `name` to that node. This
/// holds where no package that `dependent` already sees under `name`
/// satisfies the request (else the dependency is satisfied instead), and
/// `dependent` does not itself hold a child of that name (where it does,
/// that child is replaced).
pub proof fn lemma_placed_child_is_resolved(
    old: GraphView,
    new: GraphView,
    dependent: usize,
    name: Seq<char>,
    requested: SpecView,
    locked: Option<Seq<Seq<char>>>,
    node: Node,
    edge: Edge,
    child: usize,
    e: usize,
)
    requires
        old.wf(),
        anchored(old),
        old.has(dependent),
        match resolved_dep(old, dependent, name) {
            Some(s) => !spec_satisfies(old.nodes[s].package.resolved@, requested),
            None => true,
        },
        name_get(old.nodes[dependent].children@, name) is None,
        child_placed(
            old,
            new,
            dependent,
            placement_target(old, dependent, name, requested, node.package.resolved@, locked),
            name,
            node,
            edge,
            child,
            e,
        ),
    ensures
        resolved_dep(new, dependent, name) == Some(child),
{
    let target = placement_target(old, dependent, name, requested, node.package.resolved@, locked);
    lemma_climb_clear(
        old,
        dependent,
        dependent,
        dependent,
        name,
        requested,
        node.package.resolved@,
        locked,
    );
    lemma_placed_chain(old, new, dependent, dependent, target, name, node, edge, child, e);
}

/// Placing a new package keeps every package anchored: each node but the
/// root still has an edge into it from within its parent's subtree, the new
/// node included (its dependent lies below the node it is placed under).
pub proof fn lemma_place_keeps_anchored(
    old: GraphView,
    new: GraphView,
    dependent: usize,
    name: Seq<char>,
    requested: SpecView,
    locked: Option<Seq<Seq<char>>>,
    node: Node,
    edge: Edge,
    child: usize,
    e: usize,
)
    requires
        old.wf(),
        new.wf(),
        anchored(old),
        old.has(dependent),
        match resolved_dep(old, dependent, name) {
            Some(s) => !spec_satisfies(old.nodes[s].package.resolved@, requested),
            None => true,
        },
        name_get(old.nodes[dependent].children@, name) is None,
        child_placed(
            old,
            new,
            dependent,
            placement_target(old, dependent, name, requested, node.package.resolved@, locked),
            name,
            node,
            edge,
            child,
            e,
        ),
    ensures
        anchored(new),
{
    let target = placement_target(old, dependent, name, requested, node.package.resolved@, locked);
    lemma_climb_clear(
        old,
        dependent,
        dependent,
        dependent,
        name,
        requested,
        node.package.resolved@,
        locked,
    );
    lemma_clear_ancestor(old, dependent, target, name);
    assert(hierarchy_kept(old, new, Some(target))) by {
        assert forall|i: usize| #[trigger] old.has(i) implies new.has(i) && new.rank.dom().contains(i) by {
            assert(old.rank.dom().contains(i));
        }
        assert forall|i: usize| #[trigger] old.has(i) implies new.nodes[i].parent == old.nodes[i].parent
            && new.rank[i] == old.rank[i] && new.nodes[i].package == old.nodes[i].package by {
            assert(i != child);
        }
        assert forall|i: usize| #[trigger] old.has(i) && Some(i) != Some(target) implies new.nodes[i].children
            == old.nodes[i].children by {
            if i == dependent {
            }
        }
    }
    assert forall|c: usize| #[trigger] new.has(c) && c != new.root implies exists|from: usize|
        #[trigger] has_edge(new.edges, from, c) && ancestor_of(new, new.up(c), from) by {
        if c == child {
            assert(new.edges[e] == (dependent, child, edge));
            assert(new.edges.dom().contains(e));
            assert(has_edge(new.edges, dependent, child));
            lemma_kept_ancestor(old, new, Some(target), target, dependent);
            assert(new.up(child) == target);
        } else {
            assert(old.has(c));
            let from = choose|from: usize|
                #[trigger] has_edge(old.edges, from, c) && ancestor_of(old, old.up(c), from);
            let x = choose|x: usize|
                #[trigger] old.edges.dom().contains(x) && old.edges[x].0 == from && old.edges[x].1 == c;
            assert(old.has(from));
            assert(new.edges.dom().contains(x) && new.edges[x] == old.edges[x]);
            assert(has_edge(new.edges, from, c));
            lemma_kept_ancestor(old, new, Some(target), old.up(c), from);
        }
    }
}

/// Satisfying a dependency with a package already in reach leaves the
/// hierarchy as it was, so the dependent still resolves the name to that
/// package, and every package stays anchored.
pub proof fn lemma_satisfied_dependency_resolves(
    old: GraphView,
    new: GraphView,
    from: usize,
    to: usize,
    name: Seq<char>,
    e: usize,
    edge: Edge,
)
    requires
        old.wf(),
        old.has(from),
        anchored(old),
        resolved_dep(old, from, name) == Some(to),
        edge_added(old, new, from, to, name, e, edge),
    ensures
        resolved_dep(new, from, name) == Some(to),
        anchored(new),
{
    assert(hierarchy_kept(old, new, None)) by {
        assert forall|i: usize| #[trigger] old.has(i) implies new.has(i) && new.rank.dom().contains(i) by {
            assert(old.rank.dom().contains(i));
        }
        assert forall|i: usize| #[trigger] old.has(i) implies new.nodes[i].parent == old.nodes[i].parent
            && new.rank[i] == old.rank[i] && new.nodes[i].package == old.nodes[i].package by {
            if i != from {
                assert(new.nodes[i] == old.nodes[i]);
            }
        }
        assert forall|i: usize| #[trigger] old.has(i) && Some(i) != None::<usize> implies new.nodes[i].children
            == old.nodes[i].children by {
            if i != from {
                assert(new.nodes[i] == old.nodes[i]);
            }
        }
    }
    lemma_kept_resolves(old, new, from, name);
    assert forall|c: usize| #[trigger] new.has(c) && c != new.root implies exists|f: usize|
        #[trigger] has_edge(new.edges, f, c) && ancestor_of(new, new.up(c), f) by {
        assert(old.has(c));
        let f = choose|f: usize| #[trigger] has_edge(old.edges, f, c) && ancestor_of(old, old.up(c), f);
        let x = choose|x: usize|
            #[trigger] old.edges.dom().contains(x) && old.edges[x].0 == f && old.edges[x].1 == c;
        assert(old.has(f));
        assert(new.edges.dom().contains(x) && new.edges[x] == old.edges[x]);
        assert(has_edge(new.edges, f, c));
        lemma_kept_ancestor(old, new, None, old.up(c), f);
    }
}

} // verus!
