//! The resolution loop, one decision at a time. Each step takes what
//! happened (the start, or the packages fetched since the last step) and
//! decides everything that follows from it: which requests existing nodes
//! already satisfy, which packages a lockfile already names, where fetched
//! packages go, what to fetch next, and, when nothing is left, whether the
//! finished graph passes its checks. The caller only fetches.

use vstd::prelude::*;

use crate::graph::{
    child_placed, edge_added, index_limit, node_path, resolved_dep, strings_view, DepType, Edge, Graph, GraphView, Node,
    Package, PackageView,
};
use crate::lockfile::{
    all_deps_met, dep_met, increasing_indices, lockfile_node_of, lockfile_packages, requests_view, GraphValidationError,
    Lockfile, LockfileNode, LockfileNodeView,
};
use crate::metadata::{clone_opt_string, clone_opt_version};
use crate::names::{name_get, name_insert, name_pos, name_pos_upto, same_name, NameMap};
use crate::queue::{
    check_locked, dep_view, dependency_requests, deps_view, fetch_pos, fresh_requests, lockfile_key_at, lockfile_keys,
    same_lockfile, sort_queue, FetchQueue,
};
use crate::resolution::{spec_satisfies, PackageResolution, ResolutionView};
use crate::resolver::{locked_parent, place_child, placement_target, satisfy_dependency, NodeDependency};
use crate::spec::{opt_string_view, PackageSpec, SpecView};

verus! {

/// A package fetched for a specifier, with what its manifest requests and
/// the size of its tarball, where known.
pub struct FetchedPackage {
    pub spec: PackageSpec,
    pub package: Package,
    pub requests: NameMap<(PackageSpec, DepType)>,
    pub tarball_size: Option<u64>,
    pub file_count: Option<u64>,
}

/// What happened since the last step.
pub enum ResolveEvent {
    /// Resolution starts.
    Start,
    /// Packages fetched for specifiers that an earlier step asked for.
    Fetched(Vec<FetchedPackage>),
}

/// Why a finished graph is refused.
#[derive(Debug)]
pub enum ResolveError {
    /// The install is locked to a lockfile, and the graph records another
    /// install.
    LockfileMismatch,
    /// A dependency is not met by the hierarchy.
    Invalid(GraphValidationError),
}

/// What the caller does next.
pub enum ResolveAction {
    /// Fetch these specifiers, and hand every package fetched for a
    /// specifier asked for (now or before) and not yet handed back to the
    /// next step.
    Fetch(Vec<PackageSpec>),
    /// The graph is finished, with the outcome of its final checks.
    Done(Result<(), ResolveError>),
    /// The graph cannot take another node or edge.
    TooManyPackages,
}

/// The state of a resolution between steps.
pub struct ResolveState {
    /// Nodes whose requests are still to be looked at, in visiting order.
    pub queue: Vec<usize>,
    /// Fetches asked for and not yet handed back, each with the requests
    /// waiting for it.
    pub fetches: FetchQueue,
    /// The lockfile of the install, if one was given.
    pub lockfile: Option<Lockfile>,
    /// What was installed before, if known; packages are taken from it
    /// where no lockfile was given.
    pub actual: Option<Lockfile>,
    /// Whether the result must record the same install as `lockfile`.
    pub locked: bool,
}

impl ResolveState {
    /// Every queued node is in the graph `g`, and every request waiting for
    /// a fetch is a request of a node of `g`.
    pub open spec fn wf(&self, g: GraphView) -> bool {
        &&& forall|k: int| 0 <= k < self.queue@.len() ==> g.has(#[trigger] self.queue@[k])
        &&& fetches_ok(g, self.fetches@)
    }

    /// Every node of `g` is still to be visited, or has each of its
    /// requests met or waiting for a fetch under way; and every dependency
    /// that a node records is named as one of its requests.
    pub open spec fn settles(&self, g: GraphView) -> bool {
        &&& deps_named(g)
        &&& covered(g, self.queue@, 0, self.fetches@, Seq::empty())
    }

    /// A resolution that starts at the root of a graph that holds only the
    /// root, which records no dependency yet.
    pub fn new(graph: &Graph, lockfile: Option<Lockfile>, actual: Option<Lockfile>, locked: bool) -> (res: ResolveState)
        requires
            graph@.wf(),
            graph@.nodes.len() == 1,
            graph@.nodes[graph@.root].dependencies@.len() == 0,
        ensures
            res.wf(graph@),
            res.settles(graph@),
            res.queue@ == seq![graph@.root],
            res.fetches@.len() == 0,
            res.lockfile == lockfile,
            res.actual == actual,
            res.locked == locked,
    {
        let mut queue: Vec<usize> = Vec::new();
        queue.push(graph.root());
        let res = ResolveState { queue, fetches: FetchQueue::new(), lockfile, actual, locked };
        proof {
            let g = graph@;
            let d = g.nodes.dom();
            assert(d.remove(g.root).len() == 0);
            d.remove(g.root).lemma_len0_is_empty();
            assert forall|i: usize| #[trigger] g.has(i) implies i == g.root by {
                if i != g.root {
                    assert(d.remove(g.root).contains(i));
                }
            }
            assert forall|i: usize| #[trigger] g.has(i) implies pending(res.queue@, 0, i) || node_settled(
                g,
                res.fetches@,
                Seq::empty(),
                i,
            ) by {
                assert(res.queue@[0] == i);
            }
        }
        res
    }
}

/// Where the install is locked to a lockfile, the graph records the same
/// install as that lockfile.
pub open spec fn locked_ok(g: GraphView, locked: bool, lockfile: Option<Lockfile>) -> bool {
    match lockfile {
        Some(l) => locked ==> exists|s: Seq<usize>|
            increasing_indices(g, s) && same_lockfile(1, lockfile_node_of(g, g.root, true), lockfile_packages(g, s), &l),
        None => true,
    }
}

/// `new` keeps every node of `old`, and has at least as many.
pub open spec fn grown(old: GraphView, new: GraphView) -> bool {
    &&& forall|x: usize| #[trigger] old.has(x) ==> new.has(x)
    &&& old.nodes.len() <= new.nodes.len()
}

/// The graph has room for another node and another edge.
pub open spec fn has_room(g: GraphView) -> bool {
    g.nodes.len() + 1 < index_limit() && g.edges.len() + 1 < index_limit()
}

/// A dependency request by value: name, what it asks for, its kind, and
/// the dependent node.
pub type RequestView = (Seq<char>, SpecView, DepType, usize);

/// The requests of node `i`: each name its manifest lists, once, in order.
pub open spec fn requests_of(g: GraphView, i: usize) -> Seq<RequestView> {
    fresh_requests(g.nodes[i].dependency_reqs@, g.nodes[i].dependency_reqs@.len() as int, i)
}

/// Node `i` records a dependency named `name` by an edge of the graph that
/// records the request `spec`.
pub open spec fn request_met(g: GraphView, i: usize, name: Seq<char>, spec: SpecView) -> bool {
    exists|k: int|
        #![trigger g.nodes[i].dependencies@[k]]
        0 <= k < g.nodes[i].dependencies@.len() && g.nodes[i].dependencies@[k].0 == name
            && g.edges.dom().contains(g.nodes[i].dependencies@[k].1) && g.edges[g.nodes[i].dependencies@[k].1].2.requested@
            == spec
}

/// Request `r` waits for a fetch under way.
pub open spec fn waits(f: Seq<(SpecView, Seq<RequestView>)>, r: RequestView) -> bool {
    exists|a: int, b: int| 0 <= a < f.len() && 0 <= b < f[a].1.len() && #[trigger] f[a].1[b] == r
}

/// Request `r` of node `i` is met, waits for a fetch under way, or is
/// among the requests `rest` still in hand.
pub open spec fn request_settled(
    g: GraphView,
    f: Seq<(SpecView, Seq<RequestView>)>,
    rest: Seq<RequestView>,
    i: usize,
    r: RequestView,
) -> bool {
    request_met(g, i, r.0, r.1) || waits(f, r) || rest.contains(r)
}

/// Every request of node `i` is settled (see [`request_settled`]).
pub open spec fn node_settled(g: GraphView, f: Seq<(SpecView, Seq<RequestView>)>, rest: Seq<RequestView>, i: usize) -> bool {
    forall|k: int| 0 <= k < requests_of(g, i).len() ==> request_settled(g, f, rest, i, #[trigger] requests_of(g, i)[k])
}

/// Node `i` is in the queue `q` at position `qi` or later.
pub open spec fn pending(q: Seq<usize>, qi: int, i: usize) -> bool {
    exists|j: int| qi <= j < q.len() && #[trigger] q[j] == i
}

/// Every node of the graph is still to be visited (in `q` from `qi` on),
/// or has each of its requests settled.
pub open spec fn covered(
    g: GraphView,
    q: Seq<usize>,
    qi: int,
    f: Seq<(SpecView, Seq<RequestView>)>,
    rest: Seq<RequestView>,
) -> bool {
    forall|i: usize| #[trigger] g.has(i) ==> pending(q, qi, i) || node_settled(g, f, rest, i)
}

/// Every request waiting for a fetch is a request of a node of the graph.
pub open spec fn fetches_ok(g: GraphView, f: Seq<(SpecView, Seq<RequestView>)>) -> bool {
    forall|a: int, b: int|
        0 <= a < f.len() && 0 <= b < f[a].1.len() ==> g.has(#[trigger] f[a].1[b].3) && requests_of(g, f[a].1[b].3).contains(
            f[a].1[b],
        )
}

/// Every dependency that a node records is named as one of its requests.
pub open spec fn deps_named(g: GraphView) -> bool {
    forall|i: usize, k: int|
        g.has(i) && 0 <= k < g.nodes[i].dependencies@.len() ==> is_request_name(
            g,
            i,
            (#[trigger] g.nodes[i].dependencies@[k]).0,
        )
}

/// `name` is the name of one of the requests of node `i`.
pub open spec fn is_request_name(g: GraphView, i: usize, name: Seq<char>) -> bool {
    exists|j: int| 0 <= j < requests_of(g, i).len() && #[trigger] requests_of(g, i)[j].0 == name
}

/// Every request of every node is met.
pub open spec fn all_requests_met(g: GraphView) -> bool {
    forall|i: usize, k: int|
        g.has(i) && 0 <= k < requests_of(g, i).len() ==> request_met(
            g,
            i,
            (#[trigger] requests_of(g, i)[k]).0,
            requests_of(g, i)[k].1,
        )
}

/// Request `spec` named `name` of node `i` is resolved: the node records
/// the dependency by an edge that records the request, and the node that
/// the name resolves to in the hierarchy satisfies the request.
pub open spec fn request_resolved(g: GraphView, i: usize, name: Seq<char>, spec: SpecView) -> bool {
    &&& request_met(g, i, name, spec)
    &&& match resolved_dep(g, i, name) {
        Some(t) => spec_satisfies(g.nodes[t].package.resolved@, spec),
        None => false,
    }
}

/// Every request of every node is resolved.
pub open spec fn resolution_complete(g: GraphView) -> bool {
    forall|i: usize, k: int|
        g.has(i) && 0 <= k < requests_of(g, i).len() ==> request_resolved(
            g,
            i,
            (#[trigger] requests_of(g, i)[k]).0,
            requests_of(g, i)[k].1,
        )
}

/// `new` keeps the nodes of `old` with their requests, and every request
/// that `old` met, but maybe one of node `i0` named like `name0`.
pub open spec fn keeps_requests(old: GraphView, new: GraphView, i0: usize, name0: Seq<char>) -> bool {
    &&& forall|i: usize| #[trigger] old.has(i) ==> new.has(i) && new.nodes[i].dependency_reqs == old.nodes[i].dependency_reqs
    &&& forall|i: usize, n: Seq<char>, s: SpecView|
        #![trigger request_met(new, i, n, s)]
        old.has(i) && request_met(old, i, n, s) && !(i == i0 && same_name(n, name0)) ==> request_met(new, i, n, s)
}

/// The requests of a node name it once each: no two of them are the same
/// name, and each is named in the manifest.
proof fn lemma_fresh_names(m: Seq<(Seq<char>, (PackageSpec, DepType))>, n: int, i: usize)
    requires
        0 <= n <= m.len(),
    ensures
        forall|a: int| 0 <= a < fresh_requests(m, n, i).len() ==> (#[trigger] fresh_requests(m, n, i)[a]).3 == i,
        forall|a: int|
            0 <= a < fresh_requests(m, n, i).len() ==> exists|j: int|
                0 <= j < n && #[trigger] m[j].0 == (#[trigger] fresh_requests(m, n, i)[a]).0,
        forall|a: int, b: int|
            0 <= a < fresh_requests(m, n, i).len() && 0 <= b < fresh_requests(m, n, i).len() && same_name(
                (#[trigger] fresh_requests(m, n, i)[a]).0,
                (#[trigger] fresh_requests(m, n, i)[b]).0,
            ) ==> a == b,
    decreases n,
{
    if n > 0 {
        lemma_fresh_names(m, n - 1, i);
        let rest = fresh_requests(m, n - 1, i);
        let all = fresh_requests(m, n, i);
        let e = m[n - 1];
        crate::names::lemma_name_pos_upto(m, e.0, n - 1);
        assert forall|a: int| 0 <= a < rest.len() implies all[a] == rest[a] by {}
        if name_pos_upto(m, e.0, n - 1) is None {
            let l = rest.len() as int;
            assert(all[l] == (e.0, e.1.0@, e.1.1, i));
            assert forall|a: int| 0 <= a < all.len() implies exists|j: int|
                0 <= j < n && #[trigger] m[j].0 == (#[trigger] all[a]).0 by {
                if a == l {
                    assert(m[n - 1].0 == all[a].0);
                } else {
                    assert(all[a] == rest[a]);
                }
            }
            assert forall|a: int, b: int|
                0 <= a < all.len() && 0 <= b < all.len() && same_name(
                    (#[trigger] all[a]).0,
                    (#[trigger] all[b]).0,
                ) implies a == b by {
                if a < l && b == l {
                    assert(all[a] == rest[a]);
                    let j = choose|j: int| 0 <= j < n - 1 && #[trigger] m[j].0 == rest[a].0;
                    assert(!same_name(m[j].0, e.0));
                } else if a == l && b < l {
                    assert(all[b] == rest[b]);
                    let j = choose|j: int| 0 <= j < n - 1 && #[trigger] m[j].0 == rest[b].0;
                    assert(!same_name(m[j].0, e.0));
                } else if a < l && b < l {
                    assert(all[a] == rest[a]);
                    assert(all[b] == rest[b]);
                }
            }
        } else {
            assert(all == rest);
        }
    }
}

/// Two requests of a node that are the same name are the same request.
proof fn lemma_requests_unique(g: GraphView, i: usize, a: int, b: int)
    requires
        0 <= a < requests_of(g, i).len(),
        0 <= b < requests_of(g, i).len(),
        same_name(requests_of(g, i)[a].0, requests_of(g, i)[b].0),
    ensures
        a == b,
{
    let m = g.nodes[i].dependency_reqs@;
    lemma_fresh_names(m, m.len() as int, i);
}

/// Every request of node `i` is a request of node `i`.
proof fn lemma_requests_of_node(g: GraphView, i: usize)
    ensures
        forall|a: int| 0 <= a < requests_of(g, i).len() ==> (#[trigger] requests_of(g, i)[a]).3 == i,
{
    let m = g.nodes[i].dependency_reqs@;
    lemma_fresh_names(m, m.len() as int, i);
}

/// A settled node stays settled when the graph changes as
/// [`keeps_requests`] says, no request stops waiting, and the request `r0`
/// of node `i0`, taken out of hand, is settled in the new state.
proof fn lemma_settled_step(
    old: GraphView,
    new: GraphView,
    f: Seq<(SpecView, Seq<RequestView>)>,
    f2: Seq<(SpecView, Seq<RequestView>)>,
    rest: Seq<RequestView>,
    rest2: Seq<RequestView>,
    i0: usize,
    r0: RequestView,
    i: usize,
)
    requires
        keeps_requests(old, new, i0, r0.0),
        requests_of(old, i0).contains(r0),
        request_settled(new, f2, rest2, i0, r0),
        forall|r: RequestView| waits(f, r) ==> waits(f2, r),
        forall|r: RequestView| rest.contains(r) ==> r == r0 || rest2.contains(r),
        old.has(i),
        node_settled(old, f, rest, i),
    ensures
        node_settled(new, f2, rest2, i),
{
    assert(new.nodes[i].dependency_reqs == old.nodes[i].dependency_reqs);
    assert(requests_of(new, i) == requests_of(old, i));
    lemma_requests_of_node(old, i);
    lemma_requests_of_node(old, i0);
    let j0 = choose|j: int| 0 <= j < requests_of(old, i0).len() && requests_of(old, i0)[j] == r0;
    assert(r0.3 == i0);
    assert forall|k: int| 0 <= k < requests_of(new, i).len() implies request_settled(
        new,
        f2,
        rest2,
        i,
        #[trigger] requests_of(new, i)[k],
    ) by {
        let r = requests_of(old, i)[k];
        assert(request_settled(old, f, rest, i, r));
        assert(r.3 == i);
        if i == i0 && same_name(r.0, r0.0) {
            lemma_requests_unique(old, i, k, j0);
        } else if request_met(old, i, r.0, r.1) {
            assert(request_met(new, i, r.0, r.1));
        } else if waits(f, r) {
            assert(waits(f2, r));
        } else {
            assert(rest.contains(r));
        }
    }
}

/// [`covered`] carries over a step of the kind [`lemma_settled_step`]
/// takes, where the queue keeps its pending nodes and holds every new one.
proof fn lemma_covered_step(
    old: GraphView,
    new: GraphView,
    q: Seq<usize>,
    q2: Seq<usize>,
    qi: int,
    f: Seq<(SpecView, Seq<RequestView>)>,
    f2: Seq<(SpecView, Seq<RequestView>)>,
    rest: Seq<RequestView>,
    rest2: Seq<RequestView>,
    i0: usize,
    r0: RequestView,
)
    requires
        covered(old, q, qi, f, rest),
        keeps_requests(old, new, i0, r0.0),
        requests_of(old, i0).contains(r0),
        request_settled(new, f2, rest2, i0, r0),
        forall|r: RequestView| waits(f, r) ==> waits(f2, r),
        forall|r: RequestView| rest.contains(r) ==> r == r0 || rest2.contains(r),
        forall|i: usize| pending(q, qi, i) ==> pending(q2, qi, i),
        forall|i: usize| #[trigger] new.has(i) && !old.has(i) ==> pending(q2, qi, i),
    ensures
        covered(new, q2, qi, f2, rest2),
{
    assert forall|i: usize| #[trigger] new.has(i) implies pending(q2, qi, i) || node_settled(new, f2, rest2, i) by {
        if old.has(i) {
            if pending(q, qi, i) {
            } else {
                lemma_settled_step(old, new, f, f2, rest, rest2, i0, r0, i);
            }
        }
    }
}

/// After `name_insert` of `r0` into the dependencies `od` of `from` (a
/// node whose recorded dependencies are all named as its requests), the
/// entry under `r0`'s name is the inserted one, and every other entry keeps
/// its place.
proof fn lemma_insert_dep(old: GraphView, from: usize, od: Seq<(Seq<char>, usize)>, nd: Seq<(Seq<char>, usize)>, e: usize, r0: RequestView)
    requires
        old.has(from),
        deps_named(old),
        od == old.nodes[from].dependencies@,
        nd == name_insert(od, r0.0, e),
        requests_of(old, from).contains(r0),
    ensures
        exists|x: int| 0 <= x < nd.len() && #[trigger] nd[x] == (r0.0, e),
        forall|x: int| 0 <= x < od.len() && !same_name(od[x].0, r0.0) ==> #[trigger] nd[x] == od[x],
        forall|x: int| 0 <= x < nd.len() ==> (x < od.len() && (#[trigger] nd[x]).0 == od[x].0) || nd[x].0 == r0.0,
        nd.len() >= od.len(),
{
    crate::names::lemma_name_pos(od, r0.0);
    let j0 = choose|j: int| 0 <= j < requests_of(old, from).len() && requests_of(old, from)[j] == r0;
    match name_pos(od, r0.0) {
        Some(p) => {
            assert(nd == od.update(p, (od[p].0, e)));
            assert(old.nodes[from].dependencies@[p] == od[p]);
            let j = choose|j: int| 0 <= j < requests_of(old, from).len() && #[trigger] requests_of(old, from)[j].0 == od[p].0;
            lemma_requests_unique(old, from, j, j0);
            assert(nd[p] == (r0.0, e));
        },
        None => {
            assert(nd == od.push((r0.0, e)));
            assert(nd[od.len() as int] == (r0.0, e));
        },
    }
}

/// Adding an edge for request `r0` of `from` keeps every other request
/// met, meets `r0`, and keeps every recorded dependency named.
proof fn lemma_edge_added_keeps(
    old: GraphView,
    new: GraphView,
    from: usize,
    to: usize,
    e: usize,
    edge: Edge,
    r0: RequestView,
)
    requires
        old.has(from),
        deps_named(old),
        requests_of(old, from).contains(r0),
        edge_added(old, new, from, to, r0.0, e, edge),
        edge.requested@ == r0.1,
    ensures
        keeps_requests(old, new, from, r0.0),
        deps_named(new),
        request_met(new, from, r0.0, r0.1),
        new.nodes.dom() == old.nodes.dom(),
{
    let od = old.nodes[from].dependencies@;
    let nd = new.nodes[from].dependencies@;
    lemma_insert_dep(old, from, od, nd, e, r0);
    lemma_requests_of_node(old, from);
    assert(requests_of(new, from) == requests_of(old, from));
    let x0 = choose|x: int| 0 <= x < nd.len() && #[trigger] nd[x] == (r0.0, e);
    assert(new.nodes[from].dependencies@[x0] == (r0.0, e));
    assert(new.edges[e] == (from, to, edge));
    assert(request_met(new, from, r0.0, r0.1));
    assert forall|i: usize| #[trigger] old.has(i) implies new.has(i) && new.nodes[i].dependency_reqs
        == old.nodes[i].dependency_reqs by {
        if i != from {
            assert(new.nodes[i] == old.nodes[i]);
        }
    }
    assert forall|i: usize, n: Seq<char>, sp: SpecView|
        #![trigger request_met(new, i, n, sp)]
        old.has(i) && request_met(old, i, n, sp) && !(i == from && same_name(n, r0.0)) implies request_met(
        new,
        i,
        n,
        sp,
    ) by {
        let x = choose|x: int|
            #![trigger old.nodes[i].dependencies@[x]]
            0 <= x < old.nodes[i].dependencies@.len() && old.nodes[i].dependencies@[x].0 == n
                && old.edges.dom().contains(old.nodes[i].dependencies@[x].1)
                && old.edges[old.nodes[i].dependencies@[x].1].2.requested@ == sp;
        let ex = old.nodes[i].dependencies@[x].1;
        assert(new.edges[ex] == old.edges[ex]);
        if i == from {
            assert(nd[x] == od[x]);
        } else {
            assert(new.nodes[i] == old.nodes[i]);
        }
        assert(new.nodes[i].dependencies@[x] == old.nodes[i].dependencies@[x]);
    }
    assert forall|i: usize, k: int| new.has(i) && 0 <= k < new.nodes[i].dependencies@.len() implies is_request_name(
        new,
        i,
        (#[trigger] new.nodes[i].dependencies@[k]).0,
    ) by {
        if i == from {
            if k < od.len() && nd[k].0 == od[k].0 {
                assert(old.nodes[i].dependencies@[k] == od[k]);
                let j = choose|j: int| 0 <= j < requests_of(old, i).len() && #[trigger] requests_of(old, i)[j].0 == od[k].0;
                assert(requests_of(new, i)[j].0 == new.nodes[i].dependencies@[k].0);
            } else {
                let j0 = choose|j: int| 0 <= j < requests_of(old, from).len() && requests_of(old, from)[j] == r0;
                assert(requests_of(new, i)[j0].0 == new.nodes[i].dependencies@[k].0);
            }
        } else {
            assert(old.has(i));
            assert(new.nodes[i] == old.nodes[i]);
            assert(requests_of(new, i) == requests_of(old, i));
            assert(old.nodes[i].dependencies@[k] == new.nodes[i].dependencies@[k]);
            let j = choose|j: int|
                0 <= j < requests_of(old, i).len() && #[trigger] requests_of(old, i)[j].0 == old.nodes[i].dependencies@[k].0;
            assert(requests_of(new, i)[j].0 == new.nodes[i].dependencies@[k].0);
        }
    }
}

/// Placing a new node for request `r0` of `dependent` keeps every other
/// request met, meets `r0`, and keeps every recorded dependency named.
proof fn lemma_child_placed_keeps(
    old: GraphView,
    new: GraphView,
    dependent: usize,
    target: usize,
    node: Node,
    edge: Edge,
    child: usize,
    e: usize,
    r0: RequestView,
)
    requires
        old.has(dependent),
        deps_named(old),
        requests_of(old, dependent).contains(r0),
        child_placed(old, new, dependent, target, r0.0, node, edge, child, e),
        edge.requested@ == r0.1,
    ensures
        keeps_requests(old, new, dependent, r0.0),
        deps_named(new),
        request_met(new, dependent, r0.0, r0.1),
        new.nodes.dom() == old.nodes.dom().insert(child),
        !old.has(child),
{
    let od = old.nodes[dependent].dependencies@;
    let nd = new.nodes[dependent].dependencies@;
    lemma_insert_dep(old, dependent, od, nd, e, r0);
    lemma_requests_of_node(old, dependent);
    assert(requests_of(new, dependent) == requests_of(old, dependent));
    let x0 = choose|x: int| 0 <= x < nd.len() && #[trigger] nd[x] == (r0.0, e);
    assert(new.nodes[dependent].dependencies@[x0] == (r0.0, e));
    assert(new.edges[e] == (dependent, child, edge));
    assert(request_met(new, dependent, r0.0, r0.1));
    assert forall|i: usize| #[trigger] old.has(i) implies new.has(i) && new.nodes[i].dependency_reqs
        == old.nodes[i].dependency_reqs by {
        if i != dependent && i != target {
            assert(new.nodes[i] == old.nodes[i]);
        }
    }
    assert forall|i: usize, n: Seq<char>, sp: SpecView|
        #![trigger request_met(new, i, n, sp)]
        old.has(i) && request_met(old, i, n, sp) && !(i == dependent && same_name(n, r0.0)) implies request_met(
        new,
        i,
        n,
        sp,
    ) by {
        let x = choose|x: int|
            #![trigger old.nodes[i].dependencies@[x]]
            0 <= x < old.nodes[i].dependencies@.len() && old.nodes[i].dependencies@[x].0 == n
                && old.edges.dom().contains(old.nodes[i].dependencies@[x].1)
                && old.edges[old.nodes[i].dependencies@[x].1].2.requested@ == sp;
        let ex = old.nodes[i].dependencies@[x].1;
        assert(new.edges[ex] == old.edges[ex]);
        if i == dependent {
            assert(nd[x] == od[x]);
        } else if i == target {
            assert(new.nodes[i].dependencies == old.nodes[i].dependencies);
        } else {
            assert(new.nodes[i] == old.nodes[i]);
        }
        assert(new.nodes[i].dependencies@[x] == old.nodes[i].dependencies@[x]);
    }
    assert forall|i: usize, k: int| new.has(i) && 0 <= k < new.nodes[i].dependencies@.len() implies is_request_name(
        new,
        i,
        (#[trigger] new.nodes[i].dependencies@[k]).0,
    ) by {
        if i == dependent {
            if k < od.len() && nd[k].0 == od[k].0 {
                assert(old.nodes[i].dependencies@[k] == od[k]);
                let j = choose|j: int| 0 <= j < requests_of(old, i).len() && #[trigger] requests_of(old, i)[j].0 == od[k].0;
                assert(requests_of(new, i)[j].0 == new.nodes[i].dependencies@[k].0);
            } else {
                let j0 = choose|j: int| 0 <= j < requests_of(old, dependent).len() && requests_of(old, dependent)[j] == r0;
                assert(requests_of(new, i)[j0].0 == new.nodes[i].dependencies@[k].0);
            }
        } else if i == child {
            assert(false);
        } else {
            assert(old.has(i));
            if i == target {
                assert(new.nodes[i].dependencies == old.nodes[i].dependencies);
            } else {
                assert(new.nodes[i] == old.nodes[i]);
            }
            assert(requests_of(new, i) == requests_of(old, i));
            assert(old.nodes[i].dependencies@[k] == new.nodes[i].dependencies@[k]);
            let j = choose|j: int|
                0 <= j < requests_of(old, i).len() && #[trigger] requests_of(old, i)[j].0 == old.nodes[i].dependencies@[k].0;
            assert(requests_of(new, i)[j].0 == new.nodes[i].dependencies@[k].0);
        }
    }
}

/// A queue keeps every pending node when a node joins its end, and holds
/// the one that joined.
proof fn lemma_pending_push(q: Seq<usize>, qi: int, c: usize)
    requires
        0 <= qi <= q.len(),
    ensures
        forall|i: usize| pending(q, qi, i) ==> pending(q.push(c), qi, i),
        pending(q.push(c), qi, c),
{
    assert forall|i: usize| pending(q, qi, i) implies pending(q.push(c), qi, i) by {
        let j = choose|j: int| qi <= j < q.len() && #[trigger] q[j] == i;
        assert(q.push(c)[j] == i);
    }
    assert(q.push(c)[q.len() as int] == c);
}

/// What is in hand from `k` on is the request at `k` or what is in hand
/// from `k + 1` on.
proof fn lemma_rest_step(l: Seq<RequestView>, k: int)
    requires
        0 <= k < l.len(),
    ensures
        forall|r: RequestView|
            l.subrange(k, l.len() as int).contains(r) ==> r == l[k] || l.subrange(k + 1, l.len() as int).contains(r),
{
    assert forall|r: RequestView| l.subrange(k, l.len() as int).contains(r) implies r == l[k] || l.subrange(
        k + 1,
        l.len() as int,
    ).contains(r) by {
        let j = choose|j: int| 0 <= j < l.subrange(k, l.len() as int).len() && l.subrange(k, l.len() as int)[j] == r;
        if j > 0 {
            assert(l.subrange(k + 1, l.len() as int)[j - 1] == r);
        }
    }
}

/// Recording `dv` as waiting (as `FetchQueue::enqueue` does) makes it wait
/// and keeps every other request waiting.
proof fn lemma_enqueue(g: GraphView, f: Seq<(SpecView, Seq<RequestView>)>, f2: Seq<(SpecView, Seq<RequestView>)>, dv: RequestView)
    requires
        match fetch_pos(f, dv.1) {
            Some(p) => f2 == f.update(p, (f[p].0, f[p].1.push(dv))),
            None => f2 == f.push((dv.1, seq![dv])),
        },
    ensures
        waits(f2, dv),
        forall|r: RequestView| waits(f, r) ==> waits(f2, r),
        fetches_ok(g, f) && g.has(dv.3) && requests_of(g, dv.3).contains(dv) ==> fetches_ok(g, f2),
        f2.len() >= f.len(),
        f2.len() > 0,
{
    crate::queue::lemma_fetch_pos_bound(f, dv.1);
    match fetch_pos(f, dv.1) {
        Some(p) => {
            assert(f2[p].1[f[p].1.len() as int] == dv);
            assert forall|r: RequestView| waits(f, r) implies waits(f2, r) by {
                let (a, b) = choose|a: int, b: int| 0 <= a < f.len() && 0 <= b < f[a].1.len() && #[trigger] f[a].1[b] == r;
                assert(f2[a].1[b] == r);
            }
            if fetches_ok(g, f) && g.has(dv.3) && requests_of(g, dv.3).contains(dv) {
                assert forall|a: int, b: int| 0 <= a < f2.len() && 0 <= b < f2[a].1.len() implies g.has(
                    #[trigger] f2[a].1[b].3,
                ) && requests_of(g, f2[a].1[b].3).contains(f2[a].1[b]) by {
                    if a != p || b < f[p].1.len() {
                        assert(f2[a].1[b] == f[a].1[b]);
                    } else {
                        assert(f2[a].1[b] == dv);
                    }
                }
            }
        },
        None => {
            assert(f2[f.len() as int].1[0] == dv);
            assert forall|r: RequestView| waits(f, r) implies waits(f2, r) by {
                let (a, b) = choose|a: int, b: int| 0 <= a < f.len() && 0 <= b < f[a].1.len() && #[trigger] f[a].1[b] == r;
                assert(f2[a] == f[a]);
                assert(f2[a].1[b] == r);
            }
            if fetches_ok(g, f) && g.has(dv.3) && requests_of(g, dv.3).contains(dv) {
                assert forall|a: int, b: int| 0 <= a < f2.len() && 0 <= b < f2[a].1.len() implies g.has(
                    #[trigger] f2[a].1[b].3,
                ) && requests_of(g, f2[a].1[b].3).contains(f2[a].1[b]) by {
                    if a < f.len() {
                        assert(f2[a] == f[a]);
                    } else {
                        assert(f2[a].1[b] == dv);
                    }
                }
            }
        },
    }
}

/// [`covered`] holds with fewer fetches under way or other requests in
/// hand, as long as each request that waited, or was in hand, still
/// waits or is in hand.
proof fn lemma_covered_weaken(
    g: GraphView,
    q: Seq<usize>,
    qi: int,
    f: Seq<(SpecView, Seq<RequestView>)>,
    f2: Seq<(SpecView, Seq<RequestView>)>,
    rest: Seq<RequestView>,
    rest2: Seq<RequestView>,
)
    requires
        covered(g, q, qi, f, rest),
        forall|r: RequestView| waits(f, r) ==> waits(f2, r) || rest2.contains(r),
        forall|r: RequestView| rest.contains(r) ==> waits(f2, r) || rest2.contains(r),
    ensures
        covered(g, q, qi, f2, rest2),
{
    assert forall|i: usize| #[trigger] g.has(i) implies pending(q, qi, i) || node_settled(g, f2, rest2, i) by {
        if !pending(q, qi, i) {
            assert forall|k: int| 0 <= k < requests_of(g, i).len() implies request_settled(
                g,
                f2,
                rest2,
                i,
                #[trigger] requests_of(g, i)[k],
            ) by {
                assert(request_settled(g, f, rest, i, requests_of(g, i)[k]));
            }
        }
    }
}

/// Taking the requests waiting for fetch `p` out of the queue puts them in
/// hand.
proof fn lemma_take(
    g: GraphView,
    q: Seq<usize>,
    f: Seq<(SpecView, Seq<RequestView>)>,
    f2: Seq<(SpecView, Seq<RequestView>)>,
    p: int,
)
    requires
        0 <= p < f.len(),
        f2 == f.remove(p),
        covered(g, q, 0, f, Seq::empty()),
        fetches_ok(g, f),
    ensures
        covered(g, q, 0, f2, f[p].1),
        fetches_ok(g, f2),
        forall|j: int|
            0 <= j < f[p].1.len() ==> g.has((#[trigger] f[p].1[j]).3) && requests_of(g, f[p].1[j].3).contains(f[p].1[j]),
{
    let l = f[p].1;
    assert forall|r: RequestView| waits(f, r) implies waits(f2, r) || l.contains(r) by {
        let (a, b) = choose|a: int, b: int| 0 <= a < f.len() && 0 <= b < f[a].1.len() && #[trigger] f[a].1[b] == r;
        if a == p {
            assert(l[b] == r);
        } else if a < p {
            assert(f2[a] == f[a]);
            assert(f2[a].1[b] == r);
        } else {
            assert(f2[a - 1] == f[a]);
            assert(f2[a - 1].1[b] == r);
        }
    }
    lemma_covered_weaken(g, q, 0, f, f2, Seq::empty(), l);
    assert forall|a: int, b: int| 0 <= a < f2.len() && 0 <= b < f2[a].1.len() implies g.has(
        #[trigger] f2[a].1[b].3,
    ) && requests_of(g, f2[a].1[b].3).contains(f2[a].1[b]) by {
        if a < p {
            assert(f2[a] == f[a]);
            assert(f2[a].1[b] == f[a].1[b]);
        } else {
            assert(f2[a] == f[a + 1]);
            assert(f2[a].1[b] == f[a + 1].1[b]);
        }
    }
    assert forall|j: int| 0 <= j < l.len() implies g.has((#[trigger] l[j]).3) && requests_of(g, l[j].3).contains(l[j]) by {
        assert(f[p].1[j] == l[j]);
    }
}

/// The waiting requests stay requests of nodes of the graph when the graph
/// keeps its nodes and their requests.
proof fn lemma_fetches_kept(old: GraphView, new: GraphView, f: Seq<(SpecView, Seq<RequestView>)>, i0: usize, name0: Seq<char>)
    requires
        fetches_ok(old, f),
        keeps_requests(old, new, i0, name0),
    ensures
        fetches_ok(new, f),
{
    assert forall|a: int, b: int| 0 <= a < f.len() && 0 <= b < f[a].1.len() implies new.has(#[trigger] f[a].1[b].3)
        && requests_of(new, f[a].1[b].3).contains(f[a].1[b]) by {
        let i = f[a].1[b].3;
        assert(old.has(i));
        assert(new.nodes[i].dependency_reqs == old.nodes[i].dependency_reqs);
        assert(requests_of(new, i) == requests_of(old, i));
    }
}

/// Once the node at `qi` has its requests settled, the nodes still to be
/// visited are those from `qi + 1` on.
proof fn lemma_covered_advance(g: GraphView, q: Seq<usize>, qi: int, f: Seq<(SpecView, Seq<RequestView>)>, node: usize)
    requires
        0 <= qi < q.len(),
        q[qi] == node,
        covered(g, q, qi, f, Seq::empty()),
        node_settled(g, f, Seq::empty(), node),
    ensures
        covered(g, q, qi + 1, f, Seq::empty()),
{
    assert forall|i: usize| #[trigger] g.has(i) implies pending(q, qi + 1, i) || node_settled(g, f, Seq::empty(), i) by {
        if i != node && pending(q, qi, i) {
            let j = choose|j: int| qi <= j < q.len() && #[trigger] q[j] == i;
            assert(j != qi);
            assert(q[j] == i);
        }
    }
}

/// Once every queued node was visited, every node has its requests
/// settled.
proof fn lemma_covered_end(g: GraphView, q: Seq<usize>, f: Seq<(SpecView, Seq<RequestView>)>)
    requires
        covered(g, q, q.len() as int, f, Seq::empty()),
    ensures
        covered(g, Seq::empty(), 0, f, Seq::empty()),
{
}

/// Reordering the queue keeps every node pending.
proof fn lemma_covered_reordered(g: GraphView, q: Seq<usize>, q2: Seq<usize>, f: Seq<(SpecView, Seq<RequestView>)>)
    requires
        covered(g, q, 0, f, Seq::empty()),
        q2.to_multiset() == q.to_multiset(),
    ensures
        covered(g, q2, 0, f, Seq::empty()),
{
    broadcast use vstd::seq_lib::group_to_multiset_ensures;

    assert forall|i: usize| #[trigger] g.has(i) implies pending(q2, 0, i) || node_settled(g, f, Seq::empty(), i) by {
        if pending(q, 0, i) {
            let j = choose|j: int| 0 <= j < q.len() && #[trigger] q[j] == i;
            assert(q.contains(i));
            assert(q2.to_multiset().count(i) > 0);
            assert(q2.contains(i));
            let j2 = choose|j2: int| 0 <= j2 < q2.len() && q2[j2] == i;
            assert(q2[j2] == i);
        }
    }
}

/// With nothing left to visit and no fetch under way, every request of
/// every node is met.
proof fn lemma_all_met(g: GraphView, f: Seq<(SpecView, Seq<RequestView>)>)
    requires
        covered(g, Seq::empty(), 0, f, Seq::empty()),
        f.len() == 0,
    ensures
        all_requests_met(g),
{
    assert forall|i: usize, k: int| g.has(i) && 0 <= k < requests_of(g, i).len() implies request_met(
        g,
        i,
        (#[trigger] requests_of(g, i)[k]).0,
        requests_of(g, i)[k].1,
    ) by {
        assert(!pending(Seq::<usize>::empty(), 0, i));
        assert(request_settled(g, f, Seq::empty(), i, requests_of(g, i)[k]));
        assert(!waits(f, requests_of(g, i)[k]));
    }
}

/// The specifiers asked for, by value.
pub open spec fn asked_view(v: Seq<PackageSpec>) -> Seq<SpecView> {
    v.map_values(|s: PackageSpec| s@)
}

/// Every fetch under way in `f` was under way in `f0`, or is among the
/// specifiers `asked` for.
pub open spec fn fetches_asked(
    f: Seq<(SpecView, Seq<RequestView>)>,
    f0: Seq<(SpecView, Seq<RequestView>)>,
    asked: Seq<SpecView>,
) -> bool {
    forall|a: int|
        #![trigger f[a]]
        0 <= a < f.len() ==> (exists|b: int| 0 <= b < f0.len() && #[trigger] f0[b].0 == f[a].0) || asked.contains(
            f[a].0,
        )
}

/// Recording `dv` as waiting keeps every fetch asked for, where a fetch
/// that was not under way is asked for.
proof fn lemma_enqueue_asked(
    f: Seq<(SpecView, Seq<RequestView>)>,
    f2: Seq<(SpecView, Seq<RequestView>)>,
    f0: Seq<(SpecView, Seq<RequestView>)>,
    asked: Seq<SpecView>,
    asked2: Seq<SpecView>,
    dv: RequestView,
)
    requires
        match fetch_pos(f, dv.1) {
            Some(p) => f2 == f.update(p, (f[p].0, f[p].1.push(dv))) && asked2 == asked,
            None => f2 == f.push((dv.1, seq![dv])) && asked2 == asked.push(dv.1),
        },
        fetches_asked(f, f0, asked),
    ensures
        fetches_asked(f2, f0, asked2),
{
    crate::queue::lemma_fetch_pos_bound(f, dv.1);
    assert forall|a: int| #![trigger f2[a]] 0 <= a < f2.len() implies (exists|b: int|
        0 <= b < f0.len() && #[trigger] f0[b].0 == f2[a].0) || asked2.contains(f2[a].0) by {
        if a < f.len() {
            assert(f2[a].0 == f[a].0);
            if asked.contains(f[a].0) {
                let c = choose|c: int| 0 <= c < asked.len() && asked[c] == f[a].0;
                assert(asked2[c] == asked[c]);
            }
        } else {
            assert(asked2[asked.len() as int] == dv.1);
        }
    }
}

/// Taking fetch `p` out of the queue keeps every other fetch asked for.
proof fn lemma_remove_asked(f: Seq<(SpecView, Seq<RequestView>)>, f0: Seq<(SpecView, Seq<RequestView>)>, p: int)
    requires
        0 <= p < f.len(),
        fetches_asked(f, f0, Seq::empty()),
    ensures
        fetches_asked(f.remove(p), f0, Seq::empty()),
{
    let f2 = f.remove(p);
    assert forall|a: int| #![trigger f2[a]] 0 <= a < f2.len() implies (exists|b: int|
        0 <= b < f0.len() && #[trigger] f0[b].0 == f2[a].0) || Seq::<SpecView>::empty().contains(f2[a].0) by {
        if a < p {
            assert(f2[a] == f[a]);
        } else {
            assert(f2[a] == f[a + 1]);
        }
    }
}

/// Being asked for carries over two steps.
proof fn lemma_asked_trans(
    f2: Seq<(SpecView, Seq<RequestView>)>,
    f1: Seq<(SpecView, Seq<RequestView>)>,
    f0: Seq<(SpecView, Seq<RequestView>)>,
    asked: Seq<SpecView>,
)
    requires
        fetches_asked(f2, f1, asked),
        fetches_asked(f1, f0, Seq::empty()),
    ensures
        fetches_asked(f2, f0, asked),
{
    assert forall|a: int| #![trigger f2[a]] 0 <= a < f2.len() implies (exists|b: int|
        0 <= b < f0.len() && #[trigger] f0[b].0 == f2[a].0) || asked.contains(f2[a].0) by {
        if !asked.contains(f2[a].0) {
            let b = choose|b: int| 0 <= b < f1.len() && #[trigger] f1[b].0 == f2[a].0;
            assert(f1[b] == f1[b]);
            let c = choose|c: int| 0 <= c < f0.len() && #[trigger] f0[c].0 == f1[b].0;
            assert(f0[c].0 == f2[a].0);
        }
    }
}

/// The lockfile that requests are taken from: the install's lockfile,
/// else what was installed before.
pub open spec fn lock_in_use(lockfile: Option<Lockfile>, actual: Option<Lockfile>) -> Option<Lockfile> {
    match lockfile {
        Some(l) => Some(l),
        None => actual,
    }
}

/// The node that request `spec` named `name` of node `i` resolves to in the
/// hierarchy satisfies it.
pub open spec fn served(g: GraphView, i: usize, name: Seq<char>, spec: SpecView) -> bool {
    match resolved_dep(g, i, name) {
        Some(s) => spec_satisfies(g.nodes[s].package.resolved@, spec),
        None => false,
    }
}

/// `new` is `old` with an edge for the request from `i` to the node the
/// hierarchy already serves it with, and no new node.
pub open spec fn reused(old: GraphView, new: GraphView, i: usize, name: Seq<char>, spec: SpecView) -> bool {
    exists|e: usize, edge: Edge|
        edge_added(old, new, i, resolved_dep(old, i, name).unwrap(), name, e, edge) && edge.requested@ == spec
}

/// `new` is `old` with a new node for the request of `i`, placed as high
/// as nothing blocks it (see [`placement_target`], with the locked path
/// `locked`), and an edge to it from `i`.
pub open spec fn placed_at(
    old: GraphView,
    new: GraphView,
    i: usize,
    name: Seq<char>,
    spec: SpecView,
    locked: Option<Seq<Seq<char>>>,
) -> bool {
    exists|c: usize, e: usize, node: Node, edge: Edge|
        child_placed(
            old,
            new,
            i,
            placement_target(old, i, name, spec, node.package.resolved@, locked),
            name,
            node,
            edge,
            c,
            e,
        ) && edge.requested@ == spec
}

/// How request `spec` named `name` of node `i` is handled: where the
/// hierarchy already serves it, by an edge to that node; otherwise by a new
/// node, hoisted as high as nothing blocks it, or, for a package that
/// `lock` holds for the request, placed at or above its locked path.
pub open spec fn request_handled(
    old: GraphView,
    new: GraphView,
    i: usize,
    name: Seq<char>,
    spec: SpecView,
    lock: Option<Lockfile>,
) -> bool {
    if served(old, i, name, spec) {
        reused(old, new, i, name, spec)
    } else {
        ||| placed_at(old, new, i, name, spec, None)
        ||| (lock matches Some(l) && lock_choice(old, &l, i, name, spec) matches Some(n) && placed_at(
            old,
            new,
            i,
            name,
            spec,
            locked_parent(Some(n@.path)),
        ))
    }
}

/// `new` is `old` with one request of one of its nodes handled.
pub open spec fn request_step(old: GraphView, new: GraphView, lock: Option<Lockfile>) -> bool {
    exists|i: usize, k: int|
        old.has(i) && 0 <= k < requests_of(old, i).len() && request_handled(
            old,
            new,
            i,
            (#[trigger] requests_of(old, i)[k]).0,
            requests_of(old, i)[k].1,
            lock,
        )
}

/// The change from graph `k` to graph `k + 1` of `gs` handles one request.
pub open spec fn step_at(gs: Seq<GraphView>, k: int, lock: Option<Lockfile>) -> bool {
    request_step(gs[k], gs[k + 1], lock)
}

/// Each change along `gs` handles one request.
pub open spec fn steps_ok(gs: Seq<GraphView>, lock: Option<Lockfile>) -> bool {
    forall|k: int| 0 <= k < gs.len() - 1 ==> #[trigger] step_at(gs, k, lock)
}

/// `g1` grows from `g0` one request at a time, each handled as
/// [`request_handled`] says.
pub open spec fn built_by_steps(g0: GraphView, g1: GraphView, lock: Option<Lockfile>) -> bool {
    exists|gs: Seq<GraphView>|
        #![trigger steps_ok(gs, lock)]
        gs.len() > 0 && gs[0] == g0 && gs.last() == g1 && steps_ok(gs, lock)
}

proof fn lemma_trace_push(gs: Seq<GraphView>, g: GraphView, lock: Option<Lockfile>)
    requires
        gs.len() > 0,
        steps_ok(gs, lock),
        request_step(gs.last(), g, lock),
    ensures
        steps_ok(gs.push(g), lock),
        gs.push(g)[0] == gs[0],
        gs.push(g).last() == g,
{
    let hs = gs.push(g);
    assert forall|k: int| 0 <= k < hs.len() - 1 implies #[trigger] step_at(hs, k, lock) by {
        if k < gs.len() - 1 {
            assert(step_at(gs, k, lock));
            assert(hs[k] == gs[k]);
            assert(hs[k + 1] == gs[k + 1]);
        } else {
            assert(hs[k] == gs.last());
            assert(hs[k + 1] == g);
        }
    }
}

proof fn lemma_built_refl(g: GraphView, lock: Option<Lockfile>)
    ensures
        built_by_steps(g, g, lock),
{
    let gs = seq![g];
    assert(steps_ok(gs, lock));
    assert(gs.last() == g);
}

proof fn lemma_built_trans(g0: GraphView, g1: GraphView, g2: GraphView, lock: Option<Lockfile>)
    requires
        built_by_steps(g0, g1, lock),
        built_by_steps(g1, g2, lock),
    ensures
        built_by_steps(g0, g2, lock),
{
    let gs1 = choose|gs: Seq<GraphView>|
        #![trigger steps_ok(gs, lock)]
        gs.len() > 0 && gs[0] == g0 && gs.last() == g1 && steps_ok(gs, lock);
    let gs2 = choose|gs: Seq<GraphView>|
        #![trigger steps_ok(gs, lock)]
        gs.len() > 0 && gs[0] == g1 && gs.last() == g2 && steps_ok(gs, lock);
    let hs = gs1 + gs2.skip(1);
    let n1 = gs1.len() - 1;
    assert forall|k: int| 0 <= k < hs.len() - 1 implies #[trigger] step_at(hs, k, lock) by {
        if k < n1 {
            assert(step_at(gs1, k, lock));
            assert(hs[k] == gs1[k]);
            assert(hs[k + 1] == gs1[k + 1]);
        } else {
            let j = k - n1;
            assert(step_at(gs2, j, lock));
            if k == n1 {
                assert(hs[k] == gs1.last());
            } else {
                assert(hs[k] == gs2[j]);
            }
            assert(hs[k + 1] == gs2[j + 1]);
        }
    }
    if gs2.len() == 1 {
        assert(hs =~= gs1);
    } else {
        assert(hs.last() == gs2.last());
    }
    assert(hs[0] == g0);
    assert(steps_ok(hs, lock));
}

/// A graph keeps every request that it meets.
proof fn lemma_keeps_same(g: GraphView, i0: usize, name0: Seq<char>)
    ensures
        keeps_requests(g, g, i0, name0),
{
}

/// A finished graph that passes its checks resolves request `k` of node
/// `i`: the node records the dependency by an edge that records the
/// request, and the node it resolves to in the hierarchy satisfies it.
pub proof fn lemma_request_resolved(g: GraphView, i: usize, k: int)
    requires
        all_requests_met(g),
        all_deps_met(g),
        g.has(i),
        0 <= k < requests_of(g, i).len(),
    ensures
        request_resolved(g, i, requests_of(g, i)[k].0, requests_of(g, i)[k].1),
{
    let r = requests_of(g, i)[k];
    assert(request_met(g, i, r.0, r.1));
    let x = choose|x: int|
        #![trigger g.nodes[i].dependencies@[x]]
        0 <= x < g.nodes[i].dependencies@.len() && g.nodes[i].dependencies@[x].0 == r.0 && g.edges.dom().contains(
            g.nodes[i].dependencies@[x].1,
        ) && g.edges[g.nodes[i].dependencies@[x].1].2.requested@ == r.1;
    assert(dep_met(g, i, x));
}

fn copy_dep(d: &NodeDependency) -> (res: NodeDependency)
    ensures
        dep_view(res) == dep_view(*d),
{
    NodeDependency { name: d.name.clone(), spec: d.spec.clone(), dep_type: d.dep_type, node_idx: d.node_idx }
}

fn copy_requests(m: &NameMap<(PackageSpec, DepType)>) -> (res: NameMap<(PackageSpec, DepType)>)
    ensures
        res@.len() == m@.len(),
{
    let mut entries: Vec<(String, (PackageSpec, DepType))> = Vec::new();
    let mut i: usize = 0;
    while i < m.entries.len()
        invariant
            i <= m.entries.len(),
            entries@.len() == i,
        decreases m.entries.len() - i,
    {
        let e = &m.entries[i];
        entries.push((e.0.clone(), (e.1.0.clone(), e.1.1)));
        i = i + 1;
    }
    let res = NameMap { entries };
    assert(res@.len() == entries@.len());
    res
}

/// Requests by name, by value: each name with what it asks for and how.
pub open spec fn reqs_view(m: Seq<(Seq<char>, (PackageSpec, DepType))>) -> Seq<(Seq<char>, (SpecView, DepType))> {
    m.map_values(|e: (Seq<char>, (PackageSpec, DepType))| (e.0, (e.1.0@, e.1.1)))
}

proof fn lemma_reqs_view_pos(m: Seq<(Seq<char>, (PackageSpec, DepType))>, k: Seq<char>, n: int)
    ensures
        name_pos_upto(reqs_view(m), k, n) == name_pos_upto(m, k, n),
    decreases n,
{
    if n > 0 && n <= m.len() {
        lemma_reqs_view_pos(m, k, n - 1);
        assert(reqs_view(m)[n - 1].0 == m[n - 1].0);
    }
}

/// `m` with each request of `list` stored under its name, as kind `t`, in
/// order.
pub open spec fn insert_requests(
    m: Seq<(Seq<char>, (SpecView, DepType))>,
    list: Seq<(Seq<char>, SpecView)>,
    t: DepType,
) -> Seq<(Seq<char>, (SpecView, DepType))>
    decreases list.len(),
{
    if list.len() == 0 {
        m
    } else {
        name_insert(insert_requests(m, list.drop_last(), t), list.last().0, (list.last().1, t))
    }
}

/// What a lockfile entry's package requests: its dependencies, then its
/// dev, peer and optional dependencies, each stored under its name with
/// its kind.
pub open spec fn lock_requests_of(n: LockfileNodeView) -> Seq<(Seq<char>, (SpecView, DepType))> {
    insert_requests(
        insert_requests(
            insert_requests(
                insert_requests(Seq::empty(), n.dependencies, DepType::Prod),
                n.dev_dependencies,
                DepType::Dev,
            ),
            n.peer_dependencies,
            DepType::Peer,
        ),
        n.optional_dependencies,
        DepType::Opt,
    )
}

fn add_requests(
    out: &mut NameMap<(PackageSpec, DepType)>,
    list: &Vec<(String, PackageSpec)>,
    dep_type: DepType,
)
    ensures
        reqs_view(final(out)@) == insert_requests(reqs_view(old(out)@), requests_view(list@), dep_type),
{
    let ghost start = reqs_view(out@);
    let ghost lv = requests_view(list@);
    let mut i: usize = 0;
    assert(lv.take(0) =~= Seq::<(Seq<char>, SpecView)>::empty());
    while i < list.len()
        invariant
            i <= list.len(),
            lv == requests_view(list@),
            reqs_view(out@) == insert_requests(start, lv.take(i as int), dep_type),
        decreases list.len() - i,
    {
        let ghost before = out@;
        let k = list[i].0.clone();
        let v = (list[i].1.clone(), dep_type);
        let ghost vv = v;
        out.insert(k, v);
        proof {
            assert(lv.take(i + 1).drop_last() =~= lv.take(i as int));
            assert(lv.take(i + 1).last() == (list@[i as int].0@, list@[i as int].1@));
            lemma_reqs_view_pos(before, k@, before.len() as int);
            crate::names::lemma_name_pos(before, k@);
            match name_pos(before, k@) {
                Some(j) => {
                    assert(reqs_view(out@) =~= reqs_view(before).update(j, (reqs_view(before)[j].0, (vv.0@, vv.1))));
                },
                None => {
                    assert(reqs_view(out@) =~= reqs_view(before).push((k@, (vv.0@, vv.1))));
                },
            }
        }
        i = i + 1;
    }
    assert(lv.take(list.len() as int) =~= lv);
}

/// The package a lockfile entry records, taken for `requested` without a
/// fetch: a registry package with its version and tarball. An entry that
/// lacks either is not taken.
pub fn lock_package(node: &LockfileNode, requested: &PackageSpec) -> (res: Option<Package>)
    ensures
        match res {
            Some(p) => node.version matches Some(v) && node.resolved matches Some(t) && p.name@ == node.name@
                && p.from@ == requested@ && p.resolved@ == (crate::resolution::ResolutionView::Npm {
                name: node.name@,
                version: v@,
                tarball: t@,
                integrity: crate::spec::opt_string_view(node.integrity),
            }),
            None => node.version is None || node.resolved is None,
        },
{
    match (&node.version, &node.resolved) {
        (Some(v), Some(t)) => Some(
            Package {
                name: node.name.clone(),
                from: requested.clone(),
                resolved: PackageResolution::Npm {
                    name: node.name.clone(),
                    version: v.clone(),
                    tarball: t.clone(),
                    integrity: clone_opt_string(&node.integrity),
                },
            },
        ),
        _ => None,
    }
}

/// What a lockfile entry's package requests (see [`lock_requests_of`]).
pub fn lock_requests(node: &LockfileNode) -> (res: NameMap<(PackageSpec, DepType)>)
    ensures
        reqs_view(res@) == lock_requests_of(node@),
{
    let mut out: NameMap<(PackageSpec, DepType)> = NameMap::new();
    assert(reqs_view(out@) =~= Seq::<(Seq<char>, (SpecView, DepType))>::empty());
    add_requests(&mut out, &node.dependencies, DepType::Prod);
    add_requests(&mut out, &node.dev_dependencies, DepType::Dev);
    add_requests(&mut out, &node.peer_dependencies, DepType::Peer);
    add_requests(&mut out, &node.optional_dependencies, DepType::Opt);
    out
}

/// The resolution a lockfile entry records: a registry package at its
/// version and tarball.
pub open spec fn lock_resolution(n: LockfileNode) -> ResolutionView {
    ResolutionView::Npm {
        name: n.name@,
        version: n.version->0@,
        tarball: n.resolved->0@,
        integrity: opt_string_view(n.integrity),
    }
}

/// Whether a lockfile entry records a package that can be taken without a
/// fetch: it has a version and a tarball.
pub open spec fn lock_usable(n: LockfileNode) -> bool {
    n.version is Some && n.resolved is Some
}

/// The first entry that `lock` holds, at keys `keys` from `t` on, that
/// records a usable package.
pub open spec fn lock_candidate(lock: Seq<(Seq<char>, LockfileNode)>, keys: Seq<Seq<char>>, t: int) -> Option<
    LockfileNode,
>
    decreases keys.len() - t,
{
    if t < 0 || t >= keys.len() {
        None
    } else {
        match name_get(lock, keys[t]) {
            Some(n) => if lock_usable(n) {
                Some(n)
            } else {
                lock_candidate(lock, keys, t + 1)
            },
            None => lock_candidate(lock, keys, t + 1),
        }
    }
}

/// The keys at which a package named `name` would be found from node `i`,
/// nearest first.
pub open spec fn lock_keys(g: GraphView, i: usize, name: Seq<char>) -> Seq<Seq<char>> {
    Seq::new(
        (node_path(g, i).len() + 1) as nat,
        |t: int| lockfile_key_at(node_path(g, i), name, t),
    )
}

/// What a lockfile holds for a request `spec` named `name` of node `i`:
/// the first entry at the places the package would be seen from, nearest
/// first, that records a usable package, where that package satisfies the
/// request and the entry has a path to be placed at.
pub open spec fn lock_choice(g: GraphView, lock: &Lockfile, i: usize, name: Seq<char>, spec: SpecView) -> Option<
    LockfileNode,
> {
    match lock_candidate(lock.packages@, lock_keys(g, i, name), 0) {
        Some(n) => if spec_satisfies(lock_resolution(n), spec) && n.path@.len() > 0 {
            Some(n)
        } else {
            None
        },
        None => None,
    }
}

/// The package that `lock` already holds for `dep` (see
/// [`lock_choice`]), with what it requests and its path; `None` where the
/// request is to be fetched.
pub fn from_lockfile(graph: &Graph, lock: &Lockfile, dep: &NodeDependency) -> (res: Option<
    (Package, NameMap<(PackageSpec, DepType)>, Vec<String>),
>)
    requires
        graph@.wf(),
        graph@.has(dep.node_idx),
    ensures
        match lock_choice(graph@, lock, dep.node_idx, dep.name@, dep.spec@) {
            Some(n) => match res {
                Some((p, r, path)) => p@ == (PackageView {
                    name: n.name@,
                    from: dep.spec@,
                    resolved: lock_resolution(n),
                }) && reqs_view(r@) == lock_requests_of(n@) && strings_view(path@) == n@.path,
                None => false,
            },
            None => res is None,
        },
{
    let keys = lockfile_keys(graph, dep.node_idx, &dep.name);
    let ghost ks = lock_keys(graph@, dep.node_idx, dep.name@);
    assert(strings_view(keys@) =~= ks);
    let mut t: usize = 0;
    while t < keys.len()
        invariant
            t <= keys.len(),
            strings_view(keys@) == ks,
            ks == lock_keys(graph@, dep.node_idx, dep.name@),
            lock_candidate(lock.packages@, ks, 0) == lock_candidate(lock.packages@, ks, t as int),
        decreases keys.len() - t,
    {
        assert(ks[t as int] == keys@[t as int]@);
        match lock.packages.get(&keys[t]) {
            Some(node) => match lock_package(node, &dep.spec) {
                Some(p) => {
                    assert(lock_candidate(lock.packages@, ks, t as int) == Some(*node));
                    assert(p.resolved@ == lock_resolution(*node));
                    if p.resolved.satisfies_canonical(&dep.spec) && node.path.len() > 0 {
                        let path = node.path.clone();
                        assert(strings_view(path@) =~= strings_view(node.path@));
                        assert(lock_choice(graph@, lock, dep.node_idx, dep.name@, dep.spec@) == Some(*node));
                        return Some((p, lock_requests(node), path));
                    } else {
                        assert(lock_choice(graph@, lock, dep.node_idx, dep.name@, dep.spec@) is None);
                        return None;
                    }
                },
                None => {},
            },
            None => {},
        }
        t = t + 1;
    }
    None
}

/// Satisfies `dep` from the nodes it already sees (see
/// [`satisfy_dependency`]), keeping track of the graph's growth.
fn satisfy(graph: &mut Graph, dep: &NodeDependency) -> (res: bool)
    requires
        old(graph)@.wf(),
        old(graph)@.has(dep.node_idx),
        has_room(old(graph)@),
        deps_named(old(graph)@),
        requests_of(old(graph)@, dep.node_idx).contains(dep_view(*dep)),
    ensures
        final(graph)@.wf(),
        grown(old(graph)@, final(graph)@),
        final(graph)@.nodes.len() == old(graph)@.nodes.len(),
        !res ==> final(graph)@ == old(graph)@,
        res ==> keeps_requests(old(graph)@, final(graph)@, dep.node_idx, dep.name@),
        res ==> deps_named(final(graph)@),
        res ==> request_met(final(graph)@, dep.node_idx, dep.name@, dep.spec@),
        res ==> final(graph)@.nodes.dom() == old(graph)@.nodes.dom(),
        res ==> served(old(graph)@, dep.node_idx, dep.name@, dep.spec@) && reused(
            old(graph)@,
            final(graph)@,
            dep.node_idx,
            dep.name@,
            dep.spec@,
        ),
        !res ==> !served(old(graph)@, dep.node_idx, dep.name@, dep.spec@),
{
    let ghost g0 = graph@;
    let r = satisfy_dependency(graph, dep);
    proof {
        if let Some(t) = r {
            let (e, edge) = choose|e: usize, edge: Edge|
                edge_added(g0, graph@, dep.node_idx, t, dep.name@, e, edge) && edge.requested@ == dep.spec@
                    && edge.dep_type == dep.dep_type;
            lemma_edge_added_keeps(g0, graph@, dep.node_idx, t, e, edge, dep_view(*dep));
        }
    }
    r.is_some()
}

/// Places a node for `dep` (see [`place_child`]), keeping track of the
/// graph's growth.
fn place(
    graph: &mut Graph,
    dep: &NodeDependency,
    package: Package,
    requests: NameMap<(PackageSpec, DepType)>,
    tarball_size: Option<u64>,
    file_count: Option<u64>,
    path: Option<Vec<String>>,
) -> (res: usize)
    requires
        old(graph)@.wf(),
        old(graph)@.has(dep.node_idx),
        has_room(old(graph)@),
        path matches Some(p) ==> p@.len() > 0,
        deps_named(old(graph)@),
        requests_of(old(graph)@, dep.node_idx).contains(dep_view(*dep)),
    ensures
        final(graph)@.wf(),
        final(graph)@.has(res),
        !old(graph)@.has(res),
        grown(old(graph)@, final(graph)@),
        final(graph)@.nodes.len() == old(graph)@.nodes.len() + 1,
        final(graph)@.nodes.dom() == old(graph)@.nodes.dom().insert(res),
        keeps_requests(old(graph)@, final(graph)@, dep.node_idx, dep.name@),
        deps_named(final(graph)@),
        request_met(final(graph)@, dep.node_idx, dep.name@, dep.spec@),
        placed_at(
            old(graph)@,
            final(graph)@,
            dep.node_idx,
            dep.name@,
            dep.spec@,
            locked_parent(crate::resolver::opt_strings_view(path)),
        ),
{
    let ghost g0 = graph@;
    let ghost pkg = package;
    let ghost lk = locked_parent(crate::resolver::opt_strings_view(path));
    let ghost target = placement_target(
        g0,
        dep.node_idx,
        dep.name@,
        dep.spec@,
        package.resolved@,
        locked_parent(crate::resolver::opt_strings_view(path)),
    );
    let c = place_child(graph, dep, package, requests, tarball_size, file_count, path);
    proof {
        let (e, node, edge) = choose|e: usize, node: Node, edge: Edge|
            child_placed(g0, graph@, dep.node_idx, target, dep.name@, node, edge, c, e) && node.package == pkg
                && edge.requested@ == dep.spec@;
        assert(placement_target(g0, dep.node_idx, dep.name@, dep.spec@, node.package.resolved@, lk) == target);
        assert(placed_at(g0, graph@, dep.node_idx, dep.name@, dep.spec@, lk));
        lemma_child_placed_keeps(g0, graph@, dep.node_idx, target, node, edge, c, e, dep_view(*dep));
        assert(!g0.has(c));
        assert(graph@.nodes.dom() =~= g0.nodes.dom().insert(c));
    }
    c
}

fn room(graph: &Graph) -> (res: bool)
    requires
        graph@.wf(),
    ensures
        res == has_room(graph@),
{
    let n = graph.node_count();
    let e = graph.edge_count();
    n < 0xffff_fffe && e < 0xffff_fffe
}

/// The package that the lockfile in use (see [`lock_in_use`]) already
/// holds for `dep` (see [`from_lockfile`]).
fn lock_lookup(graph: &Graph, lockfile: &Option<Lockfile>, actual: &Option<Lockfile>, dep: &NodeDependency) -> (res: Option<
    (Package, NameMap<(PackageSpec, DepType)>, Vec<String>),
>)
    requires
        graph@.wf(),
        graph@.has(dep.node_idx),
    ensures
        match lock_in_use(*lockfile, *actual) {
            Some(l) => match lock_choice(graph@, &l, dep.node_idx, dep.name@, dep.spec@) {
                Some(n) => res matches Some((p, r, path)) && strings_view(path@) == n@.path,
                None => res is None,
            },
            None => res is None,
        },
{
    match lockfile {
        Some(l) => from_lockfile(graph, l, dep),
        None => match actual {
            Some(a) => from_lockfile(graph, a, dep),
            None => None,
        },
    }
}

/// Looks at the requests of every queued node, in order, and of the nodes
/// taken from a lockfile on the way: each is satisfied by a node its
/// dependent already sees, or by a lockfile entry, or waits for a fetch.
/// Specifiers whose fetch was not under way are added to `to_fetch`.
/// Returns `false` where the graph ran out of room.
#[verifier::spinoff_prover]
#[verifier::rlimit(40)]
fn visit(graph: &mut Graph, state: &mut ResolveState, to_fetch: &mut Vec<PackageSpec>) -> (ok: bool)
    requires
        old(graph)@.wf(),
        old(state).wf(old(graph)@),
        old(state).settles(old(graph)@),
    ensures
        final(graph)@.wf(),
        final(state).wf(final(graph)@),
        ok ==> final(state).settles(final(graph)@),
        final(state).lockfile == old(state).lockfile,
        final(state).actual == old(state).actual,
        final(state).locked == old(state).locked,
        ok ==> final(state).queue@.len() == 0,
        !ok ==> !has_room(final(graph)@),
        final(to_fetch)@.len() >= old(to_fetch)@.len(),
        final(to_fetch)@.len() > old(to_fetch)@.len() ==> final(state).fetches@.len() > 0,
        old(state).fetches@.len() > 0 ==> final(state).fetches@.len() > 0,
        fetches_asked(old(state).fetches@, old(state).fetches@, asked_view(old(to_fetch)@)) ==> fetches_asked(
            final(state).fetches@,
            old(state).fetches@,
            asked_view(final(to_fetch)@),
        ),
        built_by_steps(old(graph)@, final(graph)@, lock_in_use(old(state).lockfile, old(state).actual)),
{
    let ghost lk = lock_in_use(old(state).lockfile, old(state).actual);
    let ghost mut trace: Seq<GraphView> = seq![graph@];
    let mut qi: usize = 0;
    while qi < state.queue.len()
        invariant
            graph@.wf(),
            state.wf(graph@),
            deps_named(graph@),
            covered(graph@, state.queue@, qi as int, state.fetches@, Seq::empty()),
            qi <= state.queue.len(),
            state.lockfile == old(state).lockfile,
            state.actual == old(state).actual,
            state.locked == old(state).locked,
            to_fetch@.len() >= old(to_fetch)@.len(),
            to_fetch@.len() > old(to_fetch)@.len() ==> state.fetches@.len() > 0,
            old(state).fetches@.len() > 0 ==> state.fetches@.len() > 0,
            fetches_asked(old(state).fetches@, old(state).fetches@, asked_view(old(to_fetch)@)) ==> fetches_asked(
                state.fetches@,
                old(state).fetches@,
                asked_view(to_fetch@),
            ),
            lk == lock_in_use(old(state).lockfile, old(state).actual),
            trace.len() > 0,
            trace[0] == old(graph)@,
            trace.last() == graph@,
            steps_ok(trace, lk),
            graph@.nodes.len() < index_limit(),
        decreases index_limit() - graph@.nodes.len(), state.queue@.len() - qi,
    {
        let node = state.queue[qi];
        assert(graph@.has(state.queue@[qi as int]));
        let deps = dependency_requests(graph, node);
        let ghost l = deps_view(deps@);
        proof {
            lemma_requests_of_node(graph@, node);
            assert forall|k: int| 0 <= k < deps@.len() implies (#[trigger] deps@[k]).node_idx == node by {
                assert(deps_view(deps@)[k] == dep_view(deps@[k]));
            }
            assert(l.subrange(0, l.len() as int) =~= l);
            assert forall|j: int| 0 <= j < requests_of(graph@, node).len() implies request_settled(
                graph@,
                state.fetches@,
                l.subrange(0, l.len() as int),
                node,
                #[trigger] requests_of(graph@, node)[j],
            ) by {
                assert(l.subrange(0, l.len() as int)[j] == l[j]);
            }
        }
        let ghost n0 = graph@.nodes.len();
        let ghost q0 = state.queue@.len();
        let mut k: usize = 0;
        while k < deps.len()
            invariant
                graph@.wf(),
                state.wf(graph@),
                deps_named(graph@),
                covered(graph@, state.queue@, qi as int, state.fetches@, Seq::empty()),
                graph@.has(node),
                qi < state.queue@.len(),
                state.queue@[qi as int] == node,
                l == deps_view(deps@),
                l == requests_of(graph@, node),
                node_settled(graph@, state.fetches@, l.subrange(k as int, l.len() as int), node),
                forall|j: int| 0 <= j < deps@.len() ==> (#[trigger] deps@[j]).node_idx == node,
                k <= deps.len(),
                n0 <= graph@.nodes.len(),
                q0 <= state.queue@.len(),
                state.queue@.len() - q0 <= graph@.nodes.len() - n0,
                qi < q0,
                state.lockfile == old(state).lockfile,
                state.actual == old(state).actual,
                state.locked == old(state).locked,
                to_fetch@.len() >= old(to_fetch)@.len(),
                to_fetch@.len() > old(to_fetch)@.len() ==> state.fetches@.len() > 0,
                old(state).fetches@.len() > 0 ==> state.fetches@.len() > 0,
                fetches_asked(old(state).fetches@, old(state).fetches@, asked_view(old(to_fetch)@)) ==> fetches_asked(
                    state.fetches@,
                    old(state).fetches@,
                    asked_view(to_fetch@),
                ),
                lk == lock_in_use(old(state).lockfile, old(state).actual),
                trace.len() > 0,
                trace[0] == old(graph)@,
                trace.last() == graph@,
                steps_ok(trace, lk),
                graph@.nodes.len() < index_limit(),
            decreases deps.len() - k,
        {
            if !room(graph) {
                assert(steps_ok(trace, lk));
                return false;
            }
            let dep = &deps[k];
            let ghost g0 = graph@;
            let ghost sq = state.queue@;
            let ghost f0 = state.fetches@;
            let ghost r0 = l[k as int];
            let ghost rest = l.subrange(k as int, l.len() as int);
            let ghost rest2 = l.subrange(k + 1, l.len() as int);
            proof {
                assert(r0 == dep_view(*dep));
                assert(requests_of(g0, node)[k as int] == r0);
                assert(requests_of(g0, node).contains(r0));
                lemma_rest_step(l, k as int);
            }
            if !satisfy(graph, dep) {
                let found = lock_lookup(graph, &state.lockfile, &state.actual, dep);
                match found {
                    Some((package, requests, path)) => {
                        assert(strings_view(path@).len() == path@.len());
                        let c = place(graph, dep, package, requests, None, None, Some(path));
                        state.queue.push(c);
                        proof {
                            lemma_pending_push(sq, qi as int, c);
                            lemma_covered_step(g0, graph@, sq, state.queue@, qi as int, f0, f0, Seq::empty(), Seq::empty(), node, r0);
                            lemma_settled_step(g0, graph@, f0, f0, rest, rest2, node, r0, node);
                            lemma_fetches_kept(g0, graph@, f0, node, r0.0);
                            assert(graph@.nodes[node].dependency_reqs == g0.nodes[node].dependency_reqs);
                            assert(state.queue@[qi as int] == sq[qi as int]);
                            assert(crate::resolver::opt_strings_view(Some(path)) == Some(strings_view(path@)));
                            assert(request_handled(g0, graph@, node, r0.0, r0.1, lk));
                            assert(request_step(g0, graph@, lk));
                            lemma_trace_push(trace, graph@, lk);
                            trace = trace.push(graph@);
                        }
                    },
                    None => {
                        let spec = dep.spec.clone();
                        let d = copy_dep(dep);
                        let ghost t0 = to_fetch@;
                        if state.fetches.enqueue(d) {
                            to_fetch.push(spec);
                        }
                        proof {
                            if fetches_asked(old(state).fetches@, old(state).fetches@, asked_view(old(to_fetch)@)) {
                                assert(asked_view(to_fetch@) =~= (if fetch_pos(f0, r0.1) is None {
                                    asked_view(t0).push(r0.1)
                                } else {
                                    asked_view(t0)
                                }));
                                lemma_enqueue_asked(
                                    f0,
                                    state.fetches@,
                                    old(state).fetches@,
                                    asked_view(t0),
                                    asked_view(to_fetch@),
                                    r0,
                                );
                            }
                            lemma_enqueue(g0, f0, state.fetches@, r0);
                            lemma_keeps_same(g0, node, r0.0);
                            lemma_covered_step(g0, g0, sq, sq, qi as int, f0, state.fetches@, Seq::empty(), Seq::empty(), node, r0);
                            lemma_settled_step(g0, g0, f0, state.fetches@, rest, rest2, node, r0, node);
                        }
                    },
                }
            } else {
                proof {
                    lemma_covered_step(g0, graph@, sq, sq, qi as int, f0, f0, Seq::empty(), Seq::empty(), node, r0);
                    lemma_settled_step(g0, graph@, f0, f0, rest, rest2, node, r0, node);
                    lemma_fetches_kept(g0, graph@, f0, node, r0.0);
                    assert(graph@.nodes[node].dependency_reqs == g0.nodes[node].dependency_reqs);
                    assert(request_handled(g0, graph@, node, r0.0, r0.1, lk));
                    assert(request_step(g0, graph@, lk));
                    lemma_trace_push(trace, graph@, lk);
                    trace = trace.push(graph@);
                }
            }
            k = k + 1;
        }
        proof {
            assert(l.subrange(l.len() as int, l.len() as int) =~= Seq::<RequestView>::empty());
            lemma_covered_advance(graph@, state.queue@, qi as int, state.fetches@, node);
        }
        qi = qi + 1;
    }
    proof {
        lemma_covered_end(graph@, state.queue@, state.fetches@);
        assert(steps_ok(trace, lk));
    }
    state.queue = Vec::new();
    true
}

/// Hands each fetched package to the requests waiting for its specifier:
/// each is satisfied by a node its dependent already sees by now, or gets
/// a new node for the package. The new nodes join the queue, which is put
/// in visiting order. Returns `false` where the graph ran out of room.
#[verifier::spinoff_prover]
#[verifier::rlimit(40)]
fn place_fetched(graph: &mut Graph, state: &mut ResolveState, fetched: Vec<FetchedPackage>) -> (ok: bool)
    requires
        old(graph)@.wf(),
        old(state).wf(old(graph)@),
        old(state).settles(old(graph)@),
    ensures
        final(graph)@.wf(),
        final(state).wf(final(graph)@),
        ok ==> final(state).settles(final(graph)@),
        final(state).lockfile == old(state).lockfile,
        final(state).actual == old(state).actual,
        final(state).locked == old(state).locked,
        !ok ==> !has_room(final(graph)@),
        fetches_asked(final(state).fetches@, old(state).fetches@, Seq::empty()),
        built_by_steps(old(graph)@, final(graph)@, lock_in_use(old(state).lockfile, old(state).actual)),
{
    let ghost lk = lock_in_use(old(state).lockfile, old(state).actual);
    let ghost mut trace: Seq<GraphView> = seq![graph@];
    let mut i: usize = 0;
    proof {
        assert forall|a: int| #![trigger state.fetches@[a]] 0 <= a < state.fetches@.len() implies (exists|b: int|
            0 <= b < old(state).fetches@.len() && #[trigger] old(state).fetches@[b].0 == state.fetches@[a].0)
            || Seq::<SpecView>::empty().contains(state.fetches@[a].0) by {
            assert(old(state).fetches@[a].0 == state.fetches@[a].0);
        }
    }
    while i < fetched.len()
        invariant
            graph@.wf(),
            state.wf(graph@),
            state.settles(graph@),
            fetches_asked(state.fetches@, old(state).fetches@, Seq::empty()),
            lk == lock_in_use(old(state).lockfile, old(state).actual),
            trace.len() > 0,
            trace[0] == old(graph)@,
            trace.last() == graph@,
            steps_ok(trace, lk),
            i <= fetched.len(),
            state.lockfile == old(state).lockfile,
            state.actual == old(state).actual,
            state.locked == old(state).locked,
        decreases fetched.len() - i,
    {
        let item = &fetched[i];
        let ghost before = state.fetches@;
        match state.fetches.take(&item.spec) {
            Some(deps) => {
                let ghost l = deps_view(deps@);
                proof {
                    crate::queue::lemma_fetch_pos_bound(before, item.spec@);
                    let p = fetch_pos(before, item.spec@).unwrap();
                    lemma_take(graph@, state.queue@, before, state.fetches@, p);
                    lemma_remove_asked(before, old(state).fetches@, p);
                    assert(l.subrange(0, l.len() as int) =~= l);
                }
                let mut k: usize = 0;
                while k < deps.len()
                    invariant
                        graph@.wf(),
                        state.wf(graph@),
                        deps_named(graph@),
                        covered(graph@, state.queue@, 0, state.fetches@, l.subrange(k as int, l.len() as int)),
                        l == deps_view(deps@),
                        fetches_asked(state.fetches@, old(state).fetches@, Seq::empty()),
                        lk == lock_in_use(old(state).lockfile, old(state).actual),
                        trace.len() > 0,
                        trace[0] == old(graph)@,
                        trace.last() == graph@,
                        steps_ok(trace, lk),
                        forall|j: int|
                            0 <= j < l.len() ==> graph@.has((#[trigger] l[j]).3) && requests_of(graph@, l[j].3).contains(
                                l[j],
                            ),
                        k <= deps.len(),
                        state.lockfile == old(state).lockfile,
                        state.actual == old(state).actual,
                        state.locked == old(state).locked,
                    decreases deps.len() - k,
                {
                    if !room(graph) {
                        assert(steps_ok(trace, lk));
                        return false;
                    }
                    let dep = &deps[k];
                    let ghost g0 = graph@;
                    let ghost sq = state.queue@;
                    let ghost f0 = state.fetches@;
                    let ghost r0 = l[k as int];
                    let ghost node = r0.3;
                    proof {
                        assert(r0 == dep_view(*dep));
                        assert(graph@.has(l[k as int].3));
                        lemma_rest_step(l, k as int);
                    }
                    let ghost jr = choose|j: int| 0 <= j < requests_of(g0, node).len() && requests_of(g0, node)[j] == r0;
                    if !satisfy(graph, dep) {
                        let c = place(
                            graph,
                            dep,
                            item.package.clone(),
                            copy_requests(&item.requests),
                            item.tarball_size,
                            item.file_count,
                            None,
                        );
                        state.queue.push(c);
                        proof {
                            lemma_pending_push(sq, 0, c);
                            lemma_covered_step(
                                g0,
                                graph@,
                                sq,
                                state.queue@,
                                0,
                                f0,
                                f0,
                                l.subrange(k as int, l.len() as int),
                                l.subrange(k + 1, l.len() as int),
                                node,
                                r0,
                            );
                            lemma_fetches_kept(g0, graph@, f0, node, r0.0);
                            assert(request_handled(g0, graph@, node, r0.0, r0.1, lk));
                            assert(requests_of(g0, node)[jr] == r0);
                            assert(request_step(g0, graph@, lk));
                            lemma_trace_push(trace, graph@, lk);
                            trace = trace.push(graph@);
                        }
                    } else {
                        proof {
                            lemma_covered_step(
                                g0,
                                graph@,
                                sq,
                                sq,
                                0,
                                f0,
                                f0,
                                l.subrange(k as int, l.len() as int),
                                l.subrange(k + 1, l.len() as int),
                                node,
                                r0,
                            );
                            lemma_fetches_kept(g0, graph@, f0, node, r0.0);
                            assert(request_handled(g0, graph@, node, r0.0, r0.1, lk));
                            assert(requests_of(g0, node)[jr] == r0);
                            assert(request_step(g0, graph@, lk));
                            lemma_trace_push(trace, graph@, lk);
                            trace = trace.push(graph@);
                        }
                    }
                    proof {
                        assert forall|j: int| 0 <= j < l.len() implies graph@.has((#[trigger] l[j]).3) && requests_of(
                            graph@,
                            l[j].3,
                        ).contains(l[j]) by {
                            assert(g0.has(l[j].3));
                            assert(graph@.nodes[l[j].3].dependency_reqs == g0.nodes[l[j].3].dependency_reqs);
                            assert(requests_of(graph@, l[j].3) == requests_of(g0, l[j].3));
                        }
                    }
                    k = k + 1;
                }
                proof {
                    assert(l.subrange(l.len() as int, l.len() as int) =~= Seq::<RequestView>::empty());
                }
            },
            None => {},
        }
        i = i + 1;
    }
    let sorted = sort_queue(graph, &state.queue);
    proof {
        broadcast use vstd::seq_lib::group_to_multiset_ensures;

        lemma_covered_reordered(graph@, state.queue@, sorted@, state.fetches@);
        assert forall|q: int| 0 <= q < sorted@.len() implies graph@.has(#[trigger] sorted@[q]) by {
            assert(sorted@.contains(sorted@[q]));
            assert(sorted@.to_multiset().count(sorted@[q]) > 0);
            assert(state.queue@.to_multiset().count(sorted@[q]) > 0);
            assert(state.queue@.contains(sorted@[q]));
        }
    }
    state.queue = sorted;
    assert(steps_ok(trace, lk));
    true
}

/// One step of resolution: hands what happened to the graph, visits the
/// queued nodes, and says what the caller does next. When no node is left
/// to visit and no fetch is under way, every request of every node is met
/// and the graph is finished: a locked install must record the same
/// install as its lockfile, and every dependency must be met; a graph that
/// passes both checks resolves every request to a node that satisfies it.
pub fn resolve_step(graph: &mut Graph, state: &mut ResolveState, event: ResolveEvent) -> (action: ResolveAction)
    requires
        old(graph)@.wf(),
        old(state).wf(old(graph)@),
        old(state).settles(old(graph)@),
    ensures
        final(graph)@.wf(),
        final(state).wf(final(graph)@),
        !(action is TooManyPackages) ==> final(state).settles(final(graph)@),
        final(state).lockfile == old(state).lockfile,
        final(state).actual == old(state).actual,
        final(state).locked == old(state).locked,
        built_by_steps(old(graph)@, final(graph)@, lock_in_use(old(state).lockfile, old(state).actual)),
        match action {
            ResolveAction::Done(r) => {
                &&& all_requests_met(final(graph)@)
                &&& (r is Ok <==> all_deps_met(final(graph)@) && locked_ok(
                    final(graph)@,
                    old(state).locked,
                    old(state).lockfile,
                ))
                &&& (r is Ok ==> resolution_complete(final(graph)@))
                &&& (r matches Err(ResolveError::LockfileMismatch) ==> !locked_ok(
                    final(graph)@,
                    old(state).locked,
                    old(state).lockfile,
                ))
                &&& (r matches Err(ResolveError::Invalid(_)) ==> !all_deps_met(final(graph)@))
                &&& final(state).queue@.len() == 0
                &&& final(state).fetches@.len() == 0
            },
            ResolveAction::Fetch(specs) => {
                &&& final(state).queue@.len() == 0
                &&& specs@.len() > 0 || final(state).fetches@.len() > 0
                &&& fetches_asked(final(state).fetches@, old(state).fetches@, asked_view(specs@))
                &&& forall|i: usize|
                    #[trigger] final(graph)@.has(i) ==> node_settled(
                        final(graph)@,
                        final(state).fetches@,
                        Seq::empty(),
                        i,
                    )
            },
            ResolveAction::TooManyPackages => !has_room(final(graph)@),
        },
{
    let ghost lk = lock_in_use(old(state).lockfile, old(state).actual);
    proof {
        lemma_built_refl(graph@, lk);
    }
    match event {
        ResolveEvent::Start => {},
        ResolveEvent::Fetched(list) => {
            if !place_fetched(graph, state, list) {
                return ResolveAction::TooManyPackages;
            }
        },
    }
    let ghost g1 = graph@;
    assert(built_by_steps(old(graph)@, g1, lk));
    let ghost f1 = state.fetches@;
    proof {
        if event is Start {
            assert forall|a: int| #![trigger f1[a]] 0 <= a < f1.len() implies (exists|b: int|
                0 <= b < old(state).fetches@.len() && #[trigger] old(state).fetches@[b].0 == f1[a].0)
                || Seq::<SpecView>::empty().contains(f1[a].0) by {
                assert(old(state).fetches@[a].0 == f1[a].0);
            }
        }
    }
    let mut to_fetch: Vec<PackageSpec> = Vec::new();
    proof {
        assert(asked_view(to_fetch@) =~= Seq::<SpecView>::empty());
        assert forall|a: int| #![trigger f1[a]] 0 <= a < f1.len() implies (exists|b: int|
            0 <= b < f1.len() && #[trigger] f1[b].0 == f1[a].0) || asked_view(to_fetch@).contains(f1[a].0) by {
            assert(f1[a].0 == f1[a].0);
        }
    }
    let ok = visit(graph, state, &mut to_fetch);
    proof {
        lemma_built_trans(old(graph)@, g1, graph@, lk);
    }
    if !ok {
        return ResolveAction::TooManyPackages;
    }
    proof {
        lemma_asked_trans(state.fetches@, f1, old(state).fetches@, asked_view(to_fetch@));
    }
    proof {
        assert forall|i: usize| #[trigger] graph@.has(i) implies node_settled(graph@, state.fetches@, Seq::empty(), i) by {
            assert(!pending(state.queue@, 0, i));
        }
    }
    if to_fetch.len() > 0 || state.fetches.entries.len() > 0 {
        return ResolveAction::Fetch(to_fetch);
    }
    proof {
        lemma_all_met(graph@, state.fetches@);
    }
    let lock_check = match &state.lockfile {
        Some(l) => check_locked(state.locked, Some(l), graph),
        None => check_locked(state.locked, None, graph),
    };
    if lock_check.is_err() {
        return ResolveAction::Done(Err(ResolveError::LockfileMismatch));
    }
    match graph.validate() {
        Ok(()) => {
            proof {
                assert forall|i: usize, k: int| graph@.has(i) && 0 <= k < requests_of(graph@, i).len() implies request_resolved(
                    graph@,
                    i,
                    (#[trigger] requests_of(graph@, i)[k]).0,
                    requests_of(graph@, i)[k].1,
                ) by {
                    lemma_request_resolved(graph@, i, k);
                }
            }
            ResolveAction::Done(Ok(()))
        },
        Err(e) => ResolveAction::Done(Err(ResolveError::Invalid(e))),
    }
}

} // verus!
