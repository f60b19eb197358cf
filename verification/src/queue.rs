//! Bookkeeping of the resolution loop: which requests a node makes, which
//! fetches are already under way, the order in which new nodes are
//! visited, where a lockfile may already hold a package, and whether the
//! result agrees with a lockfile it was locked to.

use vstd::prelude::*;
use vstd::seq_lib::*;

use crate::error::joined_with;
use crate::graph::{depth_of, node_path, strings_view, DepType, Graph, GraphView};
use crate::linkers::{lemma_same_entry_same_package, same_lock_entry, same_request, requests_match, versions_agree};
use crate::lockfile::{entries_view, increasing_indices, join_with, lockfile_node_of, lockfile_packages, Lockfile, LockfileNode, LockfileNodeView};
use crate::names::{name_pos_upto, names_match, same_name};
use crate::resolver::NodeDependency;
use crate::semver::{chars_order, chars_order_from, lemma_chars_order_antisym, lemma_chars_order_trans};
use crate::spec::{PackageSpec, SpecView, VersionSpec};

verus! {

/// A dependency request by value: name, what it asks for, its kind, and
/// the dependent node.
pub open spec fn dep_view(d: NodeDependency) -> (Seq<char>, SpecView, DepType, usize) {
    (d.name@, d.spec@, d.dep_type, d.node_idx)
}

pub open spec fn deps_view(s: Seq<NodeDependency>) -> Seq<(Seq<char>, SpecView, DepType, usize)> {
    s.map_values(|d: NodeDependency| dep_view(d))
}

/// The requests among the first `n` entries of `m` whose name did not
/// occur before them, in order, as requests of node `i`.
pub open spec fn fresh_requests(
    m: Seq<(Seq<char>, (PackageSpec, DepType))>,
    n: int,
    i: usize,
) -> Seq<(Seq<char>, SpecView, DepType, usize)>
    decreases n,
{
    if n <= 0 || n > m.len() {
        Seq::empty()
    } else {
        let rest = fresh_requests(m, n - 1, i);
        let e = m[n - 1];
        if name_pos_upto(m, e.0, n - 1) is Some {
            rest
        } else {
            rest.push((e.0, e.1.0@, e.1.1, i))
        }
    }
}

/// The dependency requests of node `i`, each name once, in the order its
/// manifest lists them.
pub fn dependency_requests(graph: &Graph, i: usize) -> (res: Vec<NodeDependency>)
    requires
        graph@.wf(),
        graph@.has(i),
    ensures
        deps_view(res@) == fresh_requests(
            graph@.nodes[i].dependency_reqs@,
            graph@.nodes[i].dependency_reqs@.len() as int,
            i,
        ),
{
    let node = graph.node(i);
    let ghost m = node.dependency_reqs@;
    let mut out: Vec<NodeDependency> = Vec::new();
    let mut k: usize = 0;
    while k < node.dependency_reqs.entries.len()
        invariant
            m == node.dependency_reqs@,
            k <= m.len(),
            deps_view(out@) == fresh_requests(m, k as int, i),
        decreases m.len() - k,
    {
        let entry = &node.dependency_reqs.entries[k];
        assert(m[k as int] == (entry.0@, entry.1));
        let pos = node.dependency_reqs.position(&entry.0);
        proof {
            crate::names::lemma_name_pos_upto(m, entry.0@, k as int);
            crate::names::lemma_name_pos(m, entry.0@);
            assert(same_name(m[k as int].0, entry.0@));
            if name_pos_upto(m, entry.0@, k as int) is Some {
                let j = name_pos_upto(m, entry.0@, k as int).unwrap();
                assert(same_name(m[j].0, entry.0@));
            }
        }
        if pos == Some(k) {
            let ghost before = deps_view(out@);
            out.push(
                NodeDependency {
                    name: entry.0.clone(),
                    spec: entry.1.0.clone(),
                    dep_type: entry.1.1,
                    node_idx: i,
                },
            );
            assert(deps_view(out@) =~= before.push((entry.0@, entry.1.0@, entry.1.1, i)));
        }
        k = k + 1;
    }
    out
}

// ---------------------------------------------------------------------
// Lockfile lookups
// ---------------------------------------------------------------------

/// The lockfile key tried at step `t` when looking for `name` on behalf of
/// a dependent at `path`: the dependent's path shortened by `t` names, then
/// `name`, joined by `/node_modules/`.
pub open spec fn lockfile_key_at(path: Seq<Seq<char>>, name: Seq<char>, t: int) -> Seq<char> {
    joined_with(path.take(path.len() - t).push(name), "/node_modules/"@)
}

/// The lockfile keys at which `name` would be found from `dependent`,
/// nearest first: from the dependent's
/// own `node_modules/` up to the top level.
pub fn lockfile_keys(graph: &Graph, dependent: usize, name: &String) -> (res: Vec<String>)
    requires
        graph@.wf(),
        graph@.has(dependent),
    ensures
        res@.len() == node_path(graph@, dependent).len() + 1,
        forall|t: int| 0 <= t < res@.len() ==> #[trigger] res@[t]@ == lockfile_key_at(
            node_path(graph@, dependent),
            name@,
            t,
        ),
{
    let path = graph.node_path(dependent);
    let ghost pv = strings_view(path@);
    let n = path.len();
    let mut out: Vec<String> = Vec::new();
    let mut t: usize = 0;
    loop
        invariant_except_break
            out@.len() == t,
            forall|u: int| 0 <= u < t ==> #[trigger] out@[u]@ == lockfile_key_at(pv, name@, u),
        invariant
            n == path@.len(),
            pv == strings_view(path@),
            pv == node_path(graph@, dependent),
            t <= n,
        ensures
            out@.len() == n + 1,
            forall|u: int| 0 <= u < out@.len() ==> #[trigger] out@[u]@ == lockfile_key_at(pv, name@, u),
        decreases n - t,
    {
        let keep = n - t;
        let mut parts: Vec<String> = Vec::new();
        let mut k: usize = 0;
        while k < keep
            invariant
                keep <= n,
                n == path@.len(),
                pv == strings_view(path@),
                k <= keep,
                strings_view(parts@) == pv.take(k as int),
            decreases keep - k,
        {
            let ghost b = strings_view(parts@);
            parts.push(path[k].clone());
            assert(strings_view(parts@) =~= b.push(path@[k as int]@));
            assert(pv.take(k + 1) =~= pv.take(k as int).push(pv[k as int]));
            k = k + 1;
        }
        let ghost b2 = strings_view(parts@);
        parts.push(name.clone());
        assert(strings_view(parts@) =~= b2.push(name@));
        assert(strings_view(parts@) =~= pv.take(pv.len() - t).push(name@));
        let key = join_with(&parts, "/node_modules/");
        let ghost before = out@;
        out.push(key);
        assert forall|u: int| 0 <= u < t + 1 implies #[trigger] out@[u]@ == lockfile_key_at(pv, name@, u) by {
            if u < t {
                assert(out@[u] == before[u]);
            }
        }
        if t == n {
            break;
        }
        t = t + 1;
    }
    out
}

// ---------------------------------------------------------------------
// Fetches under way
// ---------------------------------------------------------------------

/// Two specifiers are the same fetch: the same kind with equal texts,
/// versions equal as versions, ranges equal as parsed ranges.
pub open spec fn same_fetch(a: SpecView, b: SpecView) -> bool
    decreases a,
{
    match (a, b) {
        (SpecView::Dir { path: p }, SpecView::Dir { path: q }) => p == q,
        (SpecView::Git { info: p }, SpecView::Git { info: q }) => p == q,
        (
            SpecView::Npm { scope: s1, name: n1, requested: r1 },
            SpecView::Npm { scope: s2, name: n2, requested: r2 },
        ) => s1 == s2 && n1 == n2 && match (r1, r2) {
            (None, None) => true,
            (Some(crate::spec::VersionSpecView::Tag(t)), Some(crate::spec::VersionSpecView::Tag(u))) => t == u,
            (Some(crate::spec::VersionSpecView::Range(t)), Some(crate::spec::VersionSpecView::Range(u))) => crate::semver::ranges_equal(t, u),
            (Some(crate::spec::VersionSpecView::Version(v)), Some(crate::spec::VersionSpecView::Version(w))) => crate::semver::same_version(v, w),
            _ => false,
        },
        (SpecView::Alias { name: n1, spec: s1 }, SpecView::Alias { name: n2, spec: s2 }) => n1 == n2
            && same_fetch(*s1, *s2),
        _ => false,
    }
}

fn opt_text_eq(a: &Option<String>, b: &Option<String>) -> (res: bool)
    ensures
        res == (crate::spec::opt_string_view(*a) == crate::spec::opt_string_view(*b)),
{
    match (a, b) {
        (Some(x), Some(y)) => *x == *y,
        (None, None) => true,
        _ => false,
    }
}

/// Whether two specifiers are the same fetch (see [`same_fetch`]).
pub fn fetches_match(a: &PackageSpec, b: &PackageSpec) -> (res: bool)
    ensures
        res == same_fetch(a@, b@),
    decreases a,
{
    match (a, b) {
        (PackageSpec::Dir { path: p }, PackageSpec::Dir { path: q }) => *p == *q,
        (PackageSpec::Git { info: p }, PackageSpec::Git { info: q }) => *p == *q,
        (
            PackageSpec::Npm { scope: s1, name: n1, requested: r1 },
            PackageSpec::Npm { scope: s2, name: n2, requested: r2 },
        ) => {
            if !opt_text_eq(s1, s2) || *n1 != *n2 {
                return false;
            }
            match (r1, r2) {
                (None, None) => true,
                (Some(VersionSpec::Tag(t)), Some(VersionSpec::Tag(u))) => *t == *u,
                (Some(VersionSpec::Range(t)), Some(VersionSpec::Range(u))) => t.same_range(u),
                (Some(VersionSpec::Version(v)), Some(VersionSpec::Version(w))) => v.same(w),
                _ => false,
            }
        },
        (PackageSpec::Alias { name: n1, spec: s1 }, PackageSpec::Alias { name: n2, spec: s2 }) => {
            *n1 == *n2 && fetches_match(&**s1, &**s2)
        },
        _ => false,
    }
}

/// Position of the first of the first `n` entries whose specifier is the
/// same fetch as `k`.
pub open spec fn fetch_pos_upto(e: Seq<(SpecView, Seq<(Seq<char>, SpecView, DepType, usize)>)>, k: SpecView, n: int) -> Option<int>
    decreases n,
{
    if n <= 0 || n > e.len() {
        None
    } else {
        match fetch_pos_upto(e, k, n - 1) {
            Some(i) => Some(i),
            None => if same_fetch(e[n - 1].0, k) {
                Some(n - 1)
            } else {
                None
            },
        }
    }
}

/// Position of the first entry whose specifier is the same fetch as `k`.
pub open spec fn fetch_pos(e: Seq<(SpecView, Seq<(Seq<char>, SpecView, DepType, usize)>)>, k: SpecView) -> Option<int> {
    fetch_pos_upto(e, k, e.len() as int)
}

proof fn lemma_fetch_pos_upto_bound(e: Seq<(SpecView, Seq<(Seq<char>, SpecView, DepType, usize)>)>, k: SpecView, n: int)
    ensures
        fetch_pos_upto(e, k, n) matches Some(i) ==> 0 <= i < n && i < e.len(),
    decreases n,
{
    if n > 0 && n <= e.len() {
        lemma_fetch_pos_upto_bound(e, k, n - 1);
    }
}

/// A fetch's position is a position of the queue.
pub proof fn lemma_fetch_pos_bound(e: Seq<(SpecView, Seq<(Seq<char>, SpecView, DepType, usize)>)>, k: SpecView)
    ensures
        fetch_pos(e, k) matches Some(i) ==> 0 <= i < e.len(),
{
    lemma_fetch_pos_upto_bound(e, k, e.len() as int);
}

proof fn lemma_fetch_pos_stable(e: Seq<(SpecView, Seq<(Seq<char>, SpecView, DepType, usize)>)>, k: SpecView, n: int, m: int)
    requires
        0 <= n <= m <= e.len(),
        fetch_pos_upto(e, k, n) is Some,
    ensures
        fetch_pos_upto(e, k, m) == fetch_pos_upto(e, k, n),
    decreases m - n,
{
    if m > n {
        lemma_fetch_pos_stable(e, k, n, m - 1);
    }
}

/// Fetches under way, each with the requests waiting for it, in the order
/// the fetches were started.
#[derive(Debug)]
pub struct FetchQueue {
    pub entries: Vec<(PackageSpec, Vec<NodeDependency>)>,
}

impl View for FetchQueue {
    type V = Seq<(SpecView, Seq<(Seq<char>, SpecView, DepType, usize)>)>;

    open spec fn view(&self) -> Seq<(SpecView, Seq<(Seq<char>, SpecView, DepType, usize)>)> {
        self.entries@.map_values(|e: (PackageSpec, Vec<NodeDependency>)| (e.0@, deps_view(e.1@)))
    }
}

impl FetchQueue {
    /// No fetch under way.
    pub fn new() -> (res: FetchQueue)
        ensures
            res@.len() == 0,
    {
        FetchQueue { entries: Vec::new() }
    }

    fn position(&self, spec: &PackageSpec) -> (res: Option<usize>)
        ensures
            res matches Some(i) ==> fetch_pos(self@, spec@) == Some(i as int) && i < self@.len(),
            res is None ==> fetch_pos(self@, spec@) is None,
    {
        let mut i: usize = 0;
        while i < self.entries.len()
            invariant
                i <= self.entries.len(),
                fetch_pos_upto(self@, spec@, i as int) is None,
            decreases self.entries.len() - i,
        {
            assert(self@[i as int].0 == self.entries@[i as int].0@);
            if fetches_match(&self.entries[i].0, spec) {
                proof {
                    assert(fetch_pos_upto(self@, spec@, i + 1) == Some(i as int));
                    lemma_fetch_pos_stable(self@, spec@, i + 1, self@.len() as int);
                }
                return Some(i);
            }
            i = i + 1;
        }
        None
    }

    /// Records `dep` as waiting for the fetch of its specifier. Returns
    /// whether a fetch must be started: none for that specifier was under
    /// way.
    pub fn enqueue(&mut self, dep: NodeDependency) -> (res: bool)
        ensures
            match fetch_pos(old(self)@, dep.spec@) {
                Some(i) => !res && final(self)@ == old(self)@.update(
                    i,
                    (old(self)@[i].0, old(self)@[i].1.push(dep_view(dep))),
                ),
                None => res && final(self)@ == old(self)@.push((dep.spec@, seq![dep_view(dep)])),
            },
    {
        let ghost before = self@;
        let ghost dv = dep_view(dep);
        match self.position(&dep.spec) {
            Some(i) => {
                let mut entry = self.entries.remove(i);
                let ghost ev = (entry.0@, deps_view(entry.1@));
                assert(ev == before[i as int]);
                entry.1.push(dep);
                assert(deps_view(entry.1@) =~= ev.1.push(dv));
                let ghost nv = (entry.0@, deps_view(entry.1@));
                self.entries.insert(i, entry);
                proof {
                    assert(self@ =~= before.update(i as int, nv));
                }
                false
            },
            None => {
                let spec = dep.spec.clone();
                let mut list: Vec<NodeDependency> = Vec::new();
                list.push(dep);
                assert(deps_view(list@) =~= seq![dv]);
                self.entries.push((spec, list));
                assert(self@ =~= before.push((dv.1, seq![dv])));
                true
            },
        }
    }

    /// The requests that were waiting for the fetch of `spec`, which is no
    /// longer under way.
    pub fn take(&mut self, spec: &PackageSpec) -> (res: Option<Vec<NodeDependency>>)
        ensures
            match fetch_pos(old(self)@, spec@) {
                Some(i) => res matches Some(l) && deps_view(l@) == old(self)@[i].1 && final(self)@ == old(self)@.remove(i),
                None => res is None && final(self)@ == old(self)@,
            },
    {
        let ghost before = self@;
        match self.position(spec) {
            Some(i) => {
                let entry = self.entries.remove(i);
                assert(self@ =~= before.remove(i as int));
                Some(entry.1)
            },
            None => None,
        }
    }
}

// ---------------------------------------------------------------------
// Visiting order
// ---------------------------------------------------------------------

/// Node `a` is visited no later than node `b`: shallower first, then by
/// name.
pub open spec fn queue_le(g: GraphView, a: usize, b: usize) -> bool {
    depth_of(g, a) < depth_of(g, b) || (depth_of(g, a) == depth_of(g, b) && chars_order_from(
        g.name_of(a),
        g.name_of(b),
        0,
    ) <= 0)
}

/// A queue in visiting order.
pub open spec fn queue_sorted(g: GraphView, q: Seq<usize>) -> bool {
    forall|i: int, j: int| 0 <= i < j < q.len() ==> queue_le(g, #[trigger] q[i], #[trigger] q[j])
}

proof fn lemma_queue_le_total(g: GraphView, a: usize, b: usize)
    ensures
        queue_le(g, a, b) || queue_le(g, b, a),
{
    lemma_chars_order_antisym(g.name_of(a), g.name_of(b), 0);
}

proof fn lemma_queue_le_trans(g: GraphView, a: usize, b: usize, c: usize)
    requires
        queue_le(g, a, b),
        queue_le(g, b, c),
    ensures
        queue_le(g, a, c),
{
    if depth_of(g, a) == depth_of(g, b) && depth_of(g, b) == depth_of(g, c) {
        lemma_chars_order_trans(g.name_of(a), g.name_of(b), g.name_of(c), 0);
    }
}

/// Nodes `a` and `b` are visited at the same point: neither comes first.
pub open spec fn queue_tied(g: GraphView, a: usize, b: usize) -> bool {
    queue_le(g, a, b) && queue_le(g, b, a)
}

/// The nodes of `s` tied with `x`, in their order in `s`.
pub open spec fn ties(g: GraphView, s: Seq<usize>, x: usize) -> Seq<usize> {
    s.filter(|y: usize| queue_tied(g, y, x))
}

proof fn lemma_insert_ties(g: GraphView, ov: Seq<usize>, p: int, x: usize, z: usize)
    requires
        0 <= p <= ov.len(),
        forall|k: int| p <= k < ov.len() ==> !queue_le(g, #[trigger] ov[k], x),
    ensures
        ties(g, ov.insert(p, x), z) == if queue_tied(g, x, z) {
            ties(g, ov, z).push(x)
        } else {
            ties(g, ov, z)
        },
{
    let f = |y: usize| queue_tied(g, y, z);
    let a = ov.take(p);
    let b = ov.skip(p);
    assert(ov.insert(p, x) =~= a + seq![x] + b);
    assert(ov =~= a + b);
    Seq::filter_distributes_over_add(a + seq![x], b, f);
    Seq::filter_distributes_over_add(a, seq![x], f);
    Seq::filter_distributes_over_add(a, b, f);
    assert(seq![x] =~= Seq::<usize>::empty().push(x));
    Seq::<usize>::empty().lemma_filter_push(x, f);
    assert(Seq::<usize>::empty().filter(f) =~= Seq::<usize>::empty()) by {
        Seq::<usize>::empty().lemma_filter_len(f);
    }
    if queue_tied(g, x, z) {
        assert forall|k: int| 0 <= k < b.len() implies !f(#[trigger] b[k]) by {
            assert(b[k] == ov[p + k]);
            if queue_tied(g, b[k], z) {
                lemma_queue_le_trans(g, b[k], z, x);
            }
        }
        b.lemma_all_neg_filter_empty(f);
        assert(b.filter(f) =~= Seq::<usize>::empty());
        assert(a.filter(f).push(x) =~= a.filter(f) + seq![x]);
        assert(ties(g, ov, z) =~= a.filter(f));
    }
}

/// The queue in visiting order: shallower nodes first, nodes at the same
/// depth by name, nodes that compare equal in the order they were queued.
pub fn sort_queue(graph: &Graph, q: &Vec<usize>) -> (res: Vec<usize>)
    requires
        graph@.wf(),
        forall|k: int| 0 <= k < q@.len() ==> graph@.has(#[trigger] q@[k]),
    ensures
        queue_sorted(graph@, res@),
        res@.to_multiset() == q@.to_multiset(),
        forall|x: usize| #[trigger] ties(graph@, res@, x) == ties(graph@, q@, x),
{
    broadcast use to_multiset_insert, to_multiset_build;

    let ghost g = graph@;
    let mut out: Vec<usize> = Vec::new();
    let mut i: usize = 0;
    assert(q@.take(0) =~= Seq::<usize>::empty());
    while i < q.len()
        invariant
            g == graph@,
            g.wf(),
            forall|k: int| 0 <= k < q@.len() ==> g.has(#[trigger] q@[k]),
            forall|k: int| 0 <= k < out@.len() ==> g.has(#[trigger] out@[k]),
            i <= q.len(),
            queue_sorted(g, out@),
            out@.to_multiset() == q@.take(i as int).to_multiset(),
            forall|z: usize| #[trigger] ties(g, out@, z) == ties(g, q@.take(i as int), z),
        decreases q.len() - i,
    {
        let x = q[i];
        assert(g.has(q@[i as int]));
        let dx = graph.depth(x);
        let ghost ov = out@;
        let mut p: usize = 0;
        loop
            invariant
                g == graph@,
                g.wf(),
                g.has(x),
                dx == depth_of(g, x),
                forall|k: int| 0 <= k < ov.len() ==> g.has(#[trigger] ov[k]),
                ov == out@,
                p <= out.len(),
                forall|k: int| 0 <= k < p ==> queue_le(g, #[trigger] ov[k], x),
            ensures
                p <= out.len(),
                forall|k: int| 0 <= k < p ==> queue_le(g, #[trigger] ov[k], x),
                p < out.len() ==> !queue_le(g, ov[p as int], x),
            decreases out.len() - p,
        {
            if p >= out.len() {
                break;
            }
            let y = out[p];
            assert(g.has(ov[p as int]));
            let dy = graph.depth(y);
            let le = dy < dx || (dy == dx && chars_order(&graph.node(y).package.name, &graph.node(x).package.name) <= 0);
            if !le {
                break;
            }
            p = p + 1;
        }
        proof {
            if p < out.len() {
                lemma_queue_le_total(g, ov[p as int], x);
                assert forall|k: int| p <= k < ov.len() implies queue_le(g, x, #[trigger] ov[k]) by {
                    if k > p {
                        assert(queue_le(g, ov[p as int], ov[k]));
                        if queue_le(g, ov[k], x) {
                            lemma_queue_le_trans(g, ov[p as int], ov[k], x);
                        }
                        lemma_queue_le_total(g, ov[k], x);
                    }
                }
            }
        }
        out.insert(p, x);
        proof {
            let nv = out@;
            assert(nv =~= ov.insert(p as int, x));
            assert forall|a: int, b: int| 0 <= a < b < nv.len() implies queue_le(g, #[trigger] nv[a], #[trigger] nv[b]) by {
                if b < p {
                    assert(nv[a] == ov[a] && nv[b] == ov[b]);
                } else if b == p {
                    assert(nv[a] == ov[a]);
                } else if a < p {
                    assert(nv[a] == ov[a] && nv[b] == ov[b - 1]);
                    lemma_queue_le_trans(g, ov[a], x, ov[b - 1]);
                } else if a == p {
                    assert(nv[b] == ov[b - 1]);
                } else {
                    assert(nv[a] == ov[a - 1] && nv[b] == ov[b - 1]);
                }
            }
            assert forall|k: int| 0 <= k < nv.len() implies g.has(#[trigger] nv[k]) by {
                if k < p {
                    assert(nv[k] == ov[k]);
                } else if k > p {
                    assert(nv[k] == ov[k - 1]);
                }
            }
            assert(q@.take(i + 1) =~= q@.take(i as int).push(x));
            to_multiset_insert(ov, p as int, x);
            to_multiset_build(q@.take(i as int), x);
            assert forall|k: int| p <= k < ov.len() implies !queue_le(g, #[trigger] ov[k], x) by {
                if k > p && queue_le(g, ov[k], x) {
                    lemma_queue_le_trans(g, ov[p as int], ov[k], x);
                }
            }
            assert forall|z: usize| #[trigger] ties(g, nv, z) == ties(g, q@.take(i + 1), z) by {
                lemma_insert_ties(g, ov, p as int, x, z);
                q@.take(i as int).lemma_filter_push(x, |y: usize| queue_tied(g, y, z));
                assert(ties(g, ov, z) == ties(g, q@.take(i as int), z));
            }
        }
        i = i + 1;
    }
    assert(q@.take(i as int) =~= q@);
    out
}

// ---------------------------------------------------------------------
// Locked installs
// ---------------------------------------------------------------------

/// Whether `b` has an entry under a key that is the same name as `e.0`,
/// describing the same package as `e.1`.
pub open spec fn has_same_entry(b: Seq<(Seq<char>, LockfileNodeView)>, e: (Seq<char>, LockfileNodeView)) -> bool {
    exists|j: int| 0 <= j < b.len() && same_name(#[trigger] b[j].0, e.0) && same_lock_entry(e.1, b[j].1)
}

/// Two package maps hold the same packages under the same keys. (Keys
/// occur once in each, so this is equality of the maps.)
pub open spec fn same_packages(a: Seq<(Seq<char>, LockfileNodeView)>, b: Seq<(Seq<char>, LockfileNodeView)>) -> bool {
    &&& a.len() == b.len()
    &&& forall|i: int| 0 <= i < a.len() ==> #[trigger] has_same_entry(b, a[i])
}

/// Two lockfiles record the same install: a lockfile of the given version,
/// root and packages, and another.
pub open spec fn same_lockfile(
    version: u64,
    root: LockfileNodeView,
    packages: Seq<(Seq<char>, LockfileNodeView)>,
    other: &Lockfile,
) -> bool {
    &&& version == other.version
    &&& same_lock_entry(root, other.root@)
    &&& same_packages(packages, entries_view(other.packages@))
}

/// A locked install is held to what its lockfile records: where two
/// lockfiles record the same install, the root and each package of the
/// first are recorded in the second (the package under a key that is the
/// same name) with a version that agrees and the same resolved tarball and
/// integrity.
pub proof fn lemma_same_lockfile_same_packages(
    version: u64,
    root: LockfileNodeView,
    packages: Seq<(Seq<char>, LockfileNodeView)>,
    other: &Lockfile,
    i: int,
)
    requires
        same_lockfile(version, root, packages, other),
        0 <= i < packages.len(),
    ensures
        versions_agree(root.version, other.root@.version),
        root.resolved == other.root@.resolved,
        root.integrity == other.root@.integrity,
        exists|j: int|
            0 <= j < entries_view(other.packages@).len() && same_name(
                #[trigger] entries_view(other.packages@)[j].0,
                packages[i].0,
            ) && versions_agree(packages[i].1.version, entries_view(other.packages@)[j].1.version)
                && packages[i].1.resolved == entries_view(other.packages@)[j].1.resolved && packages[i].1.integrity
                == entries_view(other.packages@)[j].1.integrity,
{
    let b = entries_view(other.packages@);
    lemma_same_entry_same_package(root, other.root@);
    assert(has_same_entry(b, packages[i]));
    let j = choose|j: int| 0 <= j < b.len() && same_name(#[trigger] b[j].0, packages[i].0) && same_lock_entry(packages[i].1, b[j].1);
    lemma_same_entry_same_package(packages[i].1, b[j].1);
}

impl Lockfile {
    fn has_entry(&self, key: &String, node: &LockfileNode) -> (res: bool)
        ensures
            res == has_same_entry(entries_view(self.packages@), (key@, node@)),
    {
        let ghost bv = entries_view(self.packages@);
        let mut j: usize = 0;
        while j < self.packages.entries.len()
            invariant
                j <= self.packages.entries.len(),
                bv == entries_view(self.packages@),
                forall|q: int| 0 <= q < j ==> !(same_name(#[trigger] bv[q].0, key@) && same_lock_entry(node@, bv[q].1)),
            decreases self.packages.entries.len() - j,
        {
            let e = &self.packages.entries[j];
            assert(bv[j as int] == (e.0@, e.1@));
            if names_match(&e.0, key) && node.same_entry(&e.1) {
                assert(same_name(bv[j as int].0, key@) && same_lock_entry(node@, bv[j as int].1));
                return true;
            }
            j = j + 1;
        }
        false
    }

    /// Whether two lockfiles record the same install: the same version,
    /// root entry and packages (`PartialEq` of `Lockfile`).
    pub fn matches(&self, other: &Lockfile) -> (res: bool)
        ensures
            res == same_lockfile(self.version, self.root@, entries_view(self.packages@), other),
    {
        let ghost av = entries_view(self.packages@);
        let ghost bv = entries_view(other.packages@);
        if self.version != other.version || !self.root.same_entry(&other.root) {
            return false;
        }
        if self.packages.entries.len() != other.packages.entries.len() {
            return false;
        }
        let mut i: usize = 0;
        while i < self.packages.entries.len()
            invariant
                i <= self.packages.entries.len(),
                av == entries_view(self.packages@),
                bv == entries_view(other.packages@),
                av.len() == bv.len(),
                forall|k: int| 0 <= k < i ==> #[trigger] has_same_entry(bv, av[k]),
            decreases self.packages.entries.len() - i,
        {
            let e = &self.packages.entries[i];
            assert(av[i as int] == (e.0@, e.1@));
            if !other.has_entry(&e.0, &e.1) {
                assert(!has_same_entry(bv, av[i as int]));
                return false;
            }
            i = i + 1;
        }
        true
    }
}

/// A locked install whose result differs from its lockfile.
#[derive(Debug)]
pub struct LockfileMismatch;

/// Checks a locked install: where `locked` is set and a lockfile was
/// given, the graph's lockfile must record the same install.
pub fn check_locked(locked: bool, lockfile: Option<&Lockfile>, graph: &Graph) -> (res: Result<(), LockfileMismatch>)
    requires
        graph@.wf(),
    ensures
        !(locked && lockfile is Some) ==> res is Ok,
        locked && lockfile is Some ==> (res is Ok <==> exists|s: Seq<usize>|
            increasing_indices(graph@, s) && same_lockfile(
                1,
                lockfile_node_of(graph@, graph@.root, true),
                lockfile_packages(graph@, s),
                lockfile.unwrap(),
            )),
{
    if !locked {
        return Ok(());
    }
    match lockfile {
        Some(l) => {
            let mine = graph.to_lockfile();
            let same = mine.matches(l);
            proof {
                let s = choose|s: Seq<usize>| increasing_indices(graph@, s) && entries_view(mine.packages@)
                    == lockfile_packages(graph@, s);
                assert forall|s2: Seq<usize>| increasing_indices(graph@, s2) implies s2 == s by {
                    lemma_increasing_unique(graph@, s, s2);
                }
            }
            if same {
                Ok(())
            } else {
                Err(LockfileMismatch)
            }
        },
        None => Ok(()),
    }
}

/// The increasing sequence of a graph's node indices is unique.
proof fn lemma_increasing_unique(g: GraphView, s: Seq<usize>, t: Seq<usize>)
    requires
        increasing_indices(g, s),
        increasing_indices(g, t),
    ensures
        s == t,
    decreases s.len(),
{
    // Both enumerate the same set without repetition, in the same order.
    assert forall|k: int| 0 <= k < s.len() && k < t.len() implies s[k] == t[k] by {
        lemma_increasing_position(g, s, t, k);
    }
    if s.len() < t.len() {
        assert(t.contains(t[s.len() as int]));
        assert(g.has(t[s.len() as int]));
        assert(s.contains(t[s.len() as int]));
        let j = choose|j: int| 0 <= j < s.len() && s[j] == t[s.len() as int];
        assert(s[j] == t[j]);
    } else if t.len() < s.len() {
        assert(s.contains(s[t.len() as int]));
        assert(t.contains(s[t.len() as int]));
        let j = choose|j: int| 0 <= j < t.len() && t[j] == s[t.len() as int];
        assert(s[j] == t[j]);
    }
    assert(s =~= t);
}

proof fn lemma_increasing_position(g: GraphView, s: Seq<usize>, t: Seq<usize>, k: int)
    requires
        increasing_indices(g, s),
        increasing_indices(g, t),
        0 <= k < s.len(),
        k < t.len(),
    ensures
        s[k] == t[k],
    decreases k,
{
    if k > 0 {
        lemma_increasing_position(g, s, t, k - 1);
    }
    // Elements of s below s[k] are exactly s[0..k]; the same for t.
    if s[k] < t[k] {
        assert(s.contains(s[k]));
        assert(t.contains(s[k]));
        let j = choose|j: int| 0 <= j < t.len() && t[j] == s[k];
        if j < k {
            lemma_increasing_position(g, s, t, j);
            assert(s[j] == t[j]);
        }
    } else if t[k] < s[k] {
        assert(t.contains(t[k]));
        assert(s.contains(t[k]));
        let j = choose|j: int| 0 <= j < s.len() && s[j] == t[k];
        if j < k {
            lemma_increasing_position(g, s, t, j);
            assert(s[j] == t[j]);
        }
    }
}

} // verus!
