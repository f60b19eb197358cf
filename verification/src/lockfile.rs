//! Finding nodes by their place in `node_modules/`, and describing the
//! graph as a lockfile.

use vstd::prelude::*;

use crate::graph::{node_path, strings_view, DepType, Edge, Graph, GraphView, Package};
use crate::names::{name_get, name_insert, names_match, same_name, NameMap};
use crate::resolution::{PackageResolution, ResolutionView};
use crate::semver::{Version, VersionView};
use crate::spec::{opt_string_view, PackageSpec, SpecView};
use crate::metadata::{clone_opt_string, opt_version_view};
use crate::error::joined_with;
use crate::graph::resolved_dep;
use crate::names::name_pos;
use crate::resolution::spec_satisfies;

verus! {

/// A path segment that names a `node_modules` directory.
pub open spec fn nm_seg(s: Seq<char>) -> bool {
    same_name(s, "node_modules"@)
}

/// A path segment that stands for the root directory.
pub open spec fn sep_seg(s: Seq<char>) -> bool {
    s == "/"@ || s == "\\"@
}

/// A path segment that is a package scope (`@scope`).
pub open spec fn scope_seg(s: Seq<char>) -> bool {
    s.len() > 0 && s[0] == '@'
}

/// Walks `segs` from segment `k` on, starting at node `cur`. `in_nm` says
/// whether the walk is inside a `node_modules` directory, `scope` holds a
/// scope segment waiting for its package name. Each package name moves to
/// the child of that name, and a name that the current node has no child
/// of means that nothing is installed there (`None`); the walk stops at
/// the first segment that is neither a `node_modules` directory nor a
/// package name right inside one.
pub open spec fn walk_path(
    g: GraphView,
    segs: Seq<Seq<char>>,
    k: int,
    cur: usize,
    in_nm: bool,
    scope: Option<Seq<char>>,
) -> Option<usize>
    decreases segs.len() - k,
{
    if k < 0 || k >= segs.len() {
        Some(cur)
    } else {
        let seg = segs[k];
        if (nm_seg(seg) && scope is None) || sep_seg(seg) {
            walk_path(g, segs, k + 1, cur, true, scope)
        } else if !in_nm {
            Some(cur)
        } else if scope_seg(seg) {
            walk_path(g, segs, k + 1, cur, in_nm, Some(seg))
        } else {
            let name = match scope {
                Some(sc) => sc + "/"@ + seg,
                None => seg,
            };
            match name_get(g.nodes[cur].children@, name) {
                Some(c) => walk_path(g, segs, k + 1, c, false, None),
                None => None,
            }
        }
    }
}

/// The node installed at the path `segs` (relative to the project root,
/// optionally starting with `node_modules`): none for the root itself, and
/// none where a package name on the path is not installed there.
pub open spec fn node_at(g: GraphView, segs: Seq<Seq<char>>) -> Option<usize> {
    match walk_path(g, segs, 0, g.root, true, None) {
        Some(r) => if r == g.root {
            None
        } else {
            Some(r)
        },
        None => None,
    }
}

fn is_separator(seg: &String) -> (res: bool)
    ensures
        res == sep_seg(seg@),
{
    proof {
        reveal_strlit("/");
        reveal_strlit("\\");
    }
    let s = seg.as_str();
    if s.unicode_len() != 1 {
        return false;
    }
    let c = s.get_char(0);
    if c == '/' {
        assert(s@ =~= "/"@);
        true
    } else if c == '\\' {
        assert(s@ =~= "\\"@);
        true
    } else {
        assert("/"@[0] == '/');
        assert("\\"@[0] == '\\');
        false
    }
}

fn is_scope(seg: &String) -> (res: bool)
    ensures
        res == scope_seg(seg@),
{
    let s = seg.as_str();
    s.unicode_len() > 0 && s.get_char(0) == '@'
}

impl Graph {
    /// The node installed at `path` (its segments, relative to the project
    /// root), if any; the root itself is not reported
    ///.
    pub fn node_at_path(&self, path: &Vec<String>) -> (res: Option<usize>)
        requires
            self@.wf(),
        ensures
            res == node_at(self@, strings_view(path@)),
            res matches Some(i) ==> self@.has(i),
    {
        let ghost g = self@;
        let ghost segs = strings_view(path@);
        let root = self.root();
        let nm = String::from_str("node_modules");
        let mut cur = root;
        let mut in_nm = true;
        let mut scope: Option<String> = None;
        let mut k: usize = 0;
        while k < path.len()
            invariant
                g == self@,
                g.wf(),
                g.has(cur),
                root == g.root,
                nm@ == "node_modules"@,
                segs == strings_view(path@),
                k <= path.len(),
                walk_path(g, segs, 0, g.root, true, None) == walk_path(
                    g,
                    segs,
                    k as int,
                    cur,
                    in_nm,
                    opt_string_view(scope),
                ),
            decreases path.len() - k,
        {
            let seg = &path[k];
            assert(segs[k as int] == seg@);
            if (scope.is_none() && names_match(seg, &nm)) || is_separator(seg) {
                in_nm = true;
            } else if !in_nm {
                return if cur == root { None } else { Some(cur) };
            } else if is_scope(seg) {
                scope = Some(seg.clone());
            } else {
                let n = self.node(cur);
                assert(g.node_ok(cur));
                match scope {
                    Some(sc) => {
                        let mut scoped = sc.clone();
                        scoped.append("/");
                        scoped.append(seg.as_str());
                        match n.children.get(&scoped) {
                            Some(c) => {
                                proof {
                                    crate::names::lemma_name_pos(n.children@, scoped@);
                                }
                                cur = *c;
                            },
                            None => {
                                return None;
                            },
                        }
                        in_nm = false;
                        scope = None;
                    },
                    None => {
                        match n.children.get(seg) {
                            Some(c) => {
                                proof {
                                    crate::names::lemma_name_pos(n.children@, seg@);
                                }
                                cur = *c;
                                in_nm = false;
                            },
                            None => {
                                return None;
                            },
                        }
                    },
                }
            }
            k = k + 1;
        }
        if cur == root {
            None
        } else {
            Some(cur)
        }
    }

    /// The package installed at `path`, if any.
    pub fn package_at_path(&self, path: &Vec<String>) -> (res: Option<Package>)
        requires
            self@.wf(),
        ensures
            node_at(self@, strings_view(path@)) matches Some(i) ==> res matches Some(p) && p@
                == self@.nodes[i].package@,
            node_at(self@, strings_view(path@)) is None ==> res is None,
    {
        match self.node_at_path(path) {
            Some(i) => Some(self.node(i).package.clone()),
            None => None,
        }
    }
}

/// One package of a lockfile.
#[derive(Debug)]
pub struct LockfileNode {
    pub name: String,
    pub is_root: bool,
    /// Package names from just below the root down to this package; for
    /// the root, its own name.
    pub path: Vec<String>,
    /// Where the package was resolved: its tarball URL, directory, or git
    /// source.
    pub resolved: Option<String>,
    /// The version of a registry package.
    pub version: Option<Version>,
    /// What each dependency asked for, by dependency kind, in the order the
    /// package lists its dependencies.
    pub dependencies: Vec<(String, PackageSpec)>,
    pub dev_dependencies: Vec<(String, PackageSpec)>,
    pub peer_dependencies: Vec<(String, PackageSpec)>,
    pub optional_dependencies: Vec<(String, PackageSpec)>,
    /// The integrity of a registry package, if known.
    pub integrity: Option<String>,
}

/// The mathematical value of a [`LockfileNode`].
pub struct LockfileNodeView {
    pub name: Seq<char>,
    pub is_root: bool,
    pub path: Seq<Seq<char>>,
    pub resolved: Option<Seq<char>>,
    pub version: Option<VersionView>,
    pub dependencies: Seq<(Seq<char>, SpecView)>,
    pub dev_dependencies: Seq<(Seq<char>, SpecView)>,
    pub peer_dependencies: Seq<(Seq<char>, SpecView)>,
    pub optional_dependencies: Seq<(Seq<char>, SpecView)>,
    pub integrity: Option<Seq<char>>,
}

pub open spec fn requests_view(s: Seq<(String, PackageSpec)>) -> Seq<(Seq<char>, SpecView)> {
    s.map_values(|e: (String, PackageSpec)| (e.0@, e.1@))
}

impl View for LockfileNode {
    type V = LockfileNodeView;

    open spec fn view(&self) -> LockfileNodeView {
        LockfileNodeView {
            name: self.name@,
            is_root: self.is_root,
            path: strings_view(self.path@),
            resolved: opt_string_view(self.resolved),
            version: opt_version_view(self.version),
            dependencies: requests_view(self.dependencies@),
            dev_dependencies: requests_view(self.dev_dependencies@),
            peer_dependencies: requests_view(self.peer_dependencies@),
            optional_dependencies: requests_view(self.optional_dependencies@),
            integrity: opt_string_view(self.integrity),
        }
    }
}

/// What the dependencies `deps` (name and edge) of kind `t` asked for, in
/// order.
pub open spec fn requests_of_kind(g: GraphView, deps: Seq<(Seq<char>, usize)>, t: DepType) -> Seq<(Seq<char>, SpecView)>
    decreases deps.len(),
{
    if deps.len() == 0 {
        Seq::empty()
    } else {
        let rest = requests_of_kind(g, deps.drop_last(), t);
        let e = g.edges[deps.last().1].2;
        if e.dep_type == t {
            rest.push((deps.last().0, e.requested@))
        } else {
            rest
        }
    }
}

/// Where a resolution points: a registry tarball's URL, a directory's path,
/// a git source.
pub open spec fn resolved_text(r: ResolutionView) -> Seq<char> {
    match r {
        ResolutionView::Npm { tarball, .. } => tarball,
        ResolutionView::Dir { path, .. } => path,
        ResolutionView::Git { info, .. } => info,
    }
}

/// The lockfile entry of node `i`.
pub open spec fn lockfile_node_of(g: GraphView, i: usize, is_root: bool) -> LockfileNodeView {
    let r = g.nodes[i].package.resolved@;
    let deps = g.nodes[i].dependencies@;
    LockfileNodeView {
        name: g.name_of(i),
        is_root,
        path: node_path(g, i),
        resolved: Some(resolved_text(r)),
        version: match r {
            ResolutionView::Npm { version, .. } => Some(version),
            _ => None,
        },
        dependencies: requests_of_kind(g, deps, DepType::Prod),
        dev_dependencies: requests_of_kind(g, deps, DepType::Dev),
        peer_dependencies: requests_of_kind(g, deps, DepType::Peer),
        optional_dependencies: requests_of_kind(g, deps, DepType::Opt),
        integrity: match r {
            ResolutionView::Npm { integrity, .. } => integrity,
            _ => None,
        },
    }
}

/// Every request in `list` is recorded by one of the dependencies `deps`
/// (name and edge) through an edge of kind `t`, with that name and what the
/// edge asked for; and every dependency of kind `t` in `deps` is listed.
pub open spec fn lists_kind(g: GraphView, deps: Seq<(Seq<char>, usize)>, list: Seq<(Seq<char>, SpecView)>, t: DepType) -> bool {
    &&& forall|k: int|
        0 <= k < list.len() ==> exists|j: int|
            #![trigger deps[j]]
            0 <= j < deps.len() && deps[j].0 == (#[trigger] list[k]).0 && g.edges[deps[j].1].2.dep_type == t
                && g.edges[deps[j].1].2.requested@ == list[k].1
    &&& forall|j: int|
        0 <= j < deps.len() && g.edges[(#[trigger] deps[j]).1].2.dep_type == t ==> list.contains(
            (deps[j].0, g.edges[deps[j].1].2.requested@),
        )
}

proof fn lemma_requests_of_kind_lists(g: GraphView, deps: Seq<(Seq<char>, usize)>, t: DepType)
    ensures
        lists_kind(g, deps, requests_of_kind(g, deps, t), t),
    decreases deps.len(),
{
    if deps.len() > 0 {
        let front = deps.drop_last();
        lemma_requests_of_kind_lists(g, front, t);
        let rest = requests_of_kind(g, front, t);
        let all = requests_of_kind(g, deps, t);
        let l = deps.len() - 1;
        let e = g.edges[deps.last().1].2;
        assert forall|k: int| 0 <= k < all.len() implies exists|j: int|
            #![trigger deps[j]]
            0 <= j < deps.len() && deps[j].0 == (#[trigger] all[k]).0 && g.edges[deps[j].1].2.dep_type == t
                && g.edges[deps[j].1].2.requested@ == all[k].1 by {
            if k < rest.len() {
                assert(all[k] == rest[k]);
                let j = choose|j: int|
                    #![trigger front[j]]
                    0 <= j < front.len() && front[j].0 == rest[k].0 && g.edges[front[j].1].2.dep_type == t
                        && g.edges[front[j].1].2.requested@ == rest[k].1;
                assert(deps[j] == front[j]);
            } else {
                assert(all[k] == (deps[l].0, e.requested@));
                assert(deps[l] == deps.last());
            }
        }
        assert forall|j: int|
            0 <= j < deps.len() && g.edges[(#[trigger] deps[j]).1].2.dep_type == t implies all.contains(
            (deps[j].0, g.edges[deps[j].1].2.requested@),
        ) by {
            if j < l {
                assert(deps[j] == front[j]);
                assert(rest.contains((front[j].0, g.edges[front[j].1].2.requested@)));
                let k = choose|k: int| 0 <= k < rest.len() && rest[k] == (front[j].0, g.edges[front[j].1].2.requested@);
                assert(all[k] == rest[k]);
            } else {
                assert(all[rest.len() as int] == (deps[l].0, e.requested@));
            }
        }
    }
}

/// Each kind of request in a lockfile entry comes from the node's
/// dependencies of that kind and no other: `dependencies` lists exactly its
/// production dependencies, `dev_dependencies` its dev dependencies,
/// `peer_dependencies` its peer dependencies and `optional_dependencies`
/// its optional ones, each with the name and the request of its edge.
pub proof fn lemma_lock_entry_kinds(g: GraphView, i: usize, is_root: bool)
    ensures
        lists_kind(g, g.nodes[i].dependencies@, lockfile_node_of(g, i, is_root).dependencies, DepType::Prod),
        lists_kind(g, g.nodes[i].dependencies@, lockfile_node_of(g, i, is_root).dev_dependencies, DepType::Dev),
        lists_kind(g, g.nodes[i].dependencies@, lockfile_node_of(g, i, is_root).peer_dependencies, DepType::Peer),
        lists_kind(g, g.nodes[i].dependencies@, lockfile_node_of(g, i, is_root).optional_dependencies, DepType::Opt),
{
    let deps = g.nodes[i].dependencies@;
    lemma_requests_of_kind_lists(g, deps, DepType::Prod);
    lemma_requests_of_kind_lists(g, deps, DepType::Dev);
    lemma_requests_of_kind_lists(g, deps, DepType::Peer);
    lemma_requests_of_kind_lists(g, deps, DepType::Opt);
}

impl Graph {
    /// The lockfile entry of node `i`.
    pub fn node_lockfile_node(&self, i: usize, is_root: bool) -> (res: LockfileNode)
        requires
            self@.wf(),
            self@.has(i),
        ensures
            res@ == lockfile_node_of(self@, i, is_root),
    {
        let ghost g = self@;
        let path = self.node_path(i);
        let node = self.node(i);
        assert(g.node_ok(i));
        let (resolved, version, integrity) = match &node.package.resolved {
            PackageResolution::Npm { tarball, version, integrity, .. } => (
                tarball.clone(),
                Some(version.clone()),
                clone_opt_string(integrity),
            ),
            PackageResolution::Dir { path, .. } => (path.clone(), None, None),
            PackageResolution::Git { info, .. } => (info.clone(), None, None),
        };
        let mut prod: Vec<(String, PackageSpec)> = Vec::new();
        let mut dev: Vec<(String, PackageSpec)> = Vec::new();
        let mut peer: Vec<(String, PackageSpec)> = Vec::new();
        let mut opt: Vec<(String, PackageSpec)> = Vec::new();
        let ghost deps = node.dependencies@;
        let mut k: usize = 0;
        while k < node.dependencies.entries.len()
            invariant
                g == self@,
                g.wf(),
                g.has(i),
                g.node_ok(i),
                *node == g.nodes[i],
                deps == node.dependencies@,
                k <= deps.len(),
                requests_view(prod@) == requests_of_kind(g, deps.take(k as int), DepType::Prod),
                requests_view(dev@) == requests_of_kind(g, deps.take(k as int), DepType::Dev),
                requests_view(peer@) == requests_of_kind(g, deps.take(k as int), DepType::Peer),
                requests_view(opt@) == requests_of_kind(g, deps.take(k as int), DepType::Opt),
            decreases deps.len() - k,
        {
            let entry = &node.dependencies.entries[k];
            assert(deps[k as int] == (entry.0@, entry.1));
            assert(g.edges.dom().contains(deps[k as int].1));
            let edge = self.edge(entry.1);
            let item = (entry.0.clone(), edge.requested.clone());
            let ghost pre = deps.take(k as int);
            assert(deps.take(k + 1).drop_last() =~= pre);
            assert(deps.take(k + 1).last() == deps[k as int]);
            match edge.dep_type {
                DepType::Prod => {
                    let ghost before = prod@;
                    prod.push(item);
                    assert(requests_view(prod@) =~= requests_view(before).push((entry.0@, edge.requested@)));
                },
                DepType::Dev => {
                    let ghost before = dev@;
                    dev.push(item);
                    assert(requests_view(dev@) =~= requests_view(before).push((entry.0@, edge.requested@)));
                },
                DepType::Peer => {
                    let ghost before = peer@;
                    peer.push(item);
                    assert(requests_view(peer@) =~= requests_view(before).push((entry.0@, edge.requested@)));
                },
                DepType::Opt => {
                    let ghost before = opt@;
                    opt.push(item);
                    assert(requests_view(opt@) =~= requests_view(before).push((entry.0@, edge.requested@)));
                },
            }
            k = k + 1;
        }
        assert(deps.take(k as int) =~= deps);
        LockfileNode {
            name: node.package.name.clone(),
            is_root,
            path,
            resolved: Some(resolved),
            version,
            dependencies: prod,
            dev_dependencies: dev,
            peer_dependencies: peer,
            optional_dependencies: opt,
            integrity,
        }
    }
}

/// `parts` joined with `sep` between them.
pub fn join_with(parts: &Vec<String>, sep: &str) -> (res: String)
    ensures
        res@ == joined_with(strings_view(parts@), sep@),
{
    let ghost all = strings_view(parts@);
    let mut out = String::new();
    let mut i: usize = 0;
    while i < parts.len()
        invariant
            i <= parts.len(),
            all == strings_view(parts@),
            out@ == joined_with(all.take(i as int), sep@),
        decreases parts.len() - i,
    {
        if i > 0 {
            out.append(sep);
        }
        out.append(parts[i].as_str());
        proof {
            assert(all.take(i + 1).drop_last() =~= all.take(i as int));
            if i == 0 {
                assert(all.take(1).len() == 1);
                assert(out@ =~= all.take(1)[0]);
            }
        }
        i = i + 1;
    }
    assert(all.take(i as int) =~= all);
    out
}

/// A lockfile: the root package and every other package by its path in
/// `node_modules/`.
#[derive(Debug)]
pub struct Lockfile {
    pub version: u64,
    pub root: LockfileNode,
    /// Packages keyed by their path (the names of their `path` joined by
    /// `/node_modules/`), compared ignoring case.
    pub packages: NameMap<LockfileNode>,
}

pub open spec fn entries_view(m: Seq<(Seq<char>, LockfileNode)>) -> Seq<(Seq<char>, LockfileNodeView)> {
    m.map_values(|e: (Seq<char>, LockfileNode)| (e.0, e.1@))
}

/// The key of a package in a lockfile.
pub open spec fn lockfile_key(g: GraphView, i: usize) -> Seq<char> {
    joined_with(node_path(g, i), "/node_modules/"@)
}

/// The packages entries after visiting the nodes `idxs` in order: each
/// node but the root is stored under its key, a later one replacing an
/// earlier one with the same key.
pub open spec fn lockfile_packages(g: GraphView, idxs: Seq<usize>) -> Seq<(Seq<char>, LockfileNodeView)>
    decreases idxs.len(),
{
    if idxs.len() == 0 {
        Seq::empty()
    } else {
        let rest = lockfile_packages(g, idxs.drop_last());
        let i = idxs.last();
        if i == g.root {
            rest
        } else {
            name_insert(rest, lockfile_key(g, i), lockfile_node_of(g, i, false))
        }
    }
}

/// The node indices of `g`, each once, in increasing order.
pub open spec fn increasing_indices(g: GraphView, s: Seq<usize>) -> bool {
    &&& forall|i: usize| s.contains(i) <==> g.has(i)
    &&& forall|a: int, b: int| 0 <= a < b < s.len() ==> s[a] < s[b]
}

proof fn lemma_name_pos_upto_entries(m: Seq<(Seq<char>, LockfileNode)>, k: Seq<char>, n: int)
    ensures
        crate::names::name_pos_upto(entries_view(m), k, n) == crate::names::name_pos_upto(m, k, n),
    decreases n,
{
    if n > 0 && n <= m.len() {
        lemma_name_pos_upto_entries(m, k, n - 1);
    }
}

proof fn lemma_insert_entries(m: Seq<(Seq<char>, LockfileNode)>, k: Seq<char>, v: LockfileNode)
    ensures
        entries_view(name_insert(m, k, v)) == name_insert(entries_view(m), k, v@),
{
    lemma_name_pos_upto_entries(m, k, m.len() as int);
    match name_pos(m, k) {
        Some(i) => {
            crate::names::lemma_name_pos(m, k);
            assert(entries_view(name_insert(m, k, v)) =~= name_insert(entries_view(m), k, v@));
        },
        None => {
            assert(entries_view(name_insert(m, k, v)) =~= name_insert(entries_view(m), k, v@));
        },
    }
}

/// Looking a key up in a lockfile's packages gives the view of what a
/// lookup in their views gives.
pub proof fn lemma_get_entries(m: Seq<(Seq<char>, LockfileNode)>, k: Seq<char>)
    ensures
        name_get(m, k) matches Some(v) ==> name_get(entries_view(m), k) == Some(v@),
        name_get(m, k) is None ==> name_get(entries_view(m), k) is None,
{
    lemma_name_pos_upto_entries(m, k, m.len() as int);
    crate::names::lemma_name_pos(m, k);
}

/// How a dependency fails to be met in the hierarchy.
#[derive(Debug)]
pub enum GraphValidationError {
    /// Node `dependent`'s dependency `name` resolves to no node.
    Unreachable { dependent: usize, name: String },
    /// Node `dependent`'s dependency `name` resolves to node `dependency`,
    /// whose resolution does not satisfy what was asked for.
    Unsatisfied { dependent: usize, name: String, dependency: usize },
}

/// Whether dependency `k` of node `i` resolves to a node that satisfies it.
pub open spec fn dep_met(g: GraphView, i: usize, k: int) -> bool {
    let (name, e) = g.nodes[i].dependencies@[k];
    match resolved_dep(g, i, name) {
        Some(d) => spec_satisfies(g.nodes[d].package.resolved@, g.edges[e].2.requested@),
        None => false,
    }
}

/// Whether every dependency of every node is met.
pub open spec fn all_deps_met(g: GraphView) -> bool {
    forall|i: usize, k: int| g.has(i) && 0 <= k < g.nodes[i].dependencies@.len() ==> #[trigger] dep_met(g, i, k)
}

/// Dependency `k` of node `i` is the first unmet one: every dependency of
/// every node with a smaller index is met, and so is every dependency of
/// node `i` before `k`, but `k` is not.
pub open spec fn first_unmet(g: GraphView, i: usize, k: int) -> bool {
    &&& g.has(i)
    &&& 0 <= k < g.nodes[i].dependencies@.len()
    &&& !dep_met(g, i, k)
    &&& forall|q: int| 0 <= q < k ==> #[trigger] dep_met(g, i, q)
    &&& forall|a: usize, q: int|
        g.has(a) && a < i && 0 <= q < g.nodes[a].dependencies@.len() ==> #[trigger] dep_met(g, a, q)
}

impl Graph {
    /// The graph as a lockfile.
    pub fn to_lockfile(&self) -> (res: Lockfile)
        requires
            self@.wf(),
        ensures
            res.version == 1,
            res.root@ == lockfile_node_of(self@, self@.root, true),
            exists|s: Seq<usize>| increasing_indices(self@, s) && entries_view(res.packages@) == lockfile_packages(self@, s),
    {
        let ghost g = self@;
        let root = self.node_lockfile_node(self.root(), true);
        let idxs = self.node_indices();
        let mut packages: NameMap<LockfileNode> = NameMap::new();
        let mut j: usize = 0;
        while j < idxs.len()
            invariant
                g == self@,
                g.wf(),
                j <= idxs.len(),
                forall|i: usize| idxs@.contains(i) <==> g.has(i),
                entries_view(packages@) == lockfile_packages(g, idxs@.take(j as int)),
            decreases idxs.len() - j,
        {
            let i = idxs[j];
            assert(idxs@.contains(i));
            assert(idxs@.take(j + 1).drop_last() =~= idxs@.take(j as int));
            if i != self.root() {
                let node = self.node_lockfile_node(i, false);
                let key = join_with(&node.path, "/node_modules/");
                proof {
                    lemma_insert_entries(packages@, key@, node);
                }
                packages.insert(key, node);
            }
            j = j + 1;
        }
        assert(idxs@.take(j as int) =~= idxs@);
        Lockfile { version: 1, root, packages }
    }

    /// Checks that every dependency of every node resolves, through the
    /// hierarchy, to a package that satisfies it.
    pub fn validate(&self) -> (res: Result<(), GraphValidationError>)
        requires
            self@.wf(),
        ensures
            res is Ok <==> all_deps_met(self@),
            match res {
                Ok(()) => true,
                Err(GraphValidationError::Unreachable { dependent, name }) => exists|k: int|
                    #[trigger] first_unmet(self@, dependent, k) && self@.nodes[dependent].dependencies@[k].0 == name@
                        && resolved_dep(self@, dependent, name@) is None,
                Err(GraphValidationError::Unsatisfied { dependent, name, dependency }) => exists|k: int|
                    #[trigger] first_unmet(self@, dependent, k) && self@.nodes[dependent].dependencies@[k].0 == name@
                        && resolved_dep(self@, dependent, name@) == Some(dependency),
            },
    {
        let ghost g = self@;
        let idxs = self.node_indices();
        let mut j: usize = 0;
        while j < idxs.len()
            invariant
                g == self@,
                g.wf(),
                j <= idxs.len(),
                forall|i: usize| idxs@.contains(i) <==> g.has(i),
                forall|a: int, b: int| 0 <= a < b < idxs@.len() ==> idxs@[a] < idxs@[b],
                forall|a: int, k: int| 0 <= a < j && 0 <= k < g.nodes[idxs@[a]].dependencies@.len()
                    ==> #[trigger] dep_met(g, idxs@[a], k),
            decreases idxs.len() - j,
        {
            let i = idxs[j];
            proof {
                assert forall|a: usize, q: int|
                    g.has(a) && a < i && 0 <= q < g.nodes[a].dependencies@.len() implies #[trigger] dep_met(g, a, q) by {
                    assert(idxs@.contains(a));
                    let b = idxs@.index_of(a);
                    assert(idxs@[b] == a);
                    if b >= j {
                        if b > j {
                            assert(idxs@[j as int] < idxs@[b]);
                        }
                    }
                    assert(b < j);
                }
            }
            assert(idxs@.contains(i));
            assert(g.has(i));
            let node = self.node(i);
            assert(g.node_ok(i));
            let mut k: usize = 0;
            while k < node.dependencies.entries.len()
                invariant
                    g == self@,
                    g.wf(),
                    g.has(i),
                    g.node_ok(i),
                    *node == g.nodes[i],
                    k <= g.nodes[i].dependencies@.len(),
                    forall|q: int| 0 <= q < k ==> #[trigger] dep_met(g, i, q),
                    forall|a: usize, q: int|
                        g.has(a) && a < i && 0 <= q < g.nodes[a].dependencies@.len() ==> #[trigger] dep_met(g, a, q),
                decreases node.dependencies.entries.len() - k,
            {
                let entry = &node.dependencies.entries[k];
                assert(g.nodes[i].dependencies@[k as int] == (entry.0@, entry.1));
                assert(g.edges.dom().contains(g.nodes[i].dependencies@[k as int].1));
                match self.resolve_dep(i, &entry.0) {
                    Some(d) => {
                        let edge = self.edge(entry.1);
                        if !self.node(d).package.resolved.satisfies_canonical(&edge.requested) {
                            assert(!dep_met(g, i, k as int));
                            assert(first_unmet(g, i, k as int) && g.nodes[i].dependencies@[k as int].0 == entry.0@
                                && resolved_dep(g, i, entry.0@) == Some(d));
                            let name = entry.0.clone();
                            assert(name@ == entry.0@);
                            assert(!all_deps_met(g));
                            let res = Err(GraphValidationError::Unsatisfied { dependent: i, name, dependency: d });
                            assert(res matches Err(GraphValidationError::Unsatisfied { dependent, name, dependency })
                                && exists|k: int| #[trigger] first_unmet(self@, dependent, k)
                                && self@.nodes[dependent].dependencies@[k].0 == name@ && resolved_dep(
                                self@,
                                dependent,
                                name@,
                            ) == Some(dependency));
                            return res;
                        }
                    },
                    None => {
                        assert(!dep_met(g, i, k as int));
                        assert(first_unmet(g, i, k as int) && g.nodes[i].dependencies@[k as int].0 == entry.0@
                            && resolved_dep(g, i, entry.0@) is None);
                        let name = entry.0.clone();
                        assert(name@ == entry.0@);
                        assert(!all_deps_met(g));
                        let res = Err(GraphValidationError::Unreachable { dependent: i, name });
                        assert(res matches Err(GraphValidationError::Unreachable { dependent, name }) && exists|k: int|
                            #[trigger] first_unmet(self@, dependent, k) && self@.nodes[dependent].dependencies@[k].0
                                == name@ && resolved_dep(self@, dependent, name@) is None);
                        return res;
                    },
                }
                assert(dep_met(g, i, k as int));
                k = k + 1;
            }
            assert forall|a: int, q: int| 0 <= a < j + 1 && 0 <= q < g.nodes[idxs@[a]].dependencies@.len()
                implies #[trigger] dep_met(g, idxs@[a], q) by {
                if a == j {
                    assert(idxs@[a] == i);
                }
            }
            j = j + 1;
        }
        assert forall|i: usize, k: int| g.has(i) && 0 <= k < g.nodes[i].dependencies@.len() implies #[trigger] dep_met(g, i, k) by {
            assert(idxs@.contains(i));
            let a = idxs@.index_of(i);
            assert(idxs@[a] == i);
            assert(dep_met(g, idxs@[a], k));
        }
        Ok(())
    }
}

} // verus!
