//! Where packages go on disk and what pruning keeps: the hoisted layout
//! (`node_modules/a/node_modules/b`) and the isolated one (a content store
//! with links), and the lockfile comparison that decides whether an
//! installed package is still the one wanted.

use vstd::prelude::*;

use crate::error::joined_with;
use crate::graph::{node_path, strings_view, Graph, GraphView};
use crate::integrity::{sha256_hex, sha256_hex_of};
use crate::lockfile::{join_with, lockfile_node_of, node_at, Lockfile, LockfileNode, LockfileNodeView};
use crate::metadata::opt_version_view;
use crate::names::{name_get, names_match, same_name, NameMap};
use crate::paths::{join_path, link_target, link_text, path_join};
use crate::semver::{same_version, Version, VersionView};
use crate::spec::{opt_string_view, PackageSpec, SpecView, VersionSpec, VersionSpecView};

verus! {

/// The name of the store directory of the isolated layout, inside
/// `node_modules/`.
pub open spec fn store_dir_name() -> Seq<char> {
    ".oro-store"@
}

// ---------------------------------------------------------------------
// Comparing lockfile entries
// ---------------------------------------------------------------------

/// Two requests ask for the same thing: the same kind, with equal texts,
/// versions equal as versions, and ranges equal as parsed ranges.
pub open spec fn same_request(a: SpecView, b: SpecView) -> bool
    decreases a,
{
    match (a, b) {
        (SpecView::Dir { path: p }, SpecView::Dir { path: q }) => p == q,
        (SpecView::Git { info: p }, SpecView::Git { info: q }) => p == q,
        (
            SpecView::Npm { scope: s1, name: n1, requested: r1 },
            SpecView::Npm { scope: s2, name: n2, requested: r2 },
        ) => s1 == s2 && n1 == n2 && match (r1, r2) {
            (None, None) => true,
            (Some(VersionSpecView::Tag(t)), Some(VersionSpecView::Tag(u))) => t == u,
            (Some(VersionSpecView::Range(t)), Some(VersionSpecView::Range(u))) => crate::semver::ranges_equal(t, u),
            (Some(VersionSpecView::Version(v)), Some(VersionSpecView::Version(w))) => same_version(v, w),
            _ => false,
        },
        (SpecView::Alias { name: n1, spec: s1 }, SpecView::Alias { name: n2, spec: s2 }) => n1 == n2
            && same_request(*s1, *s2),
        _ => false,
    }
}

fn opt_strings_equal(a: &Option<String>, b: &Option<String>) -> (res: bool)
    ensures
        res == (opt_string_view(*a) == opt_string_view(*b)),
{
    match (a, b) {
        (Some(x), Some(y)) => *x == *y,
        (None, None) => true,
        _ => false,
    }
}

/// Whether two requests ask for the same thing (see [`same_request`]).
pub fn requests_match(a: &PackageSpec, b: &PackageSpec) -> (res: bool)
    ensures
        res == same_request(a@, b@),
    decreases a,
{
    match (a, b) {
        (PackageSpec::Dir { path: p }, PackageSpec::Dir { path: q }) => *p == *q,
        (PackageSpec::Git { info: p }, PackageSpec::Git { info: q }) => *p == *q,
        (
            PackageSpec::Npm { scope: s1, name: n1, requested: r1 },
            PackageSpec::Npm { scope: s2, name: n2, requested: r2 },
        ) => {
            if !opt_strings_equal(s1, s2) || *n1 != *n2 {
                return false;
            }
            match (r1, r2) {
                (None, None) => true,
                (Some(VersionSpec::Tag(t)), Some(VersionSpec::Tag(u))) => *t == *u,
                (Some(VersionSpec::Range(t)), Some(VersionSpec::Range(u))) => t.same_range(u),
                (Some(VersionSpec::Version(v)), Some(VersionSpec::Version(w))) => v.same(w),
                _ => false,
            }
        },
        (PackageSpec::Alias { name: n1, spec: s1 }, PackageSpec::Alias { name: n2, spec: s2 }) => {
            *n1 == *n2 && requests_match(&**s1, &**s2)
        },
        _ => false,
    }
}

/// Whether `b` names dependency `e.0` with a request that asks for the
/// same thing as `e.1`.
pub open spec fn has_same(b: Seq<(Seq<char>, SpecView)>, e: (Seq<char>, SpecView)) -> bool {
    exists|j: int| 0 <= j < b.len() && #[trigger] b[j].0 == e.0 && same_request(e.1, b[j].1)
}

/// Two dependency lists name the same dependencies with the same
/// requests, in any order. (Each list names a dependency at most once, so
/// this is equality of the maps they stand for.)
pub open spec fn same_requests(a: Seq<(Seq<char>, SpecView)>, b: Seq<(Seq<char>, SpecView)>) -> bool {
    &&& a.len() == b.len()
    &&& forall|i: int| 0 <= i < a.len() ==> #[trigger] has_same(b, a[i])
}

fn has_request(b: &Vec<(String, PackageSpec)>, name: &String, spec: &PackageSpec) -> (res: bool)
    ensures
        res == has_same(crate::lockfile::requests_view(b@), (name@, spec@)),
{
    let ghost bv = crate::lockfile::requests_view(b@);
    let mut j: usize = 0;
    while j < b.len()
        invariant
            j <= b.len(),
            bv == crate::lockfile::requests_view(b@),
            forall|q: int| 0 <= q < j ==> !(#[trigger] bv[q].0 == name@ && same_request(spec@, bv[q].1)),
        decreases b.len() - j,
    {
        assert(bv[j as int] == (b@[j as int].0@, b@[j as int].1@));
        if b[j].0 == *name && requests_match(spec, &b[j].1) {
            assert(bv[j as int].0 == name@ && same_request(spec@, bv[j as int].1));
            return true;
        }
        j = j + 1;
    }
    false
}

fn requests_lists_match(a: &Vec<(String, PackageSpec)>, b: &Vec<(String, PackageSpec)>) -> (res: bool)
    ensures
        res == same_requests(crate::lockfile::requests_view(a@), crate::lockfile::requests_view(b@)),
{
    let ghost av = crate::lockfile::requests_view(a@);
    let ghost bv = crate::lockfile::requests_view(b@);
    if a.len() != b.len() {
        return false;
    }
    let mut i: usize = 0;
    while i < a.len()
        invariant
            i <= a.len(),
            a.len() == b.len(),
            av == crate::lockfile::requests_view(a@),
            bv == crate::lockfile::requests_view(b@),
            forall|k: int| 0 <= k < i ==> #[trigger] has_same(bv, av[k]),
        decreases a.len() - i,
    {
        assert(av[i as int] == (a@[i as int].0@, a@[i as int].1@));
        if !has_request(b, &a[i].0, &a[i].1) {
            assert(!has_same(bv, av[i as int]));
            return false;
        }
        i = i + 1;
    }
    true
}

/// Two optional versions are equal as versions.
pub open spec fn same_opt_version(a: Option<VersionView>, b: Option<VersionView>) -> bool {
    match (a, b) {
        (Some(v), Some(w)) => same_version(v, w),
        (None, None) => true,
        _ => false,
    }
}

/// Two paths name the same packages, ignoring case.
pub open spec fn same_path(a: Seq<Seq<char>>, b: Seq<Seq<char>>) -> bool {
    a.len() == b.len() && forall|i: int| 0 <= i < a.len() ==> same_name(#[trigger] a[i], b[i])
}

/// Two lockfile entries describe the same installed package: names and
/// paths equal ignoring case, versions equal as versions, dependencies
/// the same maps, everything else equal.
pub open spec fn same_lock_entry(a: LockfileNodeView, b: LockfileNodeView) -> bool {
    &&& same_name(a.name, b.name)
    &&& a.is_root == b.is_root
    &&& same_path(a.path, b.path)
    &&& a.resolved == b.resolved
    &&& same_opt_version(a.version, b.version)
    &&& same_requests(a.dependencies, b.dependencies)
    &&& same_requests(a.dev_dependencies, b.dev_dependencies)
    &&& same_requests(a.peer_dependencies, b.peer_dependencies)
    &&& same_requests(a.optional_dependencies, b.optional_dependencies)
    &&& a.integrity == b.integrity
}

/// The versions of two entries agree: both have none, or both have one and
/// the two have the same numbers and prerelease identifiers.
pub open spec fn versions_agree(a: Option<VersionView>, b: Option<VersionView>) -> bool {
    match (a, b) {
        (Some(v), Some(w)) => v.major == w.major && v.minor == w.minor && v.patch == w.patch && v.pre_release
            == w.pre_release,
        (None, None) => true,
        _ => false,
    }
}

/// Two entries count as the same installed package only where they record
/// the same package: versions that agree, the same resolved tarball (or
/// source) and the same integrity.
pub proof fn lemma_same_entry_same_package(a: LockfileNodeView, b: LockfileNodeView)
    requires
        same_lock_entry(a, b),
    ensures
        versions_agree(a.version, b.version),
        a.resolved == b.resolved,
        a.integrity == b.integrity,
{
}

fn paths_same(a: &Vec<String>, b: &Vec<String>) -> (res: bool)
    ensures
        res == same_path(strings_view(a@), strings_view(b@)),
{
    if a.len() != b.len() {
        return false;
    }
    let mut i: usize = 0;
    while i < a.len()
        invariant
            i <= a.len(),
            a.len() == b.len(),
            forall|k: int| 0 <= k < i ==> same_name(#[trigger] strings_view(a@)[k], strings_view(b@)[k]),
        decreases a.len() - i,
    {
        if !names_match(&a[i], &b[i]) {
            assert(!same_name(strings_view(a@)[i as int], strings_view(b@)[i as int]));
            return false;
        }
        i = i + 1;
    }
    true
}

impl LockfileNode {
    /// Whether two entries describe the same installed package (see
    /// [`same_lock_entry`]).
    pub fn same_entry(&self, other: &LockfileNode) -> (res: bool)
        ensures
            res == same_lock_entry(self@, other@),
    {
        let versions_same = match (&self.version, &other.version) {
            (Some(v), Some(w)) => v.same(w),
            (None, None) => true,
            _ => false,
        };
        names_match(&self.name, &other.name) && self.is_root == other.is_root && paths_same(
            &self.path,
            &other.path,
        ) && opt_strings_equal(&self.resolved, &other.resolved) && versions_same
            && requests_lists_match(&self.dependencies, &other.dependencies) && requests_lists_match(
            &self.dev_dependencies,
            &other.dev_dependencies,
        ) && requests_lists_match(&self.peer_dependencies, &other.peer_dependencies)
            && requests_lists_match(&self.optional_dependencies, &other.optional_dependencies)
            && opt_strings_equal(&self.integrity, &other.integrity)
    }
}

// ---------------------------------------------------------------------
// Hoisted layout
// ---------------------------------------------------------------------

/// Where node `i` is installed below `node_modules/`: its path joined by
/// `/node_modules/`.
pub open spec fn hoisted_subdir(g: GraphView, i: usize) -> Seq<char> {
    joined_with(node_path(g, i), "/node_modules/"@)
}

impl Graph {
    /// Where node `i` is installed below `node_modules/` in the hoisted
    /// layout.
    pub fn hoisted_subdir(&self, i: usize) -> (res: String)
        requires
            self@.wf(),
            self@.has(i),
        ensures
            res@ == hoisted_subdir(self@, i),
    {
        let path = self.node_path(i);
        join_with(&path, "/node_modules/")
    }
}

impl Graph {
    /// Where node `i`'s scripts run in the hoisted layout below the project
    /// directory `root`, and the workspace they run in: the
    /// project directory for the root, else its directory below
    /// `node_modules`; the workspace is the project directory.
    pub fn hoisted_package_dir(&self, root: &str, i: usize) -> (res: (String, String))
        requires
            self@.wf(),
            self@.has(i),
        ensures
            res.0@ == (if i == self@.root {
                root@
            } else {
                path_join(path_join(root@, "node_modules"@), hoisted_subdir(self@, i))
            }),
            res.1@ == root@,
    {
        if i == self.root() {
            (root.to_string(), root.to_string())
        } else {
            proof {
                reveal_strlit("node_modules");
            }
            let nm = join_path(root, "node_modules");
            let sub = self.hoisted_subdir(i);
            (join_path(nm.as_str(), sub.as_str()), root.to_string())
        }
    }
}

/// The `.bin` directory that a package's executables are linked into,
/// given the package directory's path segments: that of the
/// `node_modules` directory holding it, also for a scoped package.
pub open spec fn bin_dir_of(dir: Seq<Seq<char>>) -> Seq<Seq<char>> {
    let parent = dir.drop_last();
    if parent.last() == "node_modules"@ {
        parent.push(".bin"@)
    } else {
        parent.drop_last().push(".bin"@)
    }
}

/// The `.bin` directory for the package directory `dir` (its path
/// segments, at least two: `node_modules` and the package name).
pub fn bin_dir(dir: &Vec<String>) -> (res: Vec<String>)
    requires
        dir.len() >= 2,
    ensures
        strings_view(res@) == bin_dir_of(strings_view(dir@)),
{
    let ghost d = strings_view(dir@);
    let mut out: Vec<String> = Vec::new();
    let n = dir.len() - 1;
    let parent_is_nm = dir[n - 1] == String::from_str("node_modules");
    let keep = if parent_is_nm { n } else { n - 1 };
    let mut i: usize = 0;
    while i < keep
        invariant
            i <= keep,
            keep <= n,
            n == dir.len() - 1,
            d == strings_view(dir@),
            strings_view(out@) == d.take(i as int),
        decreases keep - i,
    {
        let ghost before = strings_view(out@);
        out.push(dir[i].clone());
        assert(d[i as int] == dir@[i as int]@);
        assert(strings_view(out@) =~= before.push(d[i as int]));
        assert(strings_view(out@) =~= d.take(i + 1));
        i = i + 1;
    }
    out.push(String::from_str(".bin"));
    proof {
        let parent = d.drop_last();
        assert(parent.last() == dir@[n - 1]@);
        if parent_is_nm {
            assert(d.take(keep as int) =~= parent);
        } else {
            assert(d.take(keep as int) =~= parent.drop_last());
        }
    }
    out
}

/// What pruning does with an entry of `node_modules/`.
#[derive(Debug, Clone, Copy, PartialEq, Eq)]
pub enum PruneStep {
    /// Leave it, and do not look inside.
    Skip,
    /// Leave it, and look inside.
    Enter,
    /// Delete it: an extraneous package.
    Remove,
}

/// Whether the package at `subpath` (below `node_modules/`) is installed
/// as the graph wants it: the graph has a package there, and the previous
/// lockfile records one under that path that is the same entry.
pub open spec fn up_to_date(g: GraphView, actual: Option<Seq<(Seq<char>, LockfileNodeView)>>, subpath: Seq<Seq<char>>) -> bool {
    match (node_at(g, subpath), actual) {
        (Some(i), Some(packages)) => match name_get(packages, joined_with(subpath, "/"@)) {
            Some(a) => same_lock_entry(a, lockfile_node_of(g, i, false)),
            None => false,
        },
        _ => false,
    }
}

/// What hoisted pruning does with the entry at `subpath` below
/// `node_modules/`: the metadata file and `.bin` directories are left
/// alone, `node_modules` directories and scopes are looked into, and a
/// package directory (one right inside a `node_modules` directory) stays
/// when it is up to date and is removed otherwise. Nothing else is
/// looked at.
pub open spec fn hoisted_step(
    g: GraphView,
    actual: Option<Seq<(Seq<char>, LockfileNodeView)>>,
    subpath: Seq<Seq<char>>,
    file_name: Seq<char>,
    is_meta: bool,
    parent_is_nm: bool,
) -> PruneStep {
    if is_meta {
        PruneStep::Skip
    } else if file_name == "node_modules"@ {
        PruneStep::Enter
    } else if file_name == ".bin"@ {
        PruneStep::Skip
    } else if file_name.len() > 0 && file_name[0] == '@' {
        PruneStep::Enter
    } else if parent_is_nm {
        if up_to_date(g, actual, subpath) {
            PruneStep::Skip
        } else {
            PruneStep::Remove
        }
    } else {
        PruneStep::Skip
    }
}

/// Hoisted pruning replaces an outdated package: a package directory
/// right inside a `node_modules` directory, where the graph wants package
/// `i` and the previous lockfile records a package `a` at that path whose
/// version, resolved tarball or integrity differs from the wanted one, is
/// removed.
pub proof fn lemma_prune_removes_changed(
    g: GraphView,
    packages: Seq<(Seq<char>, LockfileNodeView)>,
    subpath: Seq<Seq<char>>,
    file_name: Seq<char>,
    i: usize,
    a: LockfileNodeView,
)
    requires
        file_name != "node_modules"@,
        file_name != ".bin"@,
        !(file_name.len() > 0 && file_name[0] == '@'),
        node_at(g, subpath) == Some(i),
        name_get(packages, joined_with(subpath, "/"@)) == Some(a),
        !versions_agree(a.version, lockfile_node_of(g, i, false).version) || a.resolved != lockfile_node_of(
            g,
            i,
            false,
        ).resolved || a.integrity != lockfile_node_of(g, i, false).integrity,
    ensures
        hoisted_step(g, Some(packages), subpath, file_name, false, true) == PruneStep::Remove,
{
    if same_lock_entry(a, lockfile_node_of(g, i, false)) {
        lemma_same_entry_same_package(a, lockfile_node_of(g, i, false));
    }
}

pub open spec fn lockfile_entries(l: Option<&Lockfile>) -> Option<Seq<(Seq<char>, LockfileNodeView)>> {
    match l {
        Some(t) => Some(crate::lockfile::entries_view(t.packages@)),
        None => None,
    }
}

fn text_is(s: &String, lit: &str) -> (res: bool)
    ensures
        res == (s@ == lit@),
{
    let t = String::from_str(lit);
    *s == t
}

/// What hoisted pruning does with one entry (the filter of
/// : `subpath` is the entry's path below
/// `node_modules/`, `file_name` its last segment, `is_meta` whether it is
/// the metadata file, `parent_is_nm` whether it sits right inside a
/// `node_modules` directory, `actual` the lockfile of what was installed
/// before.
pub fn hoisted_prune_step(
    graph: &Graph,
    actual: Option<&Lockfile>,
    subpath: &Vec<String>,
    file_name: &String,
    is_meta: bool,
    parent_is_nm: bool,
) -> (res: PruneStep)
    requires
        graph@.wf(),
    ensures
        res == hoisted_step(
            graph@,
            lockfile_entries(actual),
            strings_view(subpath@),
            file_name@,
            is_meta,
            parent_is_nm,
        ),
{
    proof {
        reveal_strlit("node_modules");
        reveal_strlit(".bin");
    }
    if is_meta {
        return PruneStep::Skip;
    }
    if text_is(file_name, "node_modules") {
        return PruneStep::Enter;
    }
    if text_is(file_name, ".bin") {
        return PruneStep::Skip;
    }
    let f = file_name.as_str();
    if f.unicode_len() > 0 && f.get_char(0) == '@' {
        return PruneStep::Enter;
    }
    if !parent_is_nm {
        return PruneStep::Skip;
    }
    let ideal = match graph.node_at_path(subpath) {
        Some(i) => i,
        None => {
            return PruneStep::Remove;
        },
    };
    let tree = match actual {
        Some(t) => t,
        None => {
            return PruneStep::Remove;
        },
    };
    let key = join_with(subpath, "/");
    proof {
        crate::lockfile::lemma_get_entries(tree.packages@, key@);
    }
    match tree.packages.get(&key) {
        Some(a) => {
            let wanted = graph.node_lockfile_node(ideal, false);
            if a.same_entry(&wanted) {
                PruneStep::Skip
            } else {
                PruneStep::Remove
            }
        },
        None => PruneStep::Remove,
    }
}

/// Whether pruning wipes all of `node_modules/` instead of looking at each
/// package: in the hoisted layout, when nothing is known of what was
/// installed or a store directory is present.
pub fn hoisted_wipes_all(has_actual_tree: bool, store_exists: bool) -> (res: bool)
    ensures
        res == (!has_actual_tree || store_exists),
{
    !has_actual_tree || store_exists
}

// ---------------------------------------------------------------------
// Isolated layout
// ---------------------------------------------------------------------

/// Whether pruning wipes all of `node_modules/`: in the isolated layout,
/// when nothing is known of what was installed or there is no store.
pub fn isolated_wipes_all(has_actual_tree: bool, store_exists: bool) -> (res: bool)
    ensures
        res == (!has_actual_tree || !store_exists),
{
    !has_actual_tree || !store_exists
}

/// The name of node `i`'s directory in the store: the package name, `@`,
/// and the first eight hex digits of the SHA-256 of its hoisted subdir.
pub open spec fn store_name(g: GraphView, i: usize) -> Seq<char> {
    g.name_of(i) + "@"@ + sha256_hex(hoisted_subdir(g, i)).take(8)
}

impl Graph {
    /// The name of node `i`'s directory in the store
    ///.
    pub fn package_dir_name(&self, i: usize) -> (res: String)
        requires
            self@.wf(),
            self@.has(i),
        ensures
            res@ == store_name(self@, i),
    {
        let subdir = self.hoisted_subdir(i);
        let hex = sha256_hex_of(subdir.as_str());
        let short = hex.as_str().substring_char(0, 8);
        let mut name = self.node(i).package.name.clone();
        name.append("@");
        name.append(short);
        proof {
            assert(short@ =~= hex@.take(8));
        }
        name
    }

    /// Where node `i` is extracted in the isolated layout, below
    /// `node_modules/`: the store, its directory there, `node_modules`, and
    /// its name.
    pub fn store_package_dir(&self, i: usize) -> (res: Vec<String>)
        requires
            self@.wf(),
            self@.has(i),
        ensures
            strings_view(res@) == seq![store_dir_name(), store_name(self@, i), "node_modules"@, self@.name_of(i)],
    {
        let mut out: Vec<String> = Vec::new();
        out.push(String::from_str(".oro-store"));
        out.push(self.package_dir_name(i));
        out.push(String::from_str("node_modules"));
        out.push(self.node(i).package.name.clone());
        assert(strings_view(out@) =~= seq![store_dir_name(), store_name(self@, i), "node_modules"@, self@.name_of(i)]);
        out
    }

    /// The store directories that isolated pruning keeps: that of every
    /// node but the root, in the order of `nodes` (the graph's node
    /// indices).
    pub fn expected_store_dirs(&self, nodes: &Vec<usize>) -> (res: Vec<String>)
        requires
            self@.wf(),
            forall|k: int| 0 <= k < nodes@.len() ==> self@.has(#[trigger] nodes@[k]),
        ensures
            forall|k: int| 0 <= k < nodes@.len() && nodes@[k] != self@.root ==> strings_view(res@).contains(
                store_name(self@, #[trigger] nodes@[k]),
            ),
            forall|s: Seq<char>| strings_view(res@).contains(s) ==> exists|k: int|
                0 <= k < nodes@.len() && #[trigger] nodes@[k] != self@.root && s == store_name(self@, nodes@[k]),
    {
        let mut out: Vec<String> = Vec::new();
        let mut k: usize = 0;
        while k < nodes.len()
            invariant
                self@.wf(),
                k <= nodes.len(),
                forall|q: int| 0 <= q < nodes@.len() ==> self@.has(#[trigger] nodes@[q]),
                forall|q: int| 0 <= q < k && nodes@[q] != self@.root ==> strings_view(out@).contains(
                    store_name(self@, #[trigger] nodes@[q]),
                ),
                forall|s: Seq<char>| strings_view(out@).contains(s) ==> exists|q: int|
                    0 <= q < nodes@.len() && #[trigger] nodes@[q] != self@.root && s == store_name(self@, nodes@[q]),
            decreases nodes.len() - k,
        {
            let i = nodes[k];
            assert(self@.has(nodes@[k as int]));
            if i != self.root() {
                let ghost before = strings_view(out@);
                let name = self.package_dir_name(i);
                out.push(name);
                proof {
                    assert(strings_view(out@) =~= before.push(store_name(self@, i)));
                    assert(strings_view(out@)[before.len() as int] == store_name(self@, i));
                    assert forall|q: int| 0 <= q < k + 1 && nodes@[q] != self@.root implies strings_view(
                        out@,
                    ).contains(store_name(self@, #[trigger] nodes@[q])) by {
                        if q < k {
                            let w = choose|w: int| 0 <= w < before.len() && before[w] == store_name(self@, nodes@[q]);
                            assert(strings_view(out@)[w] == before[w]);
                        }
                    }
                    assert forall|s: Seq<char>| strings_view(out@).contains(s) implies exists|q: int|
                        0 <= q < nodes@.len() && #[trigger] nodes@[q] != self@.root && s == store_name(self@, nodes@[q]) by {
                        let w = choose|w: int| 0 <= w < strings_view(out@).len() && strings_view(out@)[w] == s;
                        if w < before.len() {
                            assert(before[w] == s);
                            assert(before.contains(s));
                        } else {
                            assert(nodes@[k as int] != self@.root);
                        }
                    }
                }
            }
            k = k + 1;
        }
        out
    }

    /// The links that node `i`'s `node_modules` holds in the isolated
    /// layout: for each of its dependencies, in order, the dependency's
    /// name and the store directory it links to.
    pub fn expected_links(&self, i: usize) -> (res: Vec<(String, String)>)
        requires
            self@.wf(),
            self@.has(i),
        ensures
            res@.len() == self@.nodes[i].dependencies@.len(),
            forall|k: int| #![trigger res@[k]] 0 <= k < res@.len() ==> {
                let e = self@.nodes[i].dependencies@[k].1;
                let d = self@.edges[e].1;
                res@[k].0@ == self@.name_of(d) && res@[k].1@ == store_name(self@, d)
            },
    {
        let ghost g = self@;
        let node = self.node(i);
        assert(g.node_ok(i));
        let mut out: Vec<(String, String)> = Vec::new();
        let mut k: usize = 0;
        while k < node.dependencies.entries.len()
            invariant
                g == self@,
                g.wf(),
                g.node_ok(i),
                g.has(i),
                *node == g.nodes[i],
                k <= g.nodes[i].dependencies@.len(),
                out@.len() == k,
                forall|q: int| #![trigger out@[q]] 0 <= q < k ==> {
                    let e = g.nodes[i].dependencies@[q].1;
                    let d = g.edges[e].1;
                    out@[q].0@ == g.name_of(d) && out@[q].1@ == store_name(g, d)
                },
            decreases node.dependencies.entries.len() - k,
        {
            let e = node.dependencies.entries[k].1;
            assert(g.nodes[i].dependencies@[k as int].1 == e);
            assert(g.edges.dom().contains(e));
            let (_, d) = self.edge_endpoints(e);
            let name = self.node(d).package.name.clone();
            let dir = self.package_dir_name(d);
            let ghost before = out@;
            out.push((name, dir));
            assert forall|q: int| #![trigger out@[q]] 0 <= q < k + 1 implies {
                let e2 = g.nodes[i].dependencies@[q].1;
                let d2 = g.edges[e2].1;
                out@[q].0@ == g.name_of(d2) && out@[q].1@ == store_name(g, d2)
            } by {
                if q < k {
                    assert(out@[q] == before[q]);
                }
            }
            k = k + 1;
        }
        out
    }
}

// ---------------------------------------------------------------------
// Links
// ---------------------------------------------------------------------

/// How one executable of a package is linked: the file
/// `path` below the package directory `package_dir` is what the link
/// named `name` in the `.bin` directory `bin_dir` leads to, and the link
/// holds the relative path from `bin_dir`'s side. Returns the file, the
/// link, and what the link holds (`None` where `diff_paths` finds no
/// relative path).
pub fn bin_link(package_dir: &str, bin_dir: &str, name: &str, path: &str) -> (res: (String, String, Option<String>))
    ensures
        res.0@ == path_join(package_dir@, path@),
        res.1@ == path_join(bin_dir@, name@),
        opt_string_view(res.2) == link_text(res.0@, res.1@),
{
    let from = join_path(package_dir, path);
    let to = join_path(bin_dir, name);
    let rel = link_target(from.as_str(), to.as_str());
    (from, to, rel)
}

/// The node that node `i`'s `k`th dependency edge leads to.
pub open spec fn dep_target(g: GraphView, i: usize, k: int) -> usize {
    g.edges[g.nodes[i].dependencies@[k].1].1
}

/// Where node `d`'s files are in the store below `store_ref`: its store
/// directory, `node_modules`, and its name.
pub open spec fn store_dep_dir(store_ref: Seq<char>, g: GraphView, d: usize) -> Seq<char> {
    path_join(path_join(path_join(store_ref, store_name(g, d)), "node_modules"@), g.name_of(d))
}

impl Graph {
    /// Where node `d`'s files are in the store below `store_ref` (see
    /// [`store_dep_dir`]).
    pub fn dep_store_dir(&self, store_ref: &str, d: usize) -> (res: String)
        requires
            self@.wf(),
            self@.has(d),
        ensures
            res@ == store_dep_dir(store_ref@, self@, d),
    {
        let dir = self.package_dir_name(d);
        let a = join_path(store_ref, dir.as_str());
        proof {
            reveal_strlit("node_modules");
        }
        let b = join_path(a.as_str(), "node_modules");
        join_path(b.as_str(), self.node(d).package.name.as_str())
    }

    /// The link for node `i`'s `k`th dependency in the isolated layout
    ///, inside the `node_modules` directory `target_nm`:
    /// the dependency's files in the store below `store_ref`, the link
    /// (its name below `target_nm`), and what the link holds.
    pub fn dependency_link(&self, store_ref: &str, target_nm: &str, i: usize, k: usize) -> (res: (
        String,
        String,
        Option<String>,
    ))
        requires
            self@.wf(),
            self@.has(i),
            k < self@.nodes[i].dependencies@.len(),
        ensures
            res.0@ == store_dep_dir(store_ref@, self@, dep_target(self@, i, k as int)),
            res.1@ == path_join(target_nm@, self@.name_of(dep_target(self@, i, k as int))),
            opt_string_view(res.2) == link_text(res.0@, res.1@),
    {
        let d = self.dep_target(i, k);
        let store = self.dep_store_dir(store_ref, d);
        let entry = join_path(target_nm, self.node(d).package.name.as_str());
        let rel = link_target(store.as_str(), entry.as_str());
        (store, entry, rel)
    }

    /// The node that node `i`'s `k`th dependency edge leads to.
    pub fn dep_target(&self, i: usize, k: usize) -> (res: usize)
        requires
            self@.wf(),
            self@.has(i),
            k < self@.nodes[i].dependencies@.len(),
        ensures
            res == dep_target(self@, i, k as int),
            self@.has(res),
    {
        let ghost g = self@;
        let node = self.node(i);
        assert(g.node_ok(i));
        let e = node.dependencies.entries[k].1;
        assert(g.nodes[i].dependencies@[k as int].1 == e);
        assert(g.edges.dom().contains(e));
        let (_, d) = self.edge_endpoints(e);
        d
    }

    /// Where node `i`'s files are in the isolated layout (what scripts run
    /// in): the project directory `root` for the root, else its files in
    /// the store below `store_ref`.
    pub fn isolated_package_dir(&self, root: &str, store_ref: &str, i: usize) -> (res: String)
        requires
            self@.wf(),
            self@.has(i),
        ensures
            res@ == (if i == self@.root {
                root@
            } else {
                store_dep_dir(store_ref@, self@, i)
            }),
    {
        if i == self.root() {
            root.to_string()
        } else {
            self.dep_store_dir(store_ref, i)
        }
    }

    /// Node `i`'s `node_modules` directory in the isolated layout: `prefix`
    /// (the project's `node_modules`) for the root, else the one beside
    /// its files in the store below `store_ref`.
    pub fn isolated_node_modules(&self, prefix: &str, store_ref: &str, i: usize) -> (res: String)
        requires
            self@.wf(),
            self@.has(i),
        ensures
            res@ == isolated_nm(prefix@, store_ref@, self@, i),
    {
        if i == self.root() {
            prefix.to_string()
        } else {
            let dir = self.dep_store_dir(store_ref, i);
            proof {
                reveal_strlit("node_modules");
            }
            join_path(dir.as_str(), "node_modules")
        }
    }

    /// What isolated pruning does with the entry `entry` (its full path)
    /// of node `i`'s `node_modules` directory `pkg_nm`
    ///: whether to remove it (see
    /// [`link_step`]). `link` is what the entry holds when it is a link.
    pub fn isolated_link_step(
        &self,
        store_ref: &str,
        pkg_nm: &str,
        i: usize,
        entry: &String,
        kind: EntryKind,
        link: &String,
    ) -> (res: bool)
        requires
            self@.wf(),
            self@.has(i),
        ensures
            res == link_step(store_ref@, pkg_nm@, self@, i, entry@, kind, link@),
    {
        let ghost g = self@;
        let n = self.node(i).dependencies.entries.len();
        let mut k: usize = 0;
        while k < n
            invariant
                g == self@,
                g.wf(),
                g.has(i),
                n == g.nodes[i].dependencies@.len(),
                k <= n,
                forall|q: int| 0 <= q < k ==> !#[trigger] stale_link(store_ref@, pkg_nm@, g, dep_target(g, i, q), entry@, kind, link@),
            decreases n - k,
        {
            let d = self.dep_target(i, k);
            let at = join_path(pkg_nm, self.node(d).package.name.as_str());
            if at == *entry {
                let stale = match kind {
                    EntryKind::File => true,
                    EntryKind::Dir => true,
                    EntryKind::Symlink => {
                        let target = self.dep_store_dir(store_ref, d);
                        target != *link
                    },
                    EntryKind::Other => false,
                };
                if stale {
                    assert(stale_link(store_ref@, pkg_nm@, g, dep_target(g, i, k as int), entry@, kind, link@));
                    return true;
                }
            }
            k = k + 1;
        }
        false
    }
}

/// Node `i`'s `node_modules` directory in the isolated layout.
pub open spec fn isolated_nm(prefix: Seq<char>, store_ref: Seq<char>, g: GraphView, i: usize) -> Seq<char> {
    if i == g.root {
        prefix
    } else {
        path_join(store_dep_dir(store_ref, g, i), "node_modules"@)
    }
}

/// The kind of a directory entry, as pruning sees it.
#[derive(Debug, Clone, Copy, PartialEq, Eq)]
pub enum EntryKind {
    /// A regular file.
    File,
    /// A directory.
    Dir,
    /// A symbolic link.
    Symlink,
    /// Anything else (a junction, a socket, ...).
    Other,
}

/// The entry `entry` of the `node_modules` directory `pkg_nm` is where the
/// link to dependency `d` goes, and it is not that link: it is a file, a
/// directory, or a link that does not hold `d`'s store directory below
/// `store_ref`.
pub open spec fn stale_link(
    store_ref: Seq<char>,
    pkg_nm: Seq<char>,
    g: GraphView,
    d: usize,
    entry: Seq<char>,
    kind: EntryKind,
    link: Seq<char>,
) -> bool {
    &&& entry == path_join(pkg_nm, g.name_of(d))
    &&& match kind {
        EntryKind::File => true,
        EntryKind::Dir => true,
        EntryKind::Symlink => link != store_dep_dir(store_ref, g, d),
        EntryKind::Other => false,
    }
}

/// Whether isolated pruning removes the entry `entry` of node `i`'s
/// `node_modules` directory `pkg_nm`: it is stale for one of node `i`'s
/// dependencies. Entries that no dependency links at are left.
pub open spec fn link_step(
    store_ref: Seq<char>,
    pkg_nm: Seq<char>,
    g: GraphView,
    i: usize,
    entry: Seq<char>,
    kind: EntryKind,
    link: Seq<char>,
) -> bool {
    exists|k: int|
        0 <= k < g.nodes[i].dependencies@.len() && #[trigger] stale_link(
            store_ref,
            pkg_nm,
            g,
            dep_target(g, i, k),
            entry,
            kind,
            link,
        )
}

/// What isolated pruning does with an entry of the store: one whose path
/// below the store is among `expected` stays; otherwise a scope directory
/// at the top of the store is looked into, and directories, files and
/// links are removed. Anything else is left.
pub open spec fn store_step(expected: Seq<Seq<char>>, name: Seq<char>, kind: EntryKind, in_scope: bool) -> PruneStep {
    if expected.contains(name) {
        PruneStep::Skip
    } else {
        match kind {
            EntryKind::Dir => if !in_scope && name.len() > 0 && name[0] == '@' {
                PruneStep::Enter
            } else {
                PruneStep::Remove
            },
            EntryKind::File => PruneStep::Remove,
            EntryKind::Symlink => PruneStep::Remove,
            EntryKind::Other => PruneStep::Skip,
        }
    }
}

/// What isolated pruning does with an entry of the store
///: `name` is its path below the store (a
/// scope, `/` and a name when `in_scope`), `expected` the store
/// directories to keep (see [`Graph::expected_store_dirs`]).
pub fn isolated_store_step(expected: &Vec<String>, name: &String, kind: EntryKind, in_scope: bool) -> (res: PruneStep)
    ensures
        res == store_step(strings_view(expected@), name@, kind, in_scope),
{
    let ghost ex = strings_view(expected@);
    let mut k: usize = 0;
    while k < expected.len()
        invariant
            k <= expected.len(),
            ex == strings_view(expected@),
            forall|q: int| 0 <= q < k ==> ex[q] != name@,
        decreases expected.len() - k,
    {
        if expected[k] == *name {
            assert(ex[k as int] == name@);
            return PruneStep::Skip;
        }
        k = k + 1;
    }
    assert(!ex.contains(name@));
    match kind {
        EntryKind::Dir => {
            let n = name.as_str();
            if !in_scope && n.unicode_len() > 0 && n.get_char(0) == '@' {
                PruneStep::Enter
            } else {
                PruneStep::Remove
            }
        },
        EntryKind::File => PruneStep::Remove,
        EntryKind::Symlink => PruneStep::Remove,
        EntryKind::Other => PruneStep::Skip,
    }
}


/// Whether isolated pruning counts an entry of the store as a pruned
/// package: inside a scope directory, every entry that is not expected;
/// at the top of the store, every directory or file that is removed (a
/// removed link is not counted).
pub open spec fn store_counted(expected: Seq<Seq<char>>, name: Seq<char>, kind: EntryKind, in_scope: bool) -> bool {
    if in_scope {
        !expected.contains(name)
    } else {
        store_step(expected, name, kind, in_scope) is Remove && !(kind is Symlink)
    }
}

fn listed(v: &Vec<String>, name: &String) -> (res: bool)
    ensures
        res == strings_view(v@).contains(name@),
{
    let ghost ex = strings_view(v@);
    let mut k: usize = 0;
    while k < v.len()
        invariant
            k <= v.len(),
            ex == strings_view(v@),
            forall|q: int| 0 <= q < k ==> ex[q] != name@,
        decreases v.len() - k,
    {
        if v[k] == *name {
            assert(ex[k as int] == name@);
            return true;
        }
        k = k + 1;
    }
    false
}

/// Whether isolated pruning counts an entry of the store as a pruned
/// package (see [`store_counted`]).
pub fn isolated_store_counted(expected: &Vec<String>, name: &String, kind: EntryKind, in_scope: bool) -> (res: bool)
    ensures
        res == store_counted(strings_view(expected@), name@, kind, in_scope),
{
    if in_scope {
        !listed(expected, name)
    } else {
        match (isolated_store_step(expected, name, kind, false), kind) {
            (PruneStep::Remove, EntryKind::Symlink) => false,
            (PruneStep::Remove, _) => true,
            _ => false,
        }
    }
}

} // verus!
