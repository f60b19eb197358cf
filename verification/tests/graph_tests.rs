use orogene::fetch::dummy_from_manifest;
use orogene::graph::{DepType, Graph, Node, Package};
use orogene::linkers::{bin_dir, bin_link, hoisted_prune_step, isolated_store_counted, isolated_store_step, EntryKind, hoisted_wipes_all, isolated_wipes_all, PruneStep};
use orogene::lockfile::GraphValidationError;
use orogene::names::NameMap;
use orogene::queue::{check_locked, dependency_requests, lockfile_keys, sort_queue, FetchQueue};
use orogene::resolution::PackageResolution;
use orogene::resolver::{place_child, satisfy_dependency, NodeDependency};
use orogene::semver::{Version, VersionRange};
use orogene::spec::{PackageSpec, VersionSpec};

fn req(name: &str, range: &str) -> PackageSpec {
    PackageSpec::Npm {
        scope: None,
        name: name.to_string(),
        requested: Some(VersionSpec::Range(VersionRange::parse(range).unwrap())),
    }
}

fn pkg(name: &str, major: u64) -> Package {
    Package {
        name: name.to_string(),
        from: req(name, &format!("^{major}")),
        resolved: PackageResolution::Npm {
            name: name.to_string(),
            version: Version::new(major, 0, 0),
            tarball: format!("https://r.example/{name}-{major}.0.0.tgz"),
            integrity: None,
        },
    }
}

fn reqs(list: &[(&str, &str)]) -> NameMap<(PackageSpec, DepType)> {
    let mut m = NameMap::new();
    for (n, r) in list {
        m.insert(n.to_string(), (req(n, r), DepType::Prod));
    }
    m
}

fn root_graph(deps: &[(&str, &str)]) -> Graph {
    Graph::new(Node::new(dummy_from_manifest(Some("root".to_string())), reqs(deps), None, None))
}

fn dep(name: &str, range: &str, from: usize) -> NodeDependency {
    NodeDependency { name: name.to_string(), spec: req(name, range), dep_type: DepType::Prod, node_idx: from }
}

fn add(g: &mut Graph, from: usize, name: &str, range: &str, major: u64, deps: &[(&str, &str)]) -> usize {
    let d = dep(name, range, from);
    if let Some(existing) = satisfy_dependency(g, &d) {
        return existing;
    }
    place_child(g, &d, pkg(name, major), reqs(deps), None, None, None)
}

fn path_of(g: &Graph, i: usize) -> Vec<String> {
    g.node_path(i)
}

#[test]
fn shared_dependencies_are_hoisted() {
    let mut g = root_graph(&[("a", "^1"), ("b", "^1")]);
    let root = g.root();
    let a = add(&mut g, root, "a", "^1", 1, &[("shared", "^1")]);
    let b = add(&mut g, root, "b", "^1", 1, &[("shared", "^1")]);
    let s1 = add(&mut g, a, "shared", "^1", 1, &[]);
    let s2 = add(&mut g, b, "shared", "^1", 1, &[]);
    assert_eq!(s1, s2);
    assert_eq!(path_of(&g, s1), vec!["shared".to_string()]);
    assert_eq!(g.node_count(), 4);
    assert_eq!(g.depth(s1), 1);
    assert_eq!(g.resolve_dep(b, &"shared".to_string()), Some(s1));
    assert!(g.validate().is_ok());
}

#[test]
fn conflicting_versions_are_nested() {
    let mut g = root_graph(&[("a", "^1"), ("shared", "^2")]);
    let root = g.root();
    let s2 = add(&mut g, root, "shared", "^2", 2, &[]);
    let a = add(&mut g, root, "a", "^1", 1, &[("shared", "^1")]);
    let s1 = add(&mut g, a, "shared", "^1", 1, &[]);
    assert_ne!(s1, s2);
    assert_eq!(path_of(&g, s1), vec!["a".to_string(), "shared".to_string()]);
    assert_eq!(path_of(&g, s2), vec!["shared".to_string()]);
    assert_eq!(g.resolve_dep(a, &"shared".to_string()), Some(s1));
    assert_eq!(g.resolve_dep(root, &"shared".to_string()), Some(s2));
    assert!(g.is_ancestor(a, s1));
    assert!(!g.is_ancestor(s2, s1));
    assert_eq!(g.depth(s1), 2);
    assert!(g.validate().is_ok());
}

#[test]
fn names_are_found_ignoring_case() {
    let mut g = root_graph(&[("Left", "^1")]);
    let root = g.root();
    let l = add(&mut g, root, "Left", "^1", 1, &[]);
    assert_eq!(g.find_by_name(root, &"left".to_string()), Some(l));
}

#[test]
fn node_at_path_walks_node_modules() {
    let mut g = root_graph(&[("a", "^1"), ("@s/b", "^1"), ("shared", "^2")]);
    let root = g.root();
    let _s2 = add(&mut g, root, "shared", "^2", 2, &[]);
    let a = add(&mut g, root, "a", "^1", 1, &[("shared", "^1")]);
    let s1 = add(&mut g, a, "shared", "^1", 1, &[]);
    let b = add(&mut g, root, "@s/b", "^1", 1, &[]);
    let p = |parts: &[&str]| parts.iter().map(|s| s.to_string()).collect::<Vec<_>>();
    assert_eq!(g.node_at_path(&p(&["a"])), Some(a));
    assert_eq!(g.node_at_path(&p(&["a", "node_modules", "shared"])), Some(s1));
    assert_eq!(g.node_at_path(&p(&["@s", "b"])), Some(b));
    assert_eq!(g.node_at_path(&p(&["missing"])), None);
    assert_eq!(g.node_at_path(&p(&[])), None);
    let found = g.package_at_path(&p(&["a", "node_modules", "shared"])).unwrap();
    assert_eq!(found.name, "shared");
    assert_eq!(g.package_at_path(&p(&["node_modules", "a"])).unwrap().name, "a");
    assert_eq!(g.package_at_path(&p(&["a"])).unwrap().name, "a");
    // Nothing is installed at a path whose last package is missing.
    assert_eq!(g.node_at_path(&p(&["node_modules", "a", "node_modules", "zzz"])), None);
    assert!(g.package_at_path(&p(&["node_modules", "a", "node_modules", "zzz"])).is_none());
    assert_eq!(g.node_at_path(&p(&["@s", "zzz"])), None);
}

#[test]
fn lockfile_lists_every_package_by_path() {
    let mut g = root_graph(&[("a", "^1"), ("shared", "^2")]);
    let root = g.root();
    let _s2 = add(&mut g, root, "shared", "^2", 2, &[]);
    let a = add(&mut g, root, "a", "^1", 1, &[("shared", "^1")]);
    let _s1 = add(&mut g, a, "shared", "^1", 1, &[]);
    let lock = g.to_lockfile();
    assert_eq!(lock.version, 1);
    assert!(lock.root.is_root);
    assert_eq!(lock.root.name, "root");
    assert_eq!(lock.packages.len(), 3);
    let nested = lock.packages.get(&"a/node_modules/shared".to_string()).unwrap();
    assert_eq!(nested.version.as_ref().unwrap().major, 1);
    assert_eq!(nested.resolved.as_deref(), Some("https://r.example/shared-1.0.0.tgz"));
    let a_entry = lock.packages.get(&"a".to_string()).unwrap();
    assert_eq!(a_entry.dependencies.len(), 1);
    assert_eq!(a_entry.dependencies[0].0, "shared");
    assert!(lock.matches(&g.to_lockfile()));
    assert!(check_locked(true, Some(&lock), &g).is_ok());
    assert!(check_locked(false, None, &g).is_ok());
}

#[test]
fn locked_install_detects_a_different_lockfile() {
    let mut g = root_graph(&[("a", "^1")]);
    let root = g.root();
    add(&mut g, root, "a", "^1", 1, &[]);
    let lock = g.to_lockfile();
    let mut g2 = root_graph(&[("a", "^2")]);
    let root2 = g2.root();
    add(&mut g2, root2, "a", "^2", 2, &[]);
    assert!(!lock.matches(&g2.to_lockfile()));
    assert!(check_locked(true, Some(&lock), &g2).is_err());
}

#[test]
fn validate_reports_unmet_dependencies() {
    let mut g = root_graph(&[("a", "^1")]);
    let root = g.root();
    let a = add(&mut g, root, "a", "^1", 1, &[]);
    // An edge that asks for a version the installed package does not have.
    let edge = orogene::graph::Edge::new(req("a", "^5"), DepType::Prod);
    g.add_dependency_edge(root, a, "a".to_string(), edge);
    match g.validate() {
        Err(GraphValidationError::Unsatisfied { dependent, name, dependency }) => {
            assert_eq!(dependent, root);
            assert_eq!(name, "a");
            assert_eq!(dependency, a);
        }
        other => panic!("expected an unsatisfied dependency, got {:?}", other),
    }
}

#[test]
fn hoisted_layout_paths() {
    let mut g = root_graph(&[("a", "^1"), ("shared", "^2")]);
    let root = g.root();
    let _s2 = add(&mut g, root, "shared", "^2", 2, &[]);
    let a = add(&mut g, root, "a", "^1", 1, &[("shared", "^1")]);
    let s1 = add(&mut g, a, "shared", "^1", 1, &[]);
    assert_eq!(g.hoisted_subdir(s1), "a/node_modules/shared");
    assert_eq!(g.hoisted_package_dir("/p", s1), ("/p/node_modules/a/node_modules/shared".to_string(), "/p".to_string()));
    assert_eq!(g.hoisted_package_dir("/p", root), ("/p".to_string(), "/p".to_string()));
    let p = |parts: &[&str]| parts.iter().map(|s| s.to_string()).collect::<Vec<_>>();
    assert_eq!(bin_dir(&p(&["node_modules", "a"])), p(&["node_modules", ".bin"]));
    assert_eq!(bin_dir(&p(&["node_modules", "@s", "b"])), p(&["node_modules", ".bin"]));
    assert_eq!(
        bin_dir(&p(&["node_modules", "a", "node_modules", "shared"])),
        p(&["node_modules", "a", "node_modules", ".bin"])
    );
}

#[test]
fn isolated_store_names() {
    let mut g = root_graph(&[("a", "^1")]);
    let root = g.root();
    let a = add(&mut g, root, "a", "^1", 1, &[]);
    let name = g.package_dir_name(a);
    assert!(name.starts_with("a@"));
    assert_eq!(name.len(), "a@".len() + 8);
    // The digest is that of the hoisted subdir, "a".
    // SHA-256 of "a".
    let hex = "ca978112ca1bbdcafac231b39a23dc4da786eff8147c4e72b9807785afee48bb";
    assert_eq!(&name[2..], &hex[..8]);
    let dir = g.store_package_dir(a);
    assert_eq!(dir, vec![".oro-store".to_string(), name.clone(), "node_modules".to_string(), "a".to_string()]);
    let expected = g.expected_store_dirs(&g.node_indices());
    assert_eq!(expected, vec![name.clone()]);
    let links = g.expected_links(root);
    assert_eq!(links, vec![("a".to_string(), name.clone())]);
    let (store, entry, rel) = g.dependency_link("/p/node_modules/.oro-store", "/p/node_modules", root, 0);
    assert_eq!(store, format!("/p/node_modules/.oro-store/{}/node_modules/a", name));
    assert_eq!(entry, "/p/node_modules/a");
    assert_eq!(rel, Some(format!(".oro-store/{}/node_modules/a", name)));
}

#[test]
fn scoped_dependency_links_from_the_scope_directory() {
    let mut g = root_graph(&[("@s/b", "^1")]);
    let root = g.root();
    let b = add(&mut g, root, "@s/b", "^1", 1, &[]);
    let name = g.package_dir_name(b);
    let (store, entry, rel) = g.dependency_link("/p/node_modules/.oro-store", "/p/node_modules", root, 0);
    assert_eq!(store, format!("/p/node_modules/.oro-store/{}/node_modules/@s/b", name));
    assert_eq!(entry, "/p/node_modules/@s/b");
    assert_eq!(rel, Some(format!("../.oro-store/{}/node_modules/@s/b", name)));
}

#[test]
fn executables_link_relatively() {
    let (from, to, rel) = bin_link("/p/node_modules/a", "/p/node_modules/.bin", "cli", "bin/cli.js");
    assert_eq!(from, "/p/node_modules/a/bin/cli.js");
    assert_eq!(to, "/p/node_modules/.bin/cli");
    assert_eq!(rel, Some("../a/bin/cli.js".to_string()));
    let (from, _, rel) = bin_link("/p/node_modules/a", "/p/node_modules/.bin", "cli", "/abs/cli.js");
    assert_eq!(from, "/abs/cli.js");
    assert_eq!(rel, Some("../../../abs/cli.js".to_string()));
    // A relative file against an absolute link directory has no relative path.
    let (_, _, rel) = bin_link("a", "/p/.bin", "cli", "cli.js");
    assert_eq!(rel, None);
}

#[test]
fn hoisted_pruning_keeps_what_is_up_to_date() {
    let mut g = root_graph(&[("a", "^1")]);
    let root = g.root();
    add(&mut g, root, "a", "^1", 1, &[]);
    let actual = g.to_lockfile();
    let p = |parts: &[&str]| parts.iter().map(|s| s.to_string()).collect::<Vec<_>>();
    let a = "a".to_string();
    assert_eq!(hoisted_prune_step(&g, Some(&actual), &p(&["a"]), &a, false, true), PruneStep::Skip);
    // Without a record of what was installed, the package goes.
    assert_eq!(hoisted_prune_step(&g, None, &p(&["a"]), &a, false, true), PruneStep::Remove);
    // A package the graph does not want goes.
    let x = "x".to_string();
    assert_eq!(hoisted_prune_step(&g, Some(&actual), &p(&["x"]), &x, false, true), PruneStep::Remove);
    let nm = "node_modules".to_string();
    assert_eq!(hoisted_prune_step(&g, Some(&actual), &p(&[]), &nm, false, false), PruneStep::Enter);
    let bin = ".bin".to_string();
    assert_eq!(hoisted_prune_step(&g, Some(&actual), &p(&[".bin"]), &bin, false, true), PruneStep::Skip);
    let scope = "@s".to_string();
    assert_eq!(hoisted_prune_step(&g, Some(&actual), &p(&["@s"]), &scope, false, true), PruneStep::Enter);
    let meta = ".orogene-meta.kdl".to_string();
    assert_eq!(hoisted_prune_step(&g, Some(&actual), &p(&[".orogene-meta.kdl"]), &meta, true, true), PruneStep::Skip);
    assert!(hoisted_wipes_all(false, false));
    assert!(hoisted_wipes_all(true, true));
    assert!(!hoisted_wipes_all(true, false));
    assert!(isolated_wipes_all(true, false));
    assert!(!isolated_wipes_all(true, true));
}

#[test]
fn requests_are_listed_once_each() {
    let g = root_graph(&[("a", "^1"), ("b", "^2")]);
    let d = dependency_requests(&g, g.root());
    assert_eq!(d.len(), 2);
    assert_eq!(d[0].name, "a");
    assert_eq!(d[1].name, "b");
    assert_eq!(d[1].node_idx, g.root());
}

#[test]
fn lockfile_keys_go_from_nearest_to_top() {
    let mut g = root_graph(&[("a", "^1")]);
    let root = g.root();
    let a = add(&mut g, root, "a", "^1", 1, &[("b", "^1")]);
    let keys = lockfile_keys(&g, a, &"b".to_string());
    assert_eq!(keys, vec!["a/node_modules/b".to_string(), "b".to_string()]);
    let keys = lockfile_keys(&g, root, &"a".to_string());
    assert_eq!(keys, vec!["root/node_modules/a".to_string(), "a".to_string()]);
}

#[test]
fn fetches_are_shared() {
    let mut q = FetchQueue::new();
    assert!(q.enqueue(dep("a", "^1", 0)));
    assert!(!q.enqueue(dep("a", "^1", 3)));
    assert!(q.enqueue(dep("a", "^2", 4)));
    let waiting = q.take(&req("a", "^1")).unwrap();
    assert_eq!(waiting.len(), 2);
    assert_eq!(waiting[1].node_idx, 3);
    assert!(q.take(&req("a", "^1")).is_none());
    assert_eq!(q.entries.len(), 1);
}

#[test]
fn queue_is_sorted_by_depth_then_name() {
    let mut g = root_graph(&[("b", "^1"), ("a", "^1"), ("shared", "^2")]);
    let root = g.root();
    let s2 = add(&mut g, root, "shared", "^2", 2, &[]);
    let b = add(&mut g, root, "b", "^1", 1, &[("shared", "^1")]);
    let a = add(&mut g, root, "a", "^1", 1, &[]);
    let s1 = add(&mut g, b, "shared", "^1", 1, &[]);
    let sorted = sort_queue(&g, &vec![s1, b, s2, a]);
    assert_eq!(sorted, vec![a, b, s2, s1]);
    // Nodes that compare equal keep the order they were queued in.
    let sorted = sort_queue(&g, &vec![s2, a, s2, b, a]);
    assert_eq!(sorted, vec![a, a, b, s2, s2]);
}

#[test]
fn isolated_pruning_of_links() {
    let mut g = root_graph(&[("a", "^1")]);
    let root = g.root();
    let a = add(&mut g, root, "a", "^1", 1, &[]);
    let store = "/p/node_modules/.oro-store";
    let nm = g.isolated_node_modules("/p/node_modules", store, root);
    assert_eq!(nm, "/p/node_modules");
    let a_nm = g.isolated_node_modules("/p/node_modules", store, a);
    assert_eq!(a_nm, format!("{}/{}/node_modules/a/node_modules", store, g.package_dir_name(a)));
    let target = g.dep_store_dir(store, a);
    assert_eq!(g.isolated_package_dir("/p", store, root), "/p");
    assert_eq!(g.isolated_package_dir("/p", store, a), target);
    assert_eq!(target, format!("{}/{}/node_modules/a", store, g.package_dir_name(a)));
    let entry = "/p/node_modules/a".to_string();
    let none = String::new();
    // A file or a directory where the link belongs goes.
    assert!(g.isolated_link_step(store, &nm, root, &entry, EntryKind::File, &none));
    assert!(g.isolated_link_step(store, &nm, root, &entry, EntryKind::Dir, &none));
    // A link that holds the store directory stays; another goes.
    assert!(!g.isolated_link_step(store, &nm, root, &entry, EntryKind::Symlink, &target));
    assert!(g.isolated_link_step(store, &nm, root, &entry, EntryKind::Symlink, &"elsewhere".to_string()));
    // Entries no dependency links at are left alone.
    let other = "/p/node_modules/zzz".to_string();
    assert!(!g.isolated_link_step(store, &nm, root, &other, EntryKind::File, &none));
    assert!(!g.isolated_link_step(store, &nm, root, &entry, EntryKind::Other, &none));
}

#[test]
fn isolated_pruning_of_the_store() {
    let expected = vec!["a@12345678".to_string(), "@s/b@87654321".to_string()];
    assert_eq!(isolated_store_step(&expected, &"a@12345678".to_string(), EntryKind::Dir, false), PruneStep::Skip);
    assert_eq!(isolated_store_step(&expected, &"x@00000000".to_string(), EntryKind::Dir, false), PruneStep::Remove);
    assert_eq!(isolated_store_step(&expected, &"@s".to_string(), EntryKind::Dir, false), PruneStep::Enter);
    assert_eq!(isolated_store_step(&expected, &"@s/b@87654321".to_string(), EntryKind::Dir, true), PruneStep::Skip);
    assert_eq!(isolated_store_step(&expected, &"@s/c@0".to_string(), EntryKind::Dir, true), PruneStep::Remove);
    assert_eq!(isolated_store_step(&expected, &"stray".to_string(), EntryKind::File, false), PruneStep::Remove);
    assert_eq!(isolated_store_step(&expected, &"lnk".to_string(), EntryKind::Symlink, false), PruneStep::Remove);
    assert_eq!(isolated_store_step(&expected, &"sock".to_string(), EntryKind::Other, false), PruneStep::Skip);
}

#[test]
fn isolated_pruning_counts() {
    let expected = vec!["a@12345678".to_string(), "@s/b@87654321".to_string()];
    assert!(!isolated_store_counted(&expected, &"a@12345678".to_string(), EntryKind::Dir, false));
    assert!(isolated_store_counted(&expected, &"x@00000000".to_string(), EntryKind::Dir, false));
    assert!(!isolated_store_counted(&expected, &"@s".to_string(), EntryKind::Dir, false));
    assert!(!isolated_store_counted(&expected, &"sock".to_string(), EntryKind::Other, false));
    assert!(isolated_store_counted(&expected, &"stray".to_string(), EntryKind::File, false));
    assert!(!isolated_store_counted(&expected, &"lnk".to_string(), EntryKind::Symlink, false));
    assert!(isolated_store_counted(&expected, &"@s/c@0".to_string(), EntryKind::Other, true));
    assert!(!isolated_store_counted(&expected, &"@s/b@87654321".to_string(), EntryKind::Dir, true));
}
