//! Whole resolutions against a small in-memory registry: the root package
//! is resolved from the registry, then each dependency is fetched, reused
//! where an existing node satisfies it, or placed as high in the tree as it
//! fits, breadth first.

use orogene::graph::{DepType, Graph, Node, Package};
use orogene::metadata::{Packument, VersionMetadata};
use orogene::names::NameMap;
use orogene::lockfile::Lockfile;
use orogene::resolve::{resolve_step, FetchedPackage, ResolveAction, ResolveError, ResolveEvent, ResolveState};
use orogene::resolution::{PackageResolution, PackageResolver};
use orogene::semver::{parse_version, Version, VersionRange};
use orogene::linkers::requests_match;
use orogene::spec::{PackageSpec, VersionSpec};

/// A registry: each package with its versions, each version with its
/// dependencies (name, range).
struct Registry {
    packages: Vec<(String, Vec<(String, Vec<(String, String)>)>)>,
}

fn req(name: &str, range: &str) -> PackageSpec {
    PackageSpec::Npm {
        scope: None,
        name: name.to_string(),
        requested: Some(VersionSpec::Range(VersionRange::parse(range).unwrap())),
    }
}

impl Registry {
    fn new(entries: &[(&str, &str, &[(&str, &str)])]) -> Registry {
        let mut packages: Vec<(String, Vec<(String, Vec<(String, String)>)>)> = Vec::new();
        for (name, version, deps) in entries {
            let deps: Vec<(String, String)> = deps.iter().map(|(n, r)| (n.to_string(), r.to_string())).collect();
            match packages.iter_mut().find(|(n, _)| n == name) {
                Some((_, versions)) => versions.push((version.to_string(), deps)),
                None => packages.push((name.to_string(), vec![(version.to_string(), deps)])),
            }
        }
        Registry { packages }
    }

    fn versions(&self, name: &str) -> &Vec<(String, Vec<(String, String)>)> {
        &self.packages.iter().find(|(n, _)| n == name).expect("package in the registry").1
    }

    fn packument(&self, name: &str) -> Packument {
        let mut p = Packument::new();
        for (version, _) in self.versions(name) {
            let v = parse_version(version).unwrap();
            let meta = VersionMetadata {
                name: Some(name.to_string()),
                version: Some(parse_version(version).unwrap()),
                tarball: Some(format!("https://example.com/-/{name}-{version}.tgz")),
                integrity: Some("sha512-deadbeef".to_string()),
                shasum: None,
                deprecated: None,
                file_count: None,
            };
            p.insert_version(v, meta);
        }
        p
    }

    fn requests(&self, name: &str, version: &Version) -> NameMap<(PackageSpec, DepType)> {
        let mut m = NameMap::new();
        for (v, deps) in self.versions(name) {
            if parse_version(v).unwrap().same(version) {
                for (n, r) in deps {
                    m.insert(n.clone(), (req(n, r), DepType::Prod));
                }
            }
        }
        m
    }

    fn fetch(&self, spec: &PackageSpec) -> (Package, Version) {
        let name = match spec {
            PackageSpec::Npm { name, .. } => name.clone(),
            other => panic!("unexpected specifier {:?}", other),
        };
        let resolver = PackageResolver { default_tag: "latest".to_string(), base_dir: ".".to_string() };
        let resolved = resolver.get_resolution(&name, spec, &self.packument(&name), Ok(String::new())).unwrap();
        let version = match &resolved {
            PackageResolution::Npm { version, .. } => version.clone(),
            other => panic!("unexpected resolution {:?}", other),
        };
        (Package { name, from: spec.clone(), resolved }, version)
    }
}

/// Resolves `name@range` and everything below it, taking packages from
/// `lockfile` where it has them.
fn resolve_with(
    registry: &Registry,
    name: &str,
    range: &str,
    lockfile: Option<Lockfile>,
    locked: bool,
) -> (Graph, Result<(), ResolveError>, usize) {
    let (root_pkg, root_version) = registry.fetch(&req(name, range));
    let root_reqs = registry.requests(name, &root_version);
    let mut graph = Graph::new(Node::new(root_pkg, root_reqs, None, None));
    let mut state = ResolveState::new(&graph, lockfile, None, locked);
    let mut event = ResolveEvent::Start;
    let mut fetch_count = 0;
    loop {
        match resolve_step(&mut graph, &mut state, event) {
            ResolveAction::Fetch(specs) => {
                let mut fetched = Vec::new();
                for spec in specs {
                    fetch_count += 1;
                    let (package, version) = registry.fetch(&spec);
                    let requests = registry.requests(&package.name, &version);
                    fetched.push(FetchedPackage { spec, package, requests, tarball_size: None, file_count: None });
                }
                event = ResolveEvent::Fetched(fetched);
            }
            ResolveAction::Done(r) => return (graph, r, fetch_count),
            ResolveAction::TooManyPackages => panic!("too many packages"),
        }
    }
}

/// Every request of every node has a dependency recorded under its name,
/// and the node the name resolves to satisfies the request.
fn assert_every_request_resolved(graph: &Graph) {
    for i in graph.node_indices() {
        let node = graph.node(i);
        for (name, (spec, _)) in &node.dependency_reqs.entries {
            assert!(node.dependencies.get(name).is_some(), "{name} is not recorded");
            let target = graph.find_by_name(i, name).expect("the name resolves");
            assert!(graph.node(target).package.resolved.satisfies_canonical(spec));
        }
    }
}

fn resolve(registry: &Registry, name: &str, range: &str) -> Graph {
    let (graph, r, _) = resolve_with(registry, name, range, None, false);
    assert!(r.is_ok());
    assert_every_request_resolved(&graph);
    graph
}

/// The lockfile's packages: each path key with the version installed there.
fn layout(graph: &Graph) -> Vec<(String, String)> {
    let lock = graph.to_lockfile();
    let mut out: Vec<(String, String)> = lock
        .packages
        .entries
        .iter()
        .map(|(key, node)| {
            let v = node.version.as_ref().unwrap();
            (key.clone(), format!("{}.{}.{}", v.major, v.minor, v.patch))
        })
        .collect();
    out.sort();
    out
}

/// Every lockfile entry records the registry's tarball URL and integrity
/// for its package, and asks for what the registry says that version
/// depends on, in order.
fn assert_entries_match_registry(graph: &Graph, registry: &Registry) {
    let lock = graph.to_lockfile();
    for (_, node) in &lock.packages.entries {
        let version = node.version.as_ref().unwrap();
        let text = version.to_text();
        assert_eq!(node.resolved, Some(format!("https://example.com/-/{}-{}.tgz", node.name, text)));
        assert_eq!(node.integrity, Some("sha512-deadbeef".to_string()));
        let declared = registry
            .versions(&node.name)
            .iter()
            .find(|(v, _)| parse_version(v).unwrap().same(version))
            .map(|(_, deps)| deps.clone())
            .unwrap();
        assert_eq!(node.dependencies.len(), declared.len());
        for ((name, spec), (dname, range)) in node.dependencies.iter().zip(declared.iter()) {
            assert_eq!(name, dname);
            assert!(requests_match(spec, &req(dname, range)));
        }
    }
}

fn expect(list: &[(&str, &str)]) -> Vec<(String, String)> {
    list.iter().map(|(k, v)| (k.to_string(), v.to_string())).collect()
}

#[test]
fn resolver_basic_basic_flatten() {
    let registry = Registry::new(&[
        ("a", "1.0.0", &[("b", "^2.0.0")]),
        ("b", "2.0.0", &[("c", "^3.0.0")]),
        ("c", "3.0.0", &[("d", "^4.0.0")]),
        ("d", "4.0.0", &[]),
    ]);
    let graph = resolve(&registry, "a", "^1");
    assert_eq!(graph.node(graph.root()).package.name, "a");
    assert_eq!(layout(&graph), expect(&[("b", "2.0.0"), ("c", "3.0.0"), ("d", "4.0.0")]));
    assert_entries_match_registry(&graph, &registry);
}

#[test]
fn resolver_basic_nesting_simple_conflict() {
    let registry = Registry::new(&[
        ("a", "1.0.0", &[("b", "^2.0.0")]),
        ("b", "2.0.0", &[("c", "^3.0.0"), ("d", "^4.0.0")]),
        ("c", "3.0.0", &[]),
        ("c", "5.0.0", &[]),
        ("d", "4.0.0", &[("c", "^5.0.0")]),
    ]);
    let graph = resolve(&registry, "a", "^1");
    assert_eq!(
        layout(&graph),
        expect(&[("b", "2.0.0"), ("c", "3.0.0"), ("d", "4.0.0"), ("d/node_modules/c", "5.0.0")])
    );
    assert_entries_match_registry(&graph, &registry);
}

#[test]
fn nesting_sibling_conflict() {
    let registry = Registry::new(&[
        ("a", "1.0.0", &[("b", "^2.0.0"), ("c", "^3.0.0")]),
        ("b", "2.0.0", &[("d", "^4.0.0")]),
        ("c", "3.0.0", &[("d", "^5.0.0")]),
        ("d", "4.0.0", &[]),
        ("d", "5.0.0", &[]),
    ]);
    let graph = resolve(&registry, "a", "^1");
    assert_eq!(
        layout(&graph),
        expect(&[("b", "2.0.0"), ("c", "3.0.0"), ("c/node_modules/d", "5.0.0"), ("d", "4.0.0")])
    );
    assert_entries_match_registry(&graph, &registry);
}

fn sibling_registry() -> Registry {
    Registry::new(&[
        ("a", "1.0.0", &[("b", "^2.0.0"), ("c", "^3.0.0")]),
        ("b", "2.0.0", &[("d", "^4.0.0")]),
        ("c", "3.0.0", &[("d", "^5.0.0")]),
        ("d", "4.0.0", &[]),
        ("d", "5.0.0", &[]),
    ])
}

#[test]
fn lockfile_entries_are_reused_without_fetching() {
    let registry = sibling_registry();
    let (first, r, fetched) = resolve_with(&registry, "a", "^1", None, false);
    assert!(r.is_ok());
    assert_eq!(fetched, 4);
    let lock = first.to_lockfile();
    let (second, r, fetched) = resolve_with(&registry, "a", "^1", Some(lock), true);
    assert!(r.is_ok());
    assert_eq!(fetched, 0);
    assert_eq!(layout(&second), layout(&first));
}

#[test]
fn locked_install_refuses_another_result() {
    let registry = sibling_registry();
    let other = Registry::new(&[("a", "1.0.0", &[("b", "^2.0.0")]), ("b", "2.0.0", &[("d", "^4.0.0")]), ("d", "4.0.0", &[])]);
    let (small, r, _) = resolve_with(&other, "a", "^1", None, false);
    assert!(r.is_ok());
    let lock = small.to_lockfile();
    // The root now also asks for `c`, which the lockfile does not hold.
    let (_, r, _) = resolve_with(&registry, "a", "^1", Some(lock), true);
    assert!(matches!(r, Err(ResolveError::LockfileMismatch)));
    // Without `locked`, the same lockfile only serves as a source.
    let lock = small.to_lockfile();
    let (g, r, _) = resolve_with(&registry, "a", "^1", Some(lock), false);
    assert!(r.is_ok());
    assert_eq!(
        layout(&g),
        expect(&[("b", "2.0.0"), ("c", "3.0.0"), ("c/node_modules/d", "5.0.0"), ("d", "4.0.0")])
    );
}
