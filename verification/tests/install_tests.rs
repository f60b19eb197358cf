use orogene::cache::{buffered_in_memory, commit_check, header_size, size_header, CommitError, ContentWriter};

use orogene::fetch::dummy_from_manifest;
use orogene::graph::{DepType, Graph, Node, Package};
use orogene::maintainer::{Layout, NodeMaintainerOptions, DEFAULT_CONCURRENCY, DEFAULT_SCRIPT_CONCURRENCY};
use orogene::names::NameMap;
use orogene::resolution::PackageResolution;
use orogene::resolver::{place_child, NodeDependency};
use orogene::scripts::{rebuild_steps, RebuildStep, ScriptSchedule};
use orogene::semver::{Version, VersionRange};
use orogene::spec::{PackageSpec, VersionSpec};

fn req(name: &str) -> PackageSpec {
    PackageSpec::Npm {
        scope: None,
        name: name.to_string(),
        requested: Some(VersionSpec::Range(VersionRange::parse("^1").unwrap())),
    }
}

fn pkg(name: &str) -> Package {
    Package {
        name: name.to_string(),
        from: req(name),
        resolved: PackageResolution::Npm {
            name: name.to_string(),
            version: Version::new(1, 0, 0),
            tarball: format!("https://r.example/{name}.tgz"),
            integrity: None,
        },
    }
}

fn add(g: &mut Graph, from: usize, name: &str) -> usize {
    let d = NodeDependency { name: name.to_string(), spec: req(name), dep_type: DepType::Prod, node_idx: from };
    place_child(g, &d, pkg(name), NameMap::new(), None, None, None)
}

#[test]
fn scripts_wait_for_their_dependencies() {
    let mut g = Graph::new(Node::new(dummy_from_manifest(Some("root".to_string())), NameMap::new(), None, None));
    let root = g.root();
    // root -> a -> b -> c; c has no script to run.
    let a = add(&mut g, root, "a");
    let b = add(&mut g, a, "b");
    let c = add(&mut g, b, "c");
    assert!(g.has_path(a, c));
    assert!(!g.has_path(c, a));
    let pending = vec![a, b, c];
    let (mut sched, ready) = ScriptSchedule::new(&g, &pending);
    assert_eq!(ready, vec![c]);
    assert!(!sched.idle());
    assert_eq!(sched.finish(c), vec![b]);
    assert_eq!(sched.finish(b), vec![a]);
    assert!(sched.idle());
    assert!(sched.finish(a).is_empty());
}

#[test]
fn independent_scripts_start_together() {
    let mut g = Graph::new(Node::new(dummy_from_manifest(Some("root".to_string())), NameMap::new(), None, None));
    let root = g.root();
    let a = add(&mut g, root, "a");
    let b = add(&mut g, root, "b");
    let (sched, ready) = ScriptSchedule::new(&g, &vec![a, b]);
    assert_eq!(ready, vec![a, b]);
    assert!(sched.idle());
}

#[test]
fn content_headers_round_trip() {
    let h = size_header(11);
    assert_eq!(h, vec![0, 0, 0, 0, 0, 0, 0, 11]);
    assert_eq!(header_size(&h), 11);
    let big = 0x0102_0304_0506_0708u64;
    assert_eq!(size_header(big), big.to_be_bytes().to_vec());
    assert_eq!(header_size(&size_header(big)), big);
}

#[test]
fn buffering_depends_on_the_announced_size() {
    assert!(!buffered_in_memory(None));
    assert!(!buffered_in_memory(Some(11)));
    assert!(buffered_in_memory(Some(1024 * 1024)));
    assert!(buffered_in_memory(Some(10 * 1024 * 1024)));
    assert!(!buffered_in_memory(Some(10 * 1024 * 1024 + 1)));
}

#[test]
fn writes_are_checked_on_close() {
    let (mut w, header) = ContentWriter::new(Some(11));
    assert_eq!(header_size(&header), 11);
    w.wrote(5);
    w.wrote(6);
    assert!(matches!(w.close(), Ok(None)));
    let (mut w, header) = ContentWriter::new(Some(24));
    assert_eq!(header_size(&header), 24);
    w.wrote(11);
    assert!(matches!(w.close(), Err(CommitError::Size { expected: 24, written: 11 })));
    let (mut w, header) = ContentWriter::new(None);
    assert_eq!(header_size(&header), 0);
    w.wrote(7);
    match w.close() {
        Ok(Some(h)) => assert_eq!(header_size(&h), 7),
        other => panic!("expected a new header, got {:?}", other),
    }
}

#[test]
fn commits_check_integrity_then_size() {
    let sri = ssri_of("hello");
    assert_eq!(commit_check(&None, sri.clone(), Some(5), 5).unwrap(), sri);
    assert!(matches!(commit_check(&None, sri.clone(), Some(6), 5), Err(CommitError::Size { expected: 6, written: 5 })));
    assert_eq!(commit_check(&Some(sri.clone()), sri.clone(), None, 5).unwrap(), sri);
    let other = ssri_of("world");
    match commit_check(&Some(other.clone()), sri.clone(), Some(6), 5) {
        Err(CommitError::IntegrityCheck { wanted, found }) => {
            assert_eq!(wanted, other);
            assert_eq!(found, sri);
        }
        r => panic!("expected an integrity failure, got {:?}", r),
    }
}

fn ssri_of(data: &str) -> String {
    let hex = match data {
        "hello" => "2cf24dba5fb0a30e26e83b2ac5b9e29e1b161e5c1fa7425e73043362938b9824",
        "world" => "486ea46224d1bb4fb680f34f7c9ad96a8f24ec88be73ea8e5a6c65260e9cb8a7",
        other => panic!("no digest on hand for {other:?}"),
    };
    format!("sha256-{}", base64_of_hex(hex))
}

fn base64_of_hex(hex: &str) -> String {
    let bytes: Vec<u8> = (0..hex.len()).step_by(2).map(|i| u8::from_str_radix(&hex[i..i + 2], 16).unwrap()).collect();
    const T: &[u8; 64] = b"ABCDEFGHIJKLMNOPQRSTUVWXYZabcdefghijklmnopqrstuvwxyz0123456789+/";
    let mut out = String::new();
    for chunk in bytes.chunks(3) {
        let b = [chunk[0], *chunk.get(1).unwrap_or(&0), *chunk.get(2).unwrap_or(&0)];
        let n = ((b[0] as u32) << 16) | ((b[1] as u32) << 8) | b[2] as u32;
        out.push(T[(n >> 18) as usize & 63] as char);
        out.push(T[(n >> 12) as usize & 63] as char);
        out.push(if chunk.len() > 1 { T[(n >> 6) as usize & 63] as char } else { '=' });
        out.push(if chunk.len() > 2 { T[n as usize & 63] as char } else { '=' });
    }
    out
}

#[test]
fn maintainer_options() {
    let opts = NodeMaintainerOptions::new();
    assert_eq!(opts.concurrency, DEFAULT_CONCURRENCY);
    assert_eq!(opts.script_concurrency, DEFAULT_SCRIPT_CONCURRENCY);
    assert_eq!(opts.layout(), Layout::Isolated);
    assert_eq!(opts.project_root(), ".");
    let opts = opts.hoisted(true).root("/proj".to_string()).cache("/cache".to_string()).concurrency(4).locked(true);
    assert_eq!(opts.layout(), Layout::Hoisted);
    assert_eq!(opts.project_root(), "/proj");
    assert_eq!(opts.nassun_opts.base_dir.as_deref(), Some("/proj"));
    assert_eq!(opts.nassun_opts.cache.as_deref(), Some("/cache"));
    assert_eq!(opts.concurrency, 4);
    assert!(opts.locked);
}

#[test]
fn lockfile_choice() {
    let g = Graph::new(Node::new(dummy_from_manifest(Some("root".to_string())), NameMap::new(), None, None));
    let lock = g.to_lockfile();
    let opts = NodeMaintainerOptions::new();
    assert!(opts.pick_lockfile(vec![None, None, None]).is_none());
    let opts = NodeMaintainerOptions::new();
    let picked = opts.pick_lockfile(vec![None, Some(g.to_lockfile()), None]).unwrap();
    assert!(picked.matches(&lock));
    let opts = NodeMaintainerOptions::new().npm_lock(g.to_lockfile());
    assert!(opts.pick_lockfile(vec![]).is_some());
}

#[test]
fn rebuild_runs_scripts_around_linking() {
    assert_eq!(
        rebuild_steps(false),
        vec![RebuildStep::Preinstall, RebuildStep::LinkBins, RebuildStep::Install, RebuildStep::Postinstall]
    );
    assert_eq!(rebuild_steps(true), vec![RebuildStep::LinkBins]);
    assert_eq!(RebuildStep::Preinstall.event(), Some("preinstall".to_string()));
    assert_eq!(RebuildStep::LinkBins.event(), None);
    assert_eq!(RebuildStep::Install.event(), Some("install".to_string()));
    assert_eq!(RebuildStep::Postinstall.event(), Some("postinstall".to_string()));
}

#[test]
fn an_integrity_without_hashes_matches_nothing() {
    let sri = ssri_of("hello");
    match commit_check(&Some(sri.clone()), String::new(), None, 5) {
        Err(CommitError::IntegrityCheck { wanted, found }) => {
            assert_eq!(wanted, sri);
            assert_eq!(found, "");
        }
        r => panic!("expected an integrity failure, got {:?}", r),
    }
    assert!(matches!(commit_check(&Some(sri), "   ".to_string(), None, 5), Err(CommitError::IntegrityCheck { .. })));
    // Without an expected integrity nothing is compared.
    assert_eq!(commit_check(&None, String::new(), None, 5).unwrap(), "");
}

#[test]
fn commit_reports_the_size_before_the_integrity() {
    let sri = ssri_of("hello");
    let other = ssri_of("world");
    let (mut w, _) = ContentWriter::new(Some(6));
    w.wrote(5);
    assert!(matches!(w.commit(&Some(other.clone()), sri.clone()), Err(CommitError::Size { expected: 6, written: 5 })));
    let (mut w, _) = ContentWriter::new(Some(5));
    w.wrote(5);
    assert!(matches!(w.commit(&Some(other), sri.clone()), Err(CommitError::IntegrityCheck { .. })));
    let (r, header) = w.commit(&Some(sri.clone()), sri.clone()).unwrap();
    assert_eq!(r, sri);
    assert!(header.is_none());
    let (mut w, _) = ContentWriter::new(None);
    w.wrote(300);
    let (_, header) = w.commit(&None, sri.clone()).unwrap();
    assert_eq!(header.unwrap(), size_header(300));
}
