use orogene::spec::{dependency_request, scope_of, PackageSpec, VersionSpec};
use orogene::paths::{join_path, link_target, parent_of, tarball_entry_path};
use orogene::commands::{LogLevel, PingHandler, ShellCmd};
use orogene::error::{AlabasterError, Internal, InternalError, IoContext, NassunError};
use orogene::names::{names_match, NameMap};
use orogene::linkers::requests_match;

#[test]
fn io_context_wraps_failures() {
    let ok: Result<u8, String> = Ok(3);
    assert!(matches!(ok.io_context("reading".to_string()), Ok(3)));
    let bad: Result<u8, String> = Err("denied".to_string());
    match bad.io_context("Failed to read x".to_string()) {
        Err(NassunError::IoError(c, m)) => {
            assert_eq!(c, "Failed to read x");
            assert_eq!(m, "denied");
        }
        other => panic!("expected an io error, got {:?}", other),
    }
}

#[test]
fn internal_errors_carry_context() {
    let bad: Result<(), String> = Err("boom".to_string());
    let e = bad.with_context("while writing".to_string()).unwrap_err();
    assert_eq!(e.message(), "boom\n\n  while writing");
    let bad: Result<(), String> = Err("boom".to_string());
    let e = bad.to_internal().unwrap_err();
    assert!(e.context.is_empty());
    let e = InternalError { source: "s".to_string(), context: vec!["a".to_string(), "b".to_string()] };
    assert_eq!(e.message(), "s\n\n  a\n  b");
}

#[test]
fn alabaster_message() {
    let e = AlabasterError::FileProviderInitError("no domain".to_string());
    assert_eq!(e.message(), "Failed to initialize macOS File Provider: no domain");
}

#[test]
fn ping_registry_defaults_to_npm() {
    assert_eq!(PingHandler.registry(None), "https://registry.npmjs.org");
    assert_eq!(PingHandler.registry(Some("https://r.example".to_string())), "https://r.example");
}

#[test]
fn shell_defaults() {
    let c = ShellCmd::new(vec!["index.js".to_string()]);
    assert_eq!(c.node, "node");
    assert_eq!(c.loglevel, LogLevel::Warn);
    assert_eq!(c.args, vec!["index.js".to_string()]);
    assert!(!c.json && !c.quiet && c.data_dir.is_none());
}

#[test]
fn names_compare_ignoring_case() {
    assert!(names_match(&"React".to_string(), &"react".to_string()));
    assert!(!names_match(&"react".to_string(), &"preact".to_string()));
    assert!(names_match(&"STRASSE".to_string(), &"strasse".to_string()));
    assert!(names_match(&"Foo".to_string(), &"foo".to_string()));
    let mut m: NameMap<u32> = NameMap::new();
    m.insert("Foo".to_string(), 1);
    m.insert("foo".to_string(), 2);
    assert_eq!(m.len(), 1);
    assert_eq!(m.get(&"FOO".to_string()), Some(&2));
    assert_eq!(m.entries[0].0, "Foo");
    assert!(m.contains_key(&"foo".to_string()));
    assert!(!m.contains_key(&"bar".to_string()));
}

#[test]
fn path_texts() {
    assert_eq!(join_path("a", "b"), "a/b");
    assert_eq!(join_path("a/", "b"), "a/b");
    assert_eq!(join_path("", "b"), "b");
    assert_eq!(join_path("a", "/b"), "/b");
    assert_eq!(parent_of("a/b/c"), "a/b");
    assert_eq!(parent_of("/a"), "/");
    assert_eq!(parent_of("a"), "");
    assert_eq!(link_target("/foo/bar/quux", "/foo/bar/baz/link"), Some("../quux".to_string()));
    assert_eq!(link_target("foo", "/bar/link"), None);
}

#[test]
fn tarball_entries_go_below_package() {
    assert_eq!(tarball_entry_path("/work/pkg/src/index.js", "/work/pkg"), Some("./package/src/index.js".to_string()));
    assert_eq!(tarball_entry_path("/work/pkg/package.json", "/work/pkg"), Some("./package/package.json".to_string()));
    assert_eq!(tarball_entry_path("src/x.js", "/work/pkg"), None);
}

#[test]
fn requests_of_manifest_entries() {
    match dependency_request("@babel/core".to_string(), "^7.0.0") {
        PackageSpec::Npm { scope, name, requested: Some(VersionSpec::Range(r)) } => {
            assert_eq!(scope.as_deref(), Some("babel"));
            assert_eq!(name, "@babel/core");
            assert_eq!(r.as_text(), "^7.0.0");
        }
        other => panic!("unexpected {:?}", other),
    }
    match dependency_request("left-pad".to_string(), "1.3.0") {
        PackageSpec::Npm { scope: None, requested: Some(VersionSpec::Version(v)), .. } => assert_eq!(v.minor, 3),
        other => panic!("unexpected {:?}", other),
    }
    match dependency_request("x".to_string(), "beta") {
        PackageSpec::Npm { requested: Some(VersionSpec::Tag(t)), .. } => assert_eq!(t, "beta"),
        other => panic!("unexpected {:?}", other),
    }
    match dependency_request("x".to_string(), "file:../x") {
        PackageSpec::Dir { path } => assert_eq!(path, "../x"),
        other => panic!("unexpected {:?}", other),
    }
    assert_eq!(scope_of("@s/b"), Some("s".to_string()));
    assert_eq!(scope_of("plain"), None);
    assert_eq!(scope_of("@noslash"), None);
}

#[test]
fn ranges_compare_as_parsed() {
    let caret = dependency_request("a".to_string(), "^1");
    let spelled = dependency_request("a".to_string(), ">=1.0.0 <2.0.0-0");
    let other = dependency_request("a".to_string(), "^2");
    assert!(requests_match(&caret, &spelled));
    assert!(requests_match(&caret, &caret));
    assert!(!requests_match(&caret, &other));
    let tag = dependency_request("a".to_string(), "latest");
    assert!(!requests_match(&caret, &tag));
}

#[test]
fn ascii_lookups_ignore_letter_case() {
    let mut m: NameMap<u32> = NameMap::new();
    m.insert("Left-Pad".to_string(), 1);
    m.insert("lodash".to_string(), 2);
    assert_eq!(m.get(&"left-pad".to_string()), Some(&1));
    assert_eq!(m.get(&"LEFT-PAD".to_string()), Some(&1));
    assert_eq!(m.get(&"LoDash".to_string()), Some(&2));
    assert_eq!(m.get(&"left_pad".to_string()), None);
    assert!(!names_match(&"a-b".to_string(), &"a_b".to_string()));
}
