use orogene::error::NassunError;
use orogene::fetch::{
    custom_ignore_file, dir_fetcher_name, dummy_from_manifest, normalize_pack_entry, npm_name,
    pack_overrides, pick_fetcher, strip_scope_prefix, DirFetcher, FetcherKind, Manifest, NassunOpts,
    Registries,
};
use orogene::resolution::PackageResolution;
use orogene::semver::Version;
use orogene::spec::PackageSpec;

fn npm(name: &str) -> PackageSpec {
    PackageSpec::Npm { scope: None, name: name.to_string(), requested: None }
}

#[test]
fn registries_by_scope() {
    let mut r = Registries::new();
    assert_eq!(r.pick_registry(&None), "https://registry.npmjs.org/");
    r.insert(None, "https://default.example/".to_string());
    r.insert(Some("corp".to_string()), "https://corp.example/".to_string());
    assert_eq!(r.pick_registry(&Some("corp".to_string())), "https://corp.example/");
    assert_eq!(r.pick_registry(&Some("other".to_string())), "https://default.example/");
    r.insert(Some("corp".to_string()), "https://corp2.example/".to_string());
    assert_eq!(r.pick_registry(&Some("corp".to_string())), "https://corp2.example/");
}

#[test]
fn scope_registry_drops_the_at_sign() {
    assert_eq!(strip_scope_prefix("@corp"), "corp");
    assert_eq!(strip_scope_prefix("corp"), "corp");
    let opts = NassunOpts::new().scope_registry("@corp", "https://corp.example/".to_string());
    assert_eq!(opts.registries.pick_registry(&Some("corp".to_string())), "https://corp.example/");
}

#[test]
fn build_fills_in_defaults() {
    let cfg = NassunOpts::new().build("/cwd".to_string());
    assert_eq!(cfg.base_dir, "/cwd");
    assert_eq!(cfg.default_tag, "latest");
    assert!(cfg.cache.is_none());
    assert!(!cfg.memoize_metadata);
    let cfg = NassunOpts::new()
        .base_dir("/proj".to_string())
        .default_tag("next".to_string())
        .cache("/cache".to_string())
        .memoize_metadata(true)
        .registry("https://r.example/".to_string())
        .build("/cwd".to_string());
    assert_eq!(cfg.base_dir, "/proj");
    assert_eq!(cfg.default_tag, "next");
    assert_eq!(cfg.cache.as_deref(), Some("/cache"));
    assert!(cfg.memoize_metadata);
    assert_eq!(cfg.registries.pick_registry(&None), "https://r.example/");
}

#[test]
fn credentials_are_recorded_in_order() {
    let opts = NassunOpts::new()
        .token_auth("https://a/".to_string(), "t".to_string())
        .basic_auth("https://b/".to_string(), "u".to_string(), None)
        .legacy_auth("https://c/".to_string(), "l".to_string())
        .retries(3)
        .proxy(true)
        .no_proxy_domain("internal".to_string());
    assert_eq!(opts.auth.len(), 3);
    assert_eq!(opts.auth[1].0, "https://b/");
    assert_eq!(opts.retries, Some(3));
    assert_eq!(opts.proxy, Some(true));
    assert_eq!(opts.no_proxy_domain.as_deref(), Some("internal"));
}

#[test]
fn fetchers_by_kind() {
    assert_eq!(pick_fetcher(&npm("a")), FetcherKind::Npm);
    assert_eq!(pick_fetcher(&PackageSpec::Dir { path: ".".to_string() }), FetcherKind::Dir);
    assert_eq!(pick_fetcher(&PackageSpec::Git { info: "github:a/b".to_string() }), FetcherKind::Git);
    let alias = PackageSpec::Alias { name: "x".to_string(), spec: Box::new(PackageSpec::Dir { path: "d".to_string() }) };
    assert_eq!(pick_fetcher(&alias), FetcherKind::Dir);
    assert_eq!(npm_name(&npm("left-pad")), "left-pad");
    let alias = PackageSpec::Alias { name: "pad".to_string(), spec: Box::new(npm("left-pad")) };
    assert_eq!(npm_name(&alias), "pad");
    assert!(npm("left-pad").is_npm());
    assert!(!alias.is_npm());
    assert!(!PackageSpec::Dir { path: "d".to_string() }.is_npm());
}

#[test]
fn dummy_package_for_a_project() {
    let p = dummy_from_manifest(Some("my-app".to_string()));
    assert_eq!(p.name, "my-app");
    match &p.resolved {
        PackageResolution::Dir { name, path } => {
            assert_eq!(name, "my-app");
            assert_eq!(path, ".");
        }
        _ => panic!("expected a directory resolution"),
    }
    assert_eq!(dummy_from_manifest(None).name, "dummy");
}

#[test]
fn directory_manifests_become_metadata() {
    let _fetcher = DirFetcher::new();
    let m = Manifest { name: Some("oro-test".to_string()), version: Some(Version::new(1, 4, 2)) };
    let p = m.into_packument(Some("dir".to_string())).unwrap();
    assert_eq!(p.versions.len(), 1);
    assert_eq!(p.versions[0].0.minor, 4);
    assert_eq!(p.versions[0].1.name.as_deref(), Some("oro-test"));
    assert_eq!(p.get_tag("latest").unwrap().patch, 2);
    let m = Manifest { name: None, version: None };
    let meta = m.into_metadata(Some("from-dir".to_string())).unwrap();
    assert_eq!(meta.name.as_deref(), Some("from-dir"));
    let v = meta.version.unwrap();
    assert_eq!((v.major, v.minor, v.patch), (0, 0, 0));
    let m = Manifest { name: None, version: None };
    match m.into_metadata(None) {
        Err(NassunError::MiscError(msg)) => assert!(msg.starts_with("Failed to find a valid name.")),
        other => panic!("expected an error, got {:?}", other),
    }
}

#[test]
fn dir_fetcher_names() {
    let alias = PackageSpec::Alias { name: "x".to_string(), spec: Box::new(PackageSpec::Dir { path: "d".to_string() }) };
    assert_eq!(dir_fetcher_name(&alias, Ok("ignored".to_string())).unwrap(), "x");
    let dir = PackageSpec::Dir { path: "d".to_string() };
    assert_eq!(dir_fetcher_name(&dir, Ok("from-manifest".to_string())).unwrap(), "from-manifest");
}

#[test]
fn pack_entries_are_normalized() {
    assert_eq!(normalize_pack_entry("/lib"), ("lib".to_string(), "lib".to_string()));
    assert_eq!(normalize_pack_entry("./src/index.js"), ("src/index.js".to_string(), "src/index.js".to_string()));
    assert_eq!(normalize_pack_entry("dist/*"), ("dist".to_string(), "dist".to_string()));
    assert_eq!(normalize_pack_entry("!!secret"), ("!!secret".to_string(), "secret".to_string()));
    assert_eq!(normalize_pack_entry("plain"), ("plain".to_string(), "plain".to_string()));
}

#[test]
fn pack_overrides_in_order() {
    let files = vec![("lib".to_string(), true), ("README.md".to_string(), false)];
    let out = pack_overrides(&files, &None, &Some("index.js".to_string()), &vec!["bin/cli.js".to_string()]);
    assert_eq!(out[0], "!.npmignore");
    assert_eq!(out[21], "!/archived-packages/**");
    assert_eq!(&out[22..25], &["lib".to_string(), "lib/**".to_string(), "README.md".to_string()]);
    assert_eq!(out[25], "index.js");
    assert_eq!(out[26], "bin/cli.js");
    assert_eq!(out[27], "/package.json");
    assert_eq!(out.last().unwrap(), "!/package-lock.kdl");
    assert_eq!(out.len(), 22 + 3 + 1 + 1 + 7);
    assert_eq!(custom_ignore_file(true), ".npmignore");
    assert_eq!(custom_ignore_file(false), ".gitignore");
}

#[test]
fn dir_read_name() {
    // The project directory's manifest names the package `oro-test`.
    let dir = PackageSpec::Dir { path: "oro-test".to_string() };
    let manifest = Manifest { name: Some("oro-test".to_string()), version: Some(Version::new(1, 4, 2)) };
    let meta = manifest.into_metadata(Some("oro-test".to_string())).unwrap();
    let name = dir_fetcher_name(&dir, Ok(meta.name.unwrap())).unwrap();
    assert_eq!(name, "oro-test");
}

#[test]
fn dir_read_packument() {
    let manifest = Manifest { name: Some("oro-test".to_string()), version: Some(Version::new(1, 4, 2)) };
    let packument = manifest.into_packument(Some("oro-test".to_string())).unwrap();
    assert_eq!(packument.versions.len(), 1);
    let wanted = orogene::semver::parse_version("1.4.2").unwrap();
    assert!(packument.get_version(&wanted).is_some());
    assert_eq!(packument.get_version(&wanted).unwrap().file_count, None);
}

#[test]
fn npm_read_name() {
    let spec = PackageSpec::Npm {
        scope: None,
        name: "npm".to_string(),
        requested: Some(orogene::spec::VersionSpec::Range(orogene::semver::VersionRange::parse(">1.0.0").unwrap())),
    };
    assert_eq!(pick_fetcher(&spec), FetcherKind::Npm);
    assert_eq!(npm_name(&spec), "npm");
}
