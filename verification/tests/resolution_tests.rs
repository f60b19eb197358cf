use orogene::classic::{ClassicResolution, ClassicResolver, ClassicResolverError, ResolverError};
use orogene::error::NassunError;
use orogene::metadata::{Packument, VersionMetadata};
use orogene::resolution::{max_satisfying, PackageResolution, PackageResolver};
use orogene::semver::{Version, VersionRange};
use orogene::spec::{PackageSpec, VersionSpec};

fn v(major: u64, minor: u64, patch: u64) -> Version {
    Version::new(major, minor, patch)
}

fn meta(version: Version, tarball: Option<&str>, integrity: Option<&str>) -> VersionMetadata {
    VersionMetadata {
        name: Some("pkg".to_string()),
        version: Some(version),
        tarball: tarball.map(|t| t.to_string()),
        integrity: integrity.map(|t| t.to_string()),
        shasum: None,
        deprecated: None,
        file_count: None,
    }
}

fn packument() -> Packument {
    let mut p = Packument::new();
    for (ma, mi, pa) in [(1, 0, 0), (1, 2, 0), (1, 5, 3), (2, 0, 0)] {
        let url = format!("https://r.example/pkg-{ma}.{mi}.{pa}.tgz");
        p.insert_version(v(ma, mi, pa), meta(v(ma, mi, pa), Some(&url), None));
    }
    p.insert_tag("latest".to_string(), v(1, 2, 0));
    p
}

fn npm(requested: Option<VersionSpec>) -> PackageSpec {
    PackageSpec::Npm { scope: None, name: "pkg".to_string(), requested }
}

fn range(text: &str) -> VersionSpec {
    VersionSpec::Range(VersionRange::parse(text).unwrap())
}

fn resolver() -> PackageResolver {
    PackageResolver { default_tag: "latest".to_string(), base_dir: ".".to_string() }
}

fn npm_version(r: &Result<PackageResolution, NassunError>) -> (u64, u64, u64) {
    match r {
        Ok(PackageResolution::Npm { version, .. }) => (version.major, version.minor, version.patch),
        other => panic!("expected an npm resolution, got {:?}", other),
    }
}

#[test]
fn bare_name_takes_the_default_tag() {
    let r = resolver().get_resolution("pkg", &npm(None), &packument(), Ok(String::new()));
    assert_eq!(npm_version(&r), (1, 2, 0));
}

#[test]
fn range_prefers_the_tagged_version_when_it_matches() {
    let r = resolver().get_resolution("pkg", &npm(Some(range("^1.0.0"))), &packument(), Ok(String::new()));
    assert_eq!(npm_version(&r), (1, 2, 0));
}

#[test]
fn range_falls_back_to_the_greatest_match() {
    let r = resolver().get_resolution("pkg", &npm(Some(range(">=1.3.0 <3"))), &packument(), Ok(String::new()));
    assert_eq!(npm_version(&r), (2, 0, 0));
    match r {
        Ok(PackageResolution::Npm { tarball, name, integrity, .. }) => {
            assert_eq!(tarball, "https://r.example/pkg-2.0.0.tgz");
            assert_eq!(name, "pkg");
            assert!(integrity.is_none());
        }
        _ => unreachable!(),
    }
}

#[test]
fn exact_version_and_tag_requests() {
    let r = resolver().get_resolution("pkg", &npm(Some(VersionSpec::Version(v(1, 5, 3)))), &packument(), Ok(String::new()));
    assert_eq!(npm_version(&r), (1, 5, 3));
    let mut p = packument();
    p.insert_tag("next".to_string(), v(2, 0, 0));
    let r = resolver().get_resolution("pkg", &npm(Some(VersionSpec::Tag("next".to_string()))), &p, Ok(String::new()));
    assert_eq!(npm_version(&r), (2, 0, 0));
}

#[test]
fn unmatched_range_reports_the_available_versions() {
    let r = resolver().get_resolution("pkg", &npm(Some(range("^9"))), &packument(), Ok(String::new()));
    match r {
        Err(NassunError::NoVersion { name, versions, .. }) => {
            assert_eq!(name, "pkg");
            assert_eq!(versions.len(), 4);
        }
        other => panic!("expected NoVersion, got {:?}", other),
    }
}

#[test]
fn empty_packument_has_no_version() {
    let r = resolver().get_resolution("pkg", &npm(None), &Packument::new(), Ok(String::new()));
    assert!(matches!(r, Err(NassunError::NoVersion { .. })));
}

#[test]
fn missing_tarball_is_an_error() {
    let mut p = Packument::new();
    p.insert_version(v(1, 0, 0), meta(v(1, 0, 0), None, None));
    p.insert_tag("latest".to_string(), v(1, 0, 0));
    let r = resolver().get_resolution("pkg", &npm(None), &p, Ok(String::new()));
    assert!(matches!(r, Err(NassunError::NoTarball(..))));
}

#[test]
fn integrity_is_parsed() {
    let mut p = Packument::new();
    let good = "sha512-3q2+7w==";
    p.insert_version(v(1, 0, 0), meta(v(1, 0, 0), Some("https://r.example/a.tgz"), Some(good)));
    p.insert_tag("latest".to_string(), v(1, 0, 0));
    let r = resolver().get_resolution("pkg", &npm(None), &p, Ok(String::new()));
    match r {
        Ok(PackageResolution::Npm { integrity: Some(i), .. }) => assert!(i.starts_with("sha512-")),
        other => panic!("expected an integrity, got {:?}", other),
    }
    let mut bad = Packument::new();
    bad.insert_version(v(1, 0, 0), meta(v(1, 0, 0), Some("https://r.example/a.tgz"), Some("nope")));
    bad.insert_tag("latest".to_string(), v(1, 0, 0));
    let r = resolver().get_resolution("pkg", &npm(None), &bad, Ok(String::new()));
    assert!(matches!(r, Err(NassunError::IntegrityParseError(_))));
}

#[test]
fn directory_and_git_requests() {
    let dir = PackageSpec::Dir { path: "../thing".to_string() };
    let r = resolver().get_resolution("thing", &dir, &Packument::new(), Ok("/abs/thing".to_string()));
    match r {
        Ok(PackageResolution::Dir { name, path }) => {
            assert_eq!(name, "thing");
            assert_eq!(path, "/abs/thing");
        }
        other => panic!("expected a directory, got {:?}", other),
    }
    let r = resolver().get_resolution(
        "thing",
        &dir,
        &Packument::new(),
        Err(("Failed to canonicalize path at ../thing.".to_string(), "not found".to_string())),
    );
    match r {
        Err(NassunError::IoError(context, message)) => {
            assert_eq!(context, "Failed to canonicalize path at ../thing.");
            assert_eq!(message, "not found");
        }
        other => panic!("expected an io error, got {:?}", other),
    }
    let git = PackageSpec::Git { info: "github:a/b".to_string() };
    let r = resolver().get_resolution("b", &git, &Packument::new(), Ok(String::new()));
    assert!(matches!(r, Ok(PackageResolution::Git { .. })));
}

#[test]
fn alias_resolves_its_target() {
    let alias = PackageSpec::Alias { name: "other".to_string(), spec: Box::new(npm(Some(range("^2")))) };
    let r = resolver().get_resolution("other", &alias, &packument(), Ok(String::new()));
    assert_eq!(npm_version(&r), (2, 0, 0));
}

#[test]
fn max_satisfying_picks_the_greatest() {
    let p = packument();
    let k = max_satisfying(&p, &VersionRange::parse("^1").unwrap()).unwrap();
    assert_eq!(p.versions[k].0.minor, 5);
    assert!(max_satisfying(&p, &VersionRange::parse("^3").unwrap()).is_none());
}

#[test]
fn satisfies_checks_versions_and_paths() {
    let res = PackageResolution::Npm {
        name: "pkg".to_string(),
        version: v(1, 2, 3),
        tarball: "t".to_string(),
        integrity: None,
    };
    let unused = || Err(("unused".to_string(), "unused".to_string()));
    assert!(res.satisfies(&npm(Some(range("^1.2.0"))), unused()).unwrap());
    assert!(!res.satisfies(&npm(Some(range("^2"))), unused()).unwrap());
    assert!(res.satisfies(&npm(Some(VersionSpec::Version(v(1, 2, 3)))), unused()).unwrap());
    assert!(!res.satisfies(&npm(Some(VersionSpec::Tag("latest".to_string()))), unused()).unwrap());
    let dir = PackageResolution::Dir { name: "d".to_string(), path: "/x/d".to_string() };
    // A relative specifier of the same directory, canonicalized by the caller.
    let rel = PackageSpec::Dir { path: "./d".to_string() };
    assert!(dir.satisfies(&rel, Ok("/x/d".to_string())).unwrap());
    assert!(!dir.satisfies(&rel, Ok("/x/e".to_string())).unwrap());
    match dir.satisfies(&rel, Err(("Failed to canonicalize path: ./d.".to_string(), "not found".to_string()))) {
        Err(NassunError::IoError(context, message)) => {
            assert_eq!(context, "Failed to canonicalize path: ./d.");
            assert_eq!(message, "not found");
        }
        other => panic!("expected an I/O error, got {:?}", other),
    }
    assert!(!dir.satisfies(&npm(Some(range("^1"))), unused()).unwrap());
    assert!(dir.satisfies_canonical(&PackageSpec::Dir { path: "/x/d".to_string() }));
    assert!(!dir.satisfies_canonical(&PackageSpec::Dir { path: "/x/e".to_string() }));
    assert_eq!(res.name(), "pkg");
    assert!(res.integrity().is_none());
    assert_eq!(res.npm_version().unwrap().patch, 3);
    assert!(dir.npm_version().is_none());
}

#[test]
fn classic_resolver_defaults_to_latest() {
    let r = ClassicResolver::new().resolve("pkg", &npm(None), &packument(), Ok(String::new()));
    match r {
        Ok(ClassicResolution::Npm { version, tarball }) => {
            assert_eq!((version.major, version.minor, version.patch), (1, 2, 0));
            assert_eq!(tarball, "https://r.example/pkg-1.2.0.tgz");
        }
        other => panic!("expected a resolution, got {:?}", other),
    }
}

#[test]
fn classic_resolver_honours_its_default_tag() {
    let mut p = packument();
    p.insert_tag("beta".to_string(), v(2, 0, 0));
    let r = ClassicResolver::new().default_tag("beta".to_string()).resolve("pkg", &npm(None), &p, Ok(String::new()));
    match r {
        Ok(ClassicResolution::Npm { version, .. }) => assert_eq!(version.major, 2),
        other => panic!("expected a resolution, got {:?}", other),
    }
}

#[test]
fn classic_resolver_rejects_git() {
    let git = PackageSpec::Git { info: "github:a/b".to_string() };
    let r = ClassicResolver::new().resolve("b", &git, &packument(), Ok(String::new()));
    assert!(matches!(r, Err(ResolverError::Invalid(ClassicResolverError::InvalidPackageSpec))));
}

#[test]
fn classic_no_version_lists_every_version() {
    let wanted = npm(Some(range("^9")));
    match ClassicResolver::new().resolve("pkg", &wanted, &packument(), Ok(String::new())) {
        Err(ResolverError::NoVersion { name, spec, versions }) => {
            assert_eq!(name, "pkg");
            assert!(matches!(spec, PackageSpec::Npm { ref name, .. } if name == "pkg"));
            let p = packument();
            assert_eq!(versions.len(), p.versions.len());
            for (k, got) in versions.iter().enumerate() {
                assert!(got.same(&p.versions[k].0));
            }
        }
        other => panic!("expected NoVersion, got {:?}", other),
    }
}
