use orogene::semver::{parse_version, Identifier, Version, VersionRange};

fn v(major: u64, minor: u64, patch: u64) -> Version {
    Version::new(major, minor, patch)
}

#[test]
fn version_precedence_orders_numbers() {
    assert_eq!(v(1, 2, 3).precedence(&v(1, 2, 4)), -1);
    assert_eq!(v(2, 0, 0).precedence(&v(1, 9, 9)), 1);
    assert_eq!(v(1, 2, 3).precedence(&v(1, 2, 3)), 0);
}

#[test]
fn prerelease_comes_before_release() {
    let pre = parse_version("1.0.0-alpha.1").unwrap();
    let rel = v(1, 0, 0);
    assert_eq!(pre.precedence(&rel), -1);
    assert_eq!(rel.precedence(&pre), 1);
    let alpha = parse_version("1.0.0-alpha").unwrap();
    let beta = parse_version("1.0.0-beta").unwrap();
    assert_eq!(alpha.precedence(&beta), -1);
    // numeric identifiers come before alphanumeric ones
    let num = parse_version("1.0.0-1").unwrap();
    assert_eq!(num.precedence(&alpha), -1);
}

#[test]
fn build_metadata_is_ignored() {
    let a = parse_version("1.2.3+build.1").unwrap();
    let b = parse_version("1.2.3+other").unwrap();
    assert!(a.same(&b));
    assert_eq!(a.precedence(&b), 0);
    assert!(!a.same(&v(1, 2, 4)));
}

#[test]
fn parse_version_reads_parts() {
    let p = parse_version("10.20.30-rc.2").unwrap();
    assert_eq!(p.major, 10);
    assert_eq!(p.minor, 20);
    assert_eq!(p.patch, 30);
    assert_eq!(p.pre_release.len(), 2);
    match &p.pre_release[0] {
        Identifier::AlphaNumeric(s) => assert_eq!(s, "rc"),
        _ => panic!("expected alphanumeric identifier"),
    }
    match &p.pre_release[1] {
        Identifier::Numeric(n) => assert_eq!(*n, 2),
        _ => panic!("expected numeric identifier"),
    }
    assert!(parse_version("not a version").is_err());
}

#[test]
fn ranges_match_versions() {
    let r = VersionRange::parse("^1.2.0").unwrap();
    assert!(r.satisfies(&v(1, 2, 0)));
    assert!(r.satisfies(&v(1, 9, 9)));
    assert!(!r.satisfies(&v(2, 0, 0)));
    assert!(!r.satisfies(&v(1, 1, 9)));
    assert_eq!(r.as_text(), "^1.2.0");
    assert!(!r.is_any());
    assert!(VersionRange::parse("^1.2.0").unwrap().same_range(&r));
    assert!(VersionRange::parse("not a range !!").is_err());
}

#[test]
fn versions_write_back_as_parsed() {
    let v = parse_version("1.2.3-beta.4+build.5").unwrap();
    assert_eq!(v.to_text(), "1.2.3-beta.4+build.5");
    assert_eq!(Version::new(10, 0, 7).to_text(), "10.0.7");
}
