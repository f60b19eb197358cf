use orogene::error::NassunError;
use orogene::git::{checkout_ref, lines_of, tag_of, versions_of_tags};
use orogene::semver::VersionRange;
use orogene::spec::PackageSpec;

const SHOW_REF: &str = "1111 refs/tags/v1.0.0\n2222 refs/tags/1.2.0\r\n3333 refs/tags/1.10.0-beta.1+exp\n4444 refs/tags/not-a-version\n5555 refs/tags/2.0.0\n";

#[test]
fn lines_split_like_str_lines() {
    assert_eq!(lines_of("a\nb\r\n\nc"), vec!["a", "b", "", "c"]);
    assert_eq!(lines_of("a\n"), vec!["a"]);
    assert_eq!(lines_of(""), Vec::<String>::new());
    assert_eq!(lines_of("\n"), vec![""]);
    assert_eq!(lines_of("x\r"), vec!["x\r"]);
    for text in ["foo\nbar\n\r\nbaz\r", "one", "\r\n\r\n", "a\n\n\nb\n"] {
        let expected: Vec<String> = text.lines().map(|l| l.to_string()).collect();
        assert_eq!(lines_of(text), expected);
    }
}

#[test]
fn tags_are_the_last_segment() {
    assert_eq!(tag_of("abc refs/tags/v1.2.3"), "v1.2.3");
    assert_eq!(tag_of("notags"), "notags");
    assert_eq!(tag_of("trailing/"), "");
}

#[test]
fn tagged_versions_skip_what_does_not_parse() {
    let versions = versions_of_tags(&lines_of(SHOW_REF));
    let texts: Vec<(u64, u64, u64)> = versions.iter().map(|v| (v.major, v.minor, v.patch)).collect();
    assert_eq!(texts, vec![(1, 0, 0), (1, 2, 0), (1, 10, 0), (2, 0, 0)]);
}

#[test]
fn a_range_checks_out_the_greatest_tagged_version() {
    let repo = "https://example.com/repo.git".to_string();
    let info = "github:example/repo#semver:^1".to_string();
    let range = VersionRange::parse("^1").unwrap();
    assert_eq!(checkout_ref(Some(&range), &None, SHOW_REF, &repo, &info).unwrap(), Some("1.2.0".to_string()));
    let pre = VersionRange::parse(">=1.10.0-beta.0 <2").unwrap();
    assert_eq!(
        checkout_ref(Some(&pre), &None, SHOW_REF, &repo, &info).unwrap(),
        Some("1.10.0-beta.1+exp".to_string())
    );
    let any = VersionRange::parse("*").unwrap();
    assert_eq!(checkout_ref(Some(&any), &Some("main".to_string()), SHOW_REF, &repo, &info).unwrap(), Some("2.0.0".to_string()));
}

#[test]
fn no_tag_in_range_is_an_error() {
    let repo = "https://example.com/repo.git".to_string();
    let info = "github:example/repo#semver:^3".to_string();
    let range = VersionRange::parse("^3").unwrap();
    match checkout_ref(Some(&range), &None, SHOW_REF, &repo, &info) {
        Err(NassunError::NoVersion { name, spec, versions }) => {
            assert_eq!(name, repo);
            assert!(matches!(spec, PackageSpec::Git { info: ref i } if *i == info));
            assert_eq!(versions.len(), 4);
        }
        other => panic!("expected NoVersion, got {:?}", other),
    }
}

#[test]
fn without_a_range_the_committish_is_used() {
    let repo = "r".to_string();
    let info = "i".to_string();
    assert_eq!(checkout_ref(None, &Some("abc123".to_string()), "", &repo, &info).unwrap(), Some("abc123".to_string()));
    assert_eq!(checkout_ref(None, &None, SHOW_REF, &repo, &info).unwrap(), None);
}

#[test]
fn git_read_packument() {
    // A repository with tags 1.0.0 and 1.2.0, and an untagged 1.5.0 at HEAD.
    let tags = "aaaa refs/tags/1.0.0\nbbbb refs/tags/1.2.0\n";
    let repo = "file:///tmp/repo".to_string();
    let info = "file:///tmp/repo".to_string();
    // No committish and no range: the clone's HEAD (nothing to check out).
    assert_eq!(checkout_ref(None, &None, tags, &repo, &info).unwrap(), None);
    // A committish (here a tag) is checked out as given.
    assert_eq!(checkout_ref(None, &Some("1.0.0".to_string()), tags, &repo, &info).unwrap(), Some("1.0.0".to_string()));
    // A range picks the greatest tag that satisfies it.
    let range = VersionRange::parse(">1.0.0 <1.5.0").unwrap();
    assert_eq!(checkout_ref(Some(&range), &None, tags, &repo, &info).unwrap(), Some("1.2.0".to_string()));
}
