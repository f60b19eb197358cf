use orogene::view::{decimal_text, sort_pairs, view_summary, Bins, Block, Person, Published, Span, Tone, ViewInfo};

fn text(spans: &[Span]) -> String {
    spans.iter().map(|s| s.text.clone()).collect()
}

fn info() -> ViewInfo {
    ViewInfo {
        name: Some("pkg".to_string()),
        version: Some("1.2.3".to_string()),
        license: None,
        description: Some("A package.".to_string()),
        homepage: None,
        deprecated: Some("use other".to_string()),
        keywords: vec!["a".to_string(), "b".to_string()],
        bin: Some(Bins::Single),
        tarball: Some("https://r/pkg.tgz".to_string()),
        shasum: None,
        integrity: Some("sha512-x".to_string()),
        unpacked_size: None,
        dependencies: vec![("zeta".to_string(), "^1".to_string()), ("alpha".to_string(), "^2".to_string())],
        releases: 12,
        maintainers: vec![
            Person::Text("Alex <a@x>".to_string()),
            Person::Parts { name: Some("Sam".to_string()), email: Some("s@x".to_string()), url: None },
        ],
        published: Some(Published { when: "2 days ago".to_string(), by: "alex".to_string(), email: None }),
    }
}

fn lines(blocks: &[Block]) -> Vec<String> {
    blocks
        .iter()
        .map(|b| match b {
            Block::Line(s) => text(s),
            Block::Dependencies { cells, more } => {
                let mut t = cells.iter().map(|c| text(c)).collect::<Vec<_>>().join(" | ");
                if *more > 0 {
                    t.push_str(&format!(" (...and {} more)", more));
                }
                format!("[{}]", t)
            }
        })
        .collect()
}

#[test]
fn summary_lines_in_order() {
    let out = view_summary(&info());
    assert_eq!(
        lines(&out),
        vec![
            "pkg@1.2.3 | Proprietary | deps: 2 | releases: 12".to_string(),
            "A package.".to_string(),
            "".to_string(),
            "DEPRECATED - use other".to_string(),
            "".to_string(),
            "keywords: a, b".to_string(),
            "".to_string(),
            "bins: pkg".to_string(),
            "".to_string(),
            "dist".to_string(),
            ".tarball: https://r/pkg.tgz".to_string(),
            ".integrity: sha512-x".to_string(),
            "".to_string(),
            "[alpha: ^2 | zeta: ^1]".to_string(),
            "".to_string(),
            "maintainers:".to_string(),
            "- Alex <a@x>".to_string(),
            "- Sam <s@x>".to_string(),
            "".to_string(),
            "published 2 days ago by alex".to_string(),
        ]
    );
    match &out[0] {
        Block::Line(spans) => {
            assert_eq!(spans[0].tone, Tone::Title);
            assert_eq!(spans[4].tone, Tone::Green);
        }
        _ => panic!("expected a line"),
    }
}

#[test]
fn at_most_25_dependencies_are_shown() {
    let mut i = info();
    i.dependencies = (0..30).map(|k| (format!("dep{:02}", 29 - k), "*".to_string())).collect();
    i.deprecated = None;
    let out = view_summary(&i);
    let grid = out.iter().find_map(|b| match b {
        Block::Dependencies { cells, more } => Some((cells.len(), *more, text(&cells[0]))),
        _ => None,
    });
    assert_eq!(grid, Some((25, 5, "dep00: *".to_string())));
}

#[test]
fn missing_name_and_version_have_defaults() {
    let mut i = info();
    i.name = None;
    i.version = None;
    i.license = Some("MIT".to_string());
    let out = view_summary(&i);
    assert_eq!(lines(&out)[0], "@0.0.0 | MIT | deps: 2 | releases: 12");
}

#[test]
fn pairs_sort_by_name_then_value() {
    let v = vec![
        ("b".to_string(), "2".to_string()),
        ("a".to_string(), "9".to_string()),
        ("b".to_string(), "1".to_string()),
    ];
    let s = sort_pairs(&v);
    assert_eq!(s, vec![("a".to_string(), "9".to_string()), ("b".to_string(), "1".to_string()), ("b".to_string(), "2".to_string())]);
}

#[test]
fn decimals() {
    assert_eq!(decimal_text(0), "0");
    assert_eq!(decimal_text(7), "7");
    assert_eq!(decimal_text(1090), "1090");
}

#[test]
fn unpacked_size_is_written_in_decimal_units() {
    let mut i = info();
    i.unpacked_size = Some(1500);
    let out = view_summary(&i);
    assert!(lines(&out).contains(&".unpackedSize: 1.50 KB".to_string()));
}
