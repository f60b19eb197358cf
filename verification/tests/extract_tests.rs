use orogene::extract::{
    extraction_integrity,
    bin_mode, cache_extract_mode, clean_after_cache_failure, default_extract_mode, entry_mode, entry_subpath,
    extract_source, extract_strategies, has_install_script, hoisted_extract_mode, isolated_prefers_copy,
    join_slash, needs_chmod, needs_rebuild, strip_one, tarball_key, ExtractSource, Extraction, ExtractMode,
    LinkStrategy, TarballIndex,
};

#[test]
fn copy_modes() {
    assert!(ExtractMode::Copy.is_copy());
    assert!(ExtractMode::Auto.is_copy());
    assert!(ExtractMode::Reflink.is_copy());
    assert!(!ExtractMode::Hardlink.is_copy());
    assert!(!ExtractMode::AutoHardlink.is_copy());
    assert_eq!(default_extract_mode(), ExtractMode::Auto);
}

#[test]
fn strategies_fall_back_in_order() {
    assert_eq!(extract_strategies(ExtractMode::Auto), vec![LinkStrategy::Reflink, LinkStrategy::Copy]);
    assert_eq!(
        extract_strategies(ExtractMode::AutoHardlink),
        vec![LinkStrategy::HardLink, LinkStrategy::Reflink, LinkStrategy::Copy]
    );
    assert_eq!(extract_strategies(ExtractMode::Copy), vec![LinkStrategy::Copy]);
    assert_eq!(extract_strategies(ExtractMode::Reflink), vec![LinkStrategy::Reflink]);
}

#[test]
fn permissions() {
    assert_eq!(entry_mode(None), 0o644);
    assert_eq!(entry_mode(Some(0o400)), 0o600);
    assert_eq!(entry_mode(Some(0o755)), 0o755);
    assert_eq!(bin_mode(0o644), 0o755);
    assert!(!needs_chmod(0o644));
    assert!(needs_chmod(0o755));
}

#[test]
fn entry_paths_drop_the_top_directory() {
    assert_eq!(strip_one("package/src/index.js"), Some(vec!["src".to_string(), "index.js".to_string()]));
    assert_eq!(strip_one(""), None);
    assert_eq!(entry_subpath("package/package.json"), vec!["package.json".to_string()]);
    assert_eq!(join_slash(&vec!["src".to_string(), "index.js".to_string()]), "src/index.js");
    assert_eq!(join_slash(&vec![]), "");
}

#[test]
fn cache_keys() {
    assert_eq!(tarball_key("sha512-abc"), "nassun::package::sha512-abc");
}

#[test]
fn index_records_files_and_bins() {
    let mut idx = TarballIndex::new();
    idx.record_file("a.js".to_string(), "sha1-x".to_string(), 0o644);
    idx.record_file("b.js".to_string(), "sha1-y".to_string(), 0o644);
    idx.record_file("a.js".to_string(), "sha1-z".to_string(), 0o600);
    assert_eq!(idx.files.len(), 2);
    assert_eq!(idx.files[0], ("a.js".to_string(), "sha1-z".to_string(), 0o600));
    idx.record_bin("bin/cli.js".to_string());
    assert!(idx.is_bin(&"bin/cli.js".to_string()));
    assert!(!idx.is_bin(&"a.js".to_string()));
    assert_eq!(idx.cached_file_mode(&"bin/cli.js".to_string(), 0o644), 0o755);
    assert_eq!(idx.cached_file_mode(&"a.js".to_string(), 0o644), 0o644);
}

#[test]
fn install_scripts_force_copies() {
    assert!(has_install_script(&vec!["test".to_string(), "postinstall".to_string()]));
    assert!(!has_install_script(&vec!["test".to_string(), "prepare".to_string()]));
    assert_eq!(cache_extract_mode(true, ExtractMode::Hardlink), ExtractMode::Copy);
    assert_eq!(cache_extract_mode(true, ExtractMode::Reflink), ExtractMode::Reflink);
    assert_eq!(cache_extract_mode(false, ExtractMode::Hardlink), ExtractMode::Hardlink);

    let mut ex = Extraction::new(ExtractMode::Hardlink);
    ex.index.record_file("a.js".to_string(), "sha1-x".to_string(), 0o644);
    let redo = ex.manifest_seen(true);
    assert_eq!(redo, vec![("a.js".to_string(), "sha1-x".to_string(), 0o644)]);
    assert_eq!(ex.mode, ExtractMode::Auto);
    assert!(ex.index.should_copy);

    let mut ex = Extraction::new(ExtractMode::Copy);
    ex.index.record_file("a.js".to_string(), "sha1-x".to_string(), 0o644);
    assert!(ex.manifest_seen(true).is_empty());
    assert_eq!(ex.mode, ExtractMode::Copy);
    let mut ex = Extraction::new(ExtractMode::Hardlink);
    assert!(ex.manifest_seen(false).is_empty());
    assert!(!ex.index.should_copy);
}

#[test]
fn extraction_source_choice() {
    assert_eq!(extract_source(false, true, true), ExtractSource::UncheckedTarball);
    assert_eq!(extract_source(true, true, true), ExtractSource::Cache);
    assert_eq!(extract_source(true, true, false), ExtractSource::CheckedTarball);
    assert_eq!(extract_source(true, false, true), ExtractSource::CheckedTarball);
    assert_eq!(clean_after_cache_failure(true), (true, ExtractSource::CheckedTarball));
    assert_eq!(clean_after_cache_failure(false), (false, ExtractSource::CheckedTarball));
}

#[test]
fn layout_extract_modes() {
    assert_eq!(hoisted_extract_mode(false, true, true, true), ExtractMode::AutoHardlink);
    assert_eq!(hoisted_extract_mode(true, true, false, true), ExtractMode::Reflink);
    assert_eq!(hoisted_extract_mode(true, false, true, true), ExtractMode::Copy);
    assert_eq!(hoisted_extract_mode(true, false, false, true), ExtractMode::Hardlink);
    assert_eq!(hoisted_extract_mode(true, false, false, false), ExtractMode::Copy);
    assert!(isolated_prefers_copy(true, false, false));
    assert!(isolated_prefers_copy(false, true, true));
    assert!(!isolated_prefers_copy(false, false, true));
    assert!(!isolated_prefers_copy(false, true, false));
}

#[test]
fn rebuild_needed_for_scripts_or_bins() {
    assert!(needs_rebuild(&vec![], true));
    assert!(!needs_rebuild(&vec![], false));
    assert!(!needs_rebuild(&vec!["test".to_string(), "build".to_string()], false));
    assert!(needs_rebuild(&vec!["test".to_string(), "prepare".to_string()], false));
    assert!(needs_rebuild(&vec!["postinstall".to_string()], false));
}

#[test]
fn tarball_integrity_is_declared_or_xxh3() {
    let bytes = b"some tarball bytes";
    let (sri, key) = extraction_integrity(None, bytes);
    let expected = ssri::IntegrityOpts::new().algorithm(ssri::Algorithm::Xxh3).chain(bytes).result().to_string();
    assert_eq!(sri, expected);
    assert!(sri.starts_with("xxh3-"));
    assert_eq!(key, format!("nassun::package::{expected}"));
    let (sri, key) = extraction_integrity(Some("sha512-abc".to_string()), bytes);
    assert_eq!(sri, "sha512-abc");
    assert_eq!(key, "nassun::package::sha512-abc");
}
