use maram::error::MaramError;
use maram::metadata::WorktreeMetadata;
use maram::path::FsPath;

fn sample() -> WorktreeMetadata {
    let mut m = WorktreeMetadata::new("feat".to_string(), vec![]);
    m.base_path = FsPath::parse("/m/repo/feat/base");
    m.add_variant("a".to_string(), FsPath::parse("/m/repo/feat/a"));
    m.add_variant("b".to_string(), FsPath::parse("/m/repo/feat/b"));
    m
}

#[test]
fn new_record_is_empty() {
    let m = WorktreeMetadata::new("feat".to_string(), vec!["x".to_string()]);
    assert_eq!(m.branch_name, "feat");
    assert_eq!(m.variants, vec!["x".to_string()]);
    assert_eq!(m.base_path.to_string(), "");
    assert!(m.variant_paths.entries().is_empty());
    assert_eq!(m.current_picked_variant, None);
    assert_eq!(m.base_commit, "");
    assert_eq!(m.parent_branch, None);
}

#[test]
fn metadata_locations() {
    let d = FsPath::parse("/m/repo/feat");
    assert_eq!(WorktreeMetadata::metadata_dir(&d).to_string(), "/m/repo/feat/.maram");
    assert_eq!(WorktreeMetadata::metadata_file(&d).to_string(), "/m/repo/feat/.maram/metadata.json");
    assert_eq!(WorktreeMetadata::layout_file(&d).to_string(), "/m/repo/feat/.maram/layout.kdl");
}

#[test]
fn add_and_remove_variants() {
    let mut m = sample();
    assert!(m.has_variant("a"));
    assert_eq!(m.variant_path("b").unwrap().to_string(), "/m/repo/feat/b");
    m.remove_variant("a");
    assert!(!m.has_variant("a"));
    assert_eq!(m.variants, vec!["b".to_string()]);
    assert_eq!(
        m.variant_path("a").unwrap_err(),
        MaramError::VariantPathNotFound { name: "a".to_string() }
    );
}

#[test]
fn add_then_remove_restores_record() {
    let mut m = sample();
    m.add_variant("c".to_string(), FsPath::parse("/m/repo/feat/c"));
    m.remove_variant("c");
    assert_eq!(m.variants, vec!["a".to_string(), "b".to_string()]);
    assert!(!m.variant_paths.contains_key("c"));
    assert_eq!(m.variant_paths.entries().len(), 2);
}

#[test]
fn pick_and_clear() {
    let mut m = sample();
    m.record_pick("a".to_string());
    assert_eq!(m.current_picked_variant, Some("a".to_string()));
    m.clear_pick();
    assert_eq!(m.current_picked_variant, None);
    m.set_base_commit("abc".to_string());
    assert_eq!(m.base_commit, "abc");
}
