use maram::error::MaramError;
use maram::metadata::WorktreeMetadata;
use maram::path::FsPath;
use maram::worktree_set::{DirEntryInfo, WorktreeSet};

fn p(s: &str) -> FsPath {
    FsPath::parse(s)
}

#[test]
fn maram_dir_resolution() {
    let home = Some(p("/home/u"));
    let d = WorktreeSet::get_maram_dir(Some("/env/dir".to_string()), Some("~/x".to_string()), home.clone());
    assert_eq!(d.unwrap().to_string(), "/env/dir");
    let d = WorktreeSet::get_maram_dir(None, Some("~/trees".to_string()), home.clone());
    assert_eq!(d.unwrap().to_string(), "/home/u/trees");
    let d = WorktreeSet::get_maram_dir(None, Some("~".to_string()), home.clone());
    assert_eq!(d.unwrap().to_string(), "/home/u");
    let d = WorktreeSet::get_maram_dir(None, Some("/custom/maram".to_string()), None);
    assert_eq!(d.unwrap().to_string(), "/custom/maram");
    let d = WorktreeSet::get_maram_dir(None, None, home);
    assert_eq!(d.unwrap().to_string(), "/home/u/maram");
    assert_eq!(WorktreeSet::get_maram_dir(None, None, None).err(), Some(MaramError::NoHomeDir));
    assert_eq!(
        WorktreeSet::get_maram_dir(None, Some("~/x".to_string()), None).err(),
        Some(MaramError::NoHomeDir)
    );
}

#[test]
fn set_directories() {
    let m = p("/home/u/maram");
    assert_eq!(WorktreeSet::get_repo_dir(&m, "repo").to_string(), "/home/u/maram/repo");
    assert_eq!(WorktreeSet::get_worktree_dir(&m, "repo", "feat").to_string(), "/home/u/maram/repo/feat");
    let s = WorktreeSet::load(&m, "repo", "feat", WorktreeMetadata::new("feat".to_string(), vec![]));
    assert_eq!(s.base_dir.to_string(), "/home/u/maram/repo/feat");
    let s = WorktreeSet::load_from_path(&p("/x/y"), WorktreeMetadata::new("y".to_string(), vec![]));
    assert_eq!(s.base_dir.to_string(), "/x/y");
}

#[test]
fn listing_keeps_directories_with_metadata() {
    let entries = vec![
        DirEntryInfo { name: Some("a".to_string()), is_dir: true, has_metadata: true },
        DirEntryInfo { name: Some("file".to_string()), is_dir: false, has_metadata: false },
        DirEntryInfo { name: Some("plain".to_string()), is_dir: true, has_metadata: false },
        DirEntryInfo { name: None, is_dir: true, has_metadata: true },
        DirEntryInfo { name: Some("b".to_string()), is_dir: true, has_metadata: true },
    ];
    assert_eq!(WorktreeSet::list_worktree_sets(&entries), vec!["a".to_string(), "b".to_string()]);
}

#[test]
fn search_for_current_set() {
    let m = p("/home/u/maram");
    assert!(WorktreeSet::is_in_worktree_set(&p("/home/u/maram/repo"), &m));
    assert!(!WorktreeSet::is_in_worktree_set(&p("/tmp"), &m));
    assert_eq!(WorktreeSet::find_current(&p("/tmp"), &m).err(), Some(MaramError::NotInWorktreeSet));
    let c = WorktreeSet::find_current(&p("/home/u/maram/repo/feat/base/src"), &m).unwrap();
    let texts: Vec<String> = c.iter().map(|x| x.to_string()).collect();
    assert_eq!(
        texts,
        vec![
            "/home/u/maram/repo/feat/base/src",
            "/home/u/maram/repo/feat/base",
            "/home/u/maram/repo/feat",
            "/home/u/maram/repo",
        ]
    );
    assert!(WorktreeSet::find_current(&m, &m).unwrap().is_empty());
    let flagged = |flags: &[bool], paths: &Vec<FsPath>| -> Vec<(FsPath, bool)> {
        paths.iter().cloned().zip(flags.iter().cloned()).collect()
    };
    let found = WorktreeSet::select_candidate(&flagged(&[false, false, true, false], &c));
    assert_eq!(found, Ok(2));
    assert_eq!(
        WorktreeSet::select_candidate(&flagged(&[false; 4], &c)),
        Err(MaramError::MetadataNotFound)
    );
    let root = WorktreeSet::find_current(&p("/a"), &p("")).unwrap();
    assert_eq!(root.len(), 2);
    assert_eq!(WorktreeSet::select_candidate(&flagged(&[false, false], &root)), Err(MaramError::ReachedRoot));
}

#[test]
fn base_worktree_check() {
    let base = p("/m/r/f/base");
    let variants = vec![Some(p("/m/r/f/a")), None];
    assert!(WorktreeSet::is_in_base_worktree(&p("/m/r/f/base/src"), &base, &variants));
    assert!(!WorktreeSet::is_in_base_worktree(&p("/m/r/f/a"), &base, &variants));
    let nested = vec![Some(p("/m/r/f/base/inner"))];
    assert!(!WorktreeSet::is_in_base_worktree(&p("/m/r/f/base/inner/x"), &base, &nested));
}
