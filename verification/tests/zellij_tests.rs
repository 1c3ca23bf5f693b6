use maram::metadata::WorktreeMetadata;
use maram::path::FsPath;
use maram::zellij::ZellijSession;

#[test]
fn session_names() {
    let s = ZellijSession::from_repo_and_branch("repo", "feat");
    assert_eq!(s.name(), "repo-feat");
    assert_eq!(ZellijSession::new("x".to_string()).name(), "x");
}

#[test]
fn session_listing() {
    let s = ZellijSession::new("repo-feat".to_string());
    assert!(s.session_listed("other\n  repo-feat  \n"));
    assert!(s.session_listed("repo-feat"));
    assert!(!s.session_listed("repo-feat-2\nrepo\n"));
    assert!(!s.session_listed(""));
    let empty = ZellijSession::new(String::new());
    assert!(!empty.session_listed("abc\n"));
    assert!(empty.session_listed("abc\n\nx"));
}

#[test]
fn layout_text() {
    let s = ZellijSession::new("r-f".to_string());
    let tabs = vec![
        ("base".to_string(), FsPath::parse("/m/r/f/base")),
        ("a".to_string(), FsPath::parse("/m/r/f/a")),
    ];
    let expected = "layout {\n  tab \"base\" {\n    pane cwd=\"/m/r/f/base\" command=\"zsh\"\n  }\n  tab \"a\" {\n    pane cwd=\"/m/r/f/a\" command=\"zsh\"\n  }\n}\n";
    assert_eq!(s.create_layout(&tabs, None), expected);
    let with_prefix = s.create_layout(&tabs[..1].to_vec(), Some("default_tab_template {\n  children\n}\n"));
    assert_eq!(
        with_prefix,
        "layout {\n  default_tab_template {\n    children\n  }\n  tab \"base\" {\n    pane cwd=\"/m/r/f/base\" command=\"zsh\"\n  }\n}\n"
    );
    assert_eq!(s.create_layout(&vec![], None), "layout {\n}\n");
}

#[test]
fn tabs_of_a_set() {
    let mut m = WorktreeMetadata::new("f".to_string(), vec![]);
    m.base_path = FsPath::parse("/m/r/f/base");
    m.add_variant("a".to_string(), FsPath::parse("/m/r/f/a"));
    m.add_variant("b".to_string(), FsPath::parse("/m/r/f/b"));
    m.variants.push("orphan".to_string());
    let tabs = ZellijSession::tabs_from_metadata(&m);
    let names: Vec<(String, String)> = tabs.iter().map(|(n, p)| (n.clone(), p.to_string())).collect();
    assert_eq!(
        names,
        vec![
            ("base".to_string(), "/m/r/f/base".to_string()),
            ("a".to_string(), "/m/r/f/a".to_string()),
            ("b".to_string(), "/m/r/f/b".to_string()),
        ]
    );
}
