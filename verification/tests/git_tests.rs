use maram::error::MaramError;
use maram::git::{
    cherry_pick_order, cherry_pick_step, commit_has_parent, find_worktree_name, get_repo_name,
    parse_commit_id, repo_name_from_dir, repo_name_from_git_dir, repo_name_from_url, CherryPickStep,
    GitErrorKind,
};
use maram::path::FsPath;

fn p(s: &str) -> FsPath {
    FsPath::parse(s)
}

#[test]
fn repo_name_from_remote_urls() {
    assert_eq!(repo_name_from_url("https://github.com/user/repo.git"), "repo");
    assert_eq!(repo_name_from_url("git@github.com:user/repo.git"), "repo");
    assert_eq!(repo_name_from_url("https://github.com/user/repo"), "repo");
    assert_eq!(repo_name_from_url("https://h/u/repo/"), "repo");
    assert_eq!(repo_name_from_url("https://h/u/repo.git/"), "repo");
    assert_eq!(repo_name_from_url("repo"), "repo");
    assert_eq!(repo_name_from_url("repo.git"), "repo");
    assert_eq!(repo_name_from_url(".git"), "");
    assert_eq!(repo_name_from_url(""), "unknown");
    assert_eq!(repo_name_from_url("/"), "unknown");
}

#[test]
fn repo_name_from_directories() {
    assert_eq!(
        repo_name_from_dir(&p("/home/u/maram/proj/feat/base"), &p("/home/u/maram")),
        Some("proj".to_string())
    );
    assert_eq!(repo_name_from_dir(&p("/home/u/maram"), &p("/home/u/maram")), None);
    assert_eq!(repo_name_from_dir(&p("/tmp"), &p("/home/u/maram")), None);
    assert_eq!(repo_name_from_git_dir(&p("/home/u/proj/.git/"), false), "proj");
    assert_eq!(repo_name_from_git_dir(&p("/home/u/proj/.git/worktrees/feat/"), true), "proj");
    assert_eq!(repo_name_from_git_dir(&p("/.git"), false), "unknown");
    assert_eq!(repo_name_from_git_dir(&p("/worktrees/p/.git"), false), "p");
    assert_eq!(repo_name_from_git_dir(&p("/x/.git/worktrees/.git"), false), "worktrees");
    assert_eq!(repo_name_from_git_dir(&p("/x/.git/worktrees/.git/worktrees/n"), true), "worktrees");
    assert_eq!(repo_name_from_git_dir(&p("/.git/worktrees/feat"), true), "unknown");
    assert_eq!(repo_name_from_git_dir(&p("/r/.git"), true), "r");
}

#[test]
fn repo_name_order_of_sources() {
    let git = p("/home/u/proj/.git");
    assert_eq!(
        get_repo_name(Some("https://h/u/r.git".to_string()), Some(p("/home/u/maram/x/f")), Some(p("/home/u/maram")), &git, false),
        "r"
    );
    assert_eq!(get_repo_name(None, Some(p("/home/u/maram/x/f")), Some(p("/home/u/maram")), &git, false), "x");
    assert_eq!(get_repo_name(None, Some(p("/elsewhere")), Some(p("/home/u/maram")), &git, false), "proj");
    assert_eq!(get_repo_name(None, None, None, &git, false), "proj");
    let linked = p("/home/u/proj/.git/worktrees/feat");
    assert_eq!(get_repo_name(None, None, None, &linked, true), "proj");
}

#[test]
fn commit_ids() {
    let full = "decbf2be529ab6557d5429922251e5ee36519817";
    let b = parse_commit_id(full).unwrap();
    assert_eq!(b.len(), 20);
    assert_eq!(b[0], 0xde);
    assert_eq!(b[19], 0x17);
    let short = parse_commit_id("abc").unwrap();
    let mut expected = vec![0u8; 20];
    expected[0] = 0xab;
    expected[1] = 0xc0;
    assert_eq!(short, expected);
    assert_eq!(parse_commit_id(""), Err(MaramError::InvalidBaseCommit));
    assert_eq!(parse_commit_id("xyz"), Err(MaramError::InvalidBaseCommit));
    assert_eq!(parse_commit_id(&"a".repeat(41)), Err(MaramError::InvalidBaseCommit));
    assert!(parse_commit_id("ABCDEF").is_ok());
}

#[test]
fn cherry_pick_decisions() {
    assert_eq!(cherry_pick_step(Ok(false)), CherryPickStep::Continue);
    assert_eq!(cherry_pick_step(Ok(true)), CherryPickStep::Conflicts);
    assert_eq!(cherry_pick_step(Err(GitErrorKind::Conflict)), CherryPickStep::Conflicts);
    assert_eq!(cherry_pick_step(Err(GitErrorKind::Other)), CherryPickStep::Failed);
    assert_eq!(cherry_pick_order(vec![3, 2, 1]), vec![1, 2, 3]);
    assert_eq!(cherry_pick_order(Vec::<u8>::new()), Vec::<u8>::new());
}

#[test]
fn commit_parents() {
    assert_eq!(commit_has_parent(Ok(())), Ok(true));
    assert_eq!(commit_has_parent(Err(GitErrorKind::UnbornBranch)), Ok(false));
    assert_eq!(commit_has_parent(Err(GitErrorKind::Other)), Err(GitErrorKind::Other));
}

#[test]
fn worktree_lookup() {
    let entries = vec![
        ("gone".to_string(), Err(GitErrorKind::NotFound)),
        ("a".to_string(), Ok(p("/m/a"))),
        ("b".to_string(), Ok(p("/m/b"))),
    ];
    assert_eq!(find_worktree_name(&entries, &p("/m/b")), Ok(Some("b".to_string())));
    assert_eq!(find_worktree_name(&entries, &p("/m/c")), Ok(None));
    let broken = vec![
        ("bad".to_string(), Err(GitErrorKind::Other)),
        ("b".to_string(), Ok(p("/m/b"))),
    ];
    assert_eq!(find_worktree_name(&broken, &p("/m/b")), Err("bad".to_string()));
}
