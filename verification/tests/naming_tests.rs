use maram::naming::{format_variant_branch, sanitize_branch_name};

#[test]
fn sanitize_replaces_spaces_and_slashes() {
    assert_eq!(sanitize_branch_name("my feature/x"), "my-feature-x");
}

#[test]
fn sanitize_drops_refused_characters() {
    assert_eq!(sanitize_branch_name("a~b^c:d\\e?f*g[h]i@j{k}l"), "abcdefghijkl");
}

#[test]
fn variant_branch_is_variant_slash_base() {
    assert_eq!(format_variant_branch("approach a", "feature/x"), "approach-a/feature-x");
}

#[test]
fn sanitize_keeps_other_characters() {
    assert_eq!(sanitize_branch_name("feat-1.2_x"), "feat-1.2_x");
}

#[test]
fn sanitize_is_idempotent_on_example() {
    let once = sanitize_branch_name("a b/c:d");
    assert_eq!(sanitize_branch_name(&once), once);
}

#[test]
fn unsanitized_join_keeps_names() {
    assert_eq!(maram::naming::join_variant_branch("a b", "c"), "a b/c");
    assert_eq!(maram::worktree_set::WorktreeSet::format_variant_branch("foo", "bar"), "foo/bar");
}

#[test]
fn session_name_is_repo_dash_branch() {
    assert_eq!(maram::naming::make_session_name("repo", "feature"), "repo-feature");
}

#[test]
fn variant_bar_of_branch_foo() {
    assert_eq!(format_variant_branch("bar", "foo"), "bar/foo");
}
