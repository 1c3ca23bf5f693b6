use maram::cli::{
    sync_base_commit_source, BaseCommitSource, base_branch_decision, check_worktree_dir, CheckoutAction, CreateAction, add_menu_variant, apply_menu_selection, base_worktree_path, check_branches_free, create_metadata,
    ensure_selectable, handle_checkout, handle_diff, list_marks, pick_commit_message, plan_add,
    plan_create, plan_pick, plan_remove, plan_reset, select_worktree_set, status_report, sync_parent,
    variant_branch_names, variant_menu_items, variant_target, MenuOutcome, choose_variants, VariantChoice,
};
use maram::error::MaramError;
use maram::metadata::WorktreeMetadata;
use maram::path::FsPath;

fn s(x: &str) -> String {
    x.to_string()
}

fn set_with(variants: &[&str]) -> WorktreeMetadata {
    let dir = FsPath::parse("/m/r/feat");
    create_metadata(
        s("feat"),
        variants.iter().map(|v| s(v)).collect(),
        &dir,
        s("decbf2be529ab6557d5429922251e5ee36519817"),
        Some(s("main")),
    )
}

#[test]
fn variant_menu() {
    let items = variant_menu_items(&vec![s("a"), s("b")]);
    assert_eq!(items, vec![s("[Done]"), s("[Remove] a"), s("[Remove] b"), s("[Add new]")]);
    let mut vs = vec![s("a"), s("b")];
    assert_eq!(apply_menu_selection(&mut vs, 0), MenuOutcome::Done);
    assert_eq!(apply_menu_selection(&mut vs, 1), MenuOutcome::Removed);
    assert_eq!(vs, vec![s("b")]);
    assert_eq!(apply_menu_selection(&mut vs, 2), MenuOutcome::AskNewName);
    assert_eq!(apply_menu_selection(&mut vs, 7), MenuOutcome::AskNewName);
    assert_eq!(vs, vec![s("b")]);
    add_menu_variant(&mut vs, s("c"));
    add_menu_variant(&mut vs, s("b"));
    assert_eq!(vs, vec![s("b"), s("c")]);
}

#[test]
fn choosing_needs_items() {
    assert_eq!(ensure_selectable(&vec![]), Err(MaramError::NoItems));
    assert_eq!(ensure_selectable(&vec![s("x")]), Ok(()));
    assert_eq!(
        select_worktree_set("repo", &vec![]),
        Err(MaramError::NoWorktreeSets { repo_name: s("repo") })
    );
    assert_eq!(select_worktree_set("repo", &vec![s("f")]), Ok(()));
}

#[test]
fn create_plan() {
    let plan = plan_create("my feature", &vec![s("other")], false, false).ok().unwrap();
    let name = plan.branch_name;
    assert_eq!(name, "my-feature");
    assert_eq!(plan.action, CreateAction::OpenSession);
    assert_eq!(plan_create("x", &vec![], true, false).ok().unwrap().action, CreateAction::EnterBaseWorktree);
    assert_eq!(plan_create("x", &vec![], false, true).ok().unwrap().action, CreateAction::EnterBaseWorktree);
    assert_eq!(plan_create("x", &vec![], true, true).ok().unwrap().action, CreateAction::OpenSession);
    assert_eq!(
        variant_branch_names(&vec![s("a b"), s("c")], &name),
        vec![s("a-b/my-feature"), s("c/my-feature")]
    );
    assert_eq!(
        plan_create("my/feature", &vec![s("my-feature")], false, false).err(),
        Some(MaramError::WorktreeSetExists { name: s("my-feature") })
    );
    assert_eq!(variant_branch_names(&vec![s("x")], "b r"), vec![s("x/b-r")]);
    assert_eq!(
        check_branches_free(&vec![(s("a/f"), false), (s("b/f"), true), (s("c/f"), true)]),
        Err(MaramError::BranchExists { branch: s("b/f") })
    );
    assert_eq!(check_branches_free(&vec![(s("a/f"), false)]), Ok(()));
}

#[test]
fn create_checks() {
    let dir = FsPath::parse("/m/r/feat");
    assert_eq!(check_worktree_dir(&dir, false, false), Ok(()));
    assert_eq!(check_worktree_dir(&dir, true, true), Ok(()));
    assert_eq!(
        check_worktree_dir(&dir, true, false),
        Err(MaramError::DirectoryNotEmpty { path: s("/m/r/feat") })
    );
    assert_eq!(base_branch_decision(&s("feat"), false, false), Ok(true));
    assert_eq!(base_branch_decision(&s("feat"), true, true), Ok(false));
    assert_eq!(
        base_branch_decision(&s("feat"), true, false),
        Err(MaramError::BaseBranchExists { branch: s("feat") })
    );
}

#[test]
fn created_record() {
    let m = set_with(&["a", "b"]);
    assert_eq!(m.base_path.to_string(), "/m/r/feat/base");
    assert_eq!(m.variant_path("a").unwrap().to_string(), "/m/r/feat/a");
    assert_eq!(m.variant_path("b").unwrap().to_string(), "/m/r/feat/b");
    assert_eq!(m.parent_branch, Some(s("main")));
    assert_eq!(m.current_picked_variant, None);
    assert_eq!(base_worktree_path(&FsPath::parse("/x")).to_string(), "/x/base");
}

#[test]
fn checkout_toggles_session() {
    let plan = handle_checkout(Some(s("my feature")), false, false);
    assert_eq!(plan.branch, Some(s("my-feature")));
    assert_eq!(plan.action, CheckoutAction::OpenSession);
    assert_eq!(handle_checkout(None, true, false).action, CheckoutAction::PrintBasePath);
    assert_eq!(handle_checkout(None, false, true).action, CheckoutAction::PrintBasePath);
    assert_eq!(handle_checkout(None, true, true).action, CheckoutAction::OpenSession);
    assert_eq!(handle_checkout(None, true, true).branch, None);
}

#[test]
fn diff_targets() {
    let m = set_with(&["a", "b"]);
    assert_eq!(handle_diff(&m, "a", None), Ok((s("a/feat"), s("feat"))));
    assert_eq!(handle_diff(&m, "a", None), handle_diff(&m, "a", Some(s("base"))));
    assert_eq!(handle_diff(&m, "base", None), Ok((s("feat"), s("feat"))));
    assert_eq!(handle_diff(&m, "a", Some(s("b"))), Ok((s("a/feat"), s("b/feat"))));
    assert_eq!(handle_diff(&m, "base", Some(s("a"))), Ok((s("feat"), s("a/feat"))));
    assert_eq!(handle_diff(&m, "zz", None), Err(MaramError::UnknownVariant { name: s("zz") }));
    assert_eq!(handle_diff(&m, "a", Some(s("zz"))), Err(MaramError::UnknownVariant { name: s("zz") }));
}

#[test]
fn pick_plans() {
    let mut m = set_with(&["a", "b"]);
    let plan = plan_pick(&m, "a").ok().unwrap();
    assert_eq!(plan.variant_branch, "a/feat");
    assert!(plan.reset_to.is_none());
    m.record_pick(s("a"));
    assert!(plan_pick(&m, "a").ok().unwrap().reset_to.is_none());
    let plan = plan_pick(&m, "b").ok().unwrap();
    let bytes = plan.reset_to.unwrap();
    assert_eq!(bytes[0], 0xde);
    assert_eq!(plan_pick(&m, "zz").err(), Some(MaramError::UnknownVariant { name: s("zz") }));
    m.set_base_commit(s("not a commit"));
    assert_eq!(plan_pick(&m, "b").err(), Some(MaramError::InvalidBaseCommit));
    assert!(plan_pick(&m, "a").is_ok());
    assert_eq!(plan_reset(&m), Err(MaramError::InvalidBaseCommit));
    assert_eq!(pick_commit_message("a", "feat"), "Apply variant 'a' to 'feat'");
}

#[test]
fn add_remove_sync_plans() {
    let mut m = set_with(&["a"]);
    let dir = FsPath::parse("/m/r/feat");
    let plan = plan_add(&m, &dir, "new one").ok().unwrap();
    assert_eq!(plan.variant_branch, "new-one/feat");
    assert_eq!(plan.variant_path.to_string(), "/m/r/feat/new one");
    assert_eq!(plan_add(&m, &dir, "a").err(), Some(MaramError::VariantExists { name: s("a") }));
    assert_eq!(plan_remove(&m, "a"), Ok(false));
    m.record_pick(s("a"));
    assert_eq!(plan_remove(&m, "a"), Ok(true));
    assert_eq!(plan_remove(&m, "q"), Err(MaramError::UnknownVariant { name: s("q") }));
    let (branch, path) = variant_target(&m, "a").ok().unwrap();
    assert_eq!(branch, "a/feat");
    assert_eq!(path.to_string(), "/m/r/feat/a");
    assert_eq!(variant_target(&m, "q").err(), Some(MaramError::VariantPathNotFound { name: s("q") }));
    assert_eq!(sync_parent(&m, Some(s("dev"))), Ok(s("dev")));
    assert_eq!(sync_parent(&m, None), Ok(s("main")));
    m.parent_branch = None;
    assert_eq!(sync_parent(&m, None), Err(MaramError::NoParentBranch));
}

#[test]
fn status_and_list() {
    let mut m = set_with(&["a", "b"]);
    let r = status_report(&m);
    assert_eq!(r.name, "feat");
    assert_eq!(r.tree_count, 3);
    assert_eq!(r.picked, None);
    m.record_pick(s("b"));
    assert_eq!(status_report(&m).picked, Some(s("b")));
    assert_eq!(list_marks(&vec![s("x"), s("feat")], &Some(s("feat"))), vec![false, true]);
    assert_eq!(list_marks(&vec![s("x")], &None), vec![false]);
}

#[test]
fn variants_of_a_new_set() {
    match choose_variants(Some(vec![s("x")]), &vec![s("d")]) {
        VariantChoice::Use(v) => assert_eq!(v, vec![s("x")]),
        VariantChoice::Prompt(_) => panic!("expected given variants"),
    }
    match choose_variants(Some(vec![]), &vec![s("d")]) {
        VariantChoice::Use(v) => assert!(v.is_empty()),
        VariantChoice::Prompt(_) => panic!("expected no variants"),
    }
    match choose_variants(None, &vec![s("d")]) {
        VariantChoice::Use(v) => assert_eq!(v, vec![s("d")]),
        VariantChoice::Prompt(_) => panic!("expected default variants"),
    }
    match choose_variants(None, &vec![]) {
        VariantChoice::Prompt(v) => assert!(v.is_empty()),
        VariantChoice::Use(_) => panic!("expected the menu"),
    }
}

#[test]
fn sync_base_commit_choice() {
    let mut m = set_with(&["a"]);
    m.base_commit = s("c1");
    assert_eq!(sync_base_commit_source(&m, "c1"), BaseCommitSource::Head);
    assert_eq!(sync_base_commit_source(&m, "c2"), BaseCommitSource::Head);
    m.current_picked_variant = Some(s("a"));
    assert_eq!(sync_base_commit_source(&m, "c1"), BaseCommitSource::Head);
    assert_eq!(sync_base_commit_source(&m, "c2"), BaseCommitSource::HeadParent);
}
