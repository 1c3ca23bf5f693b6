//! The decisions of maram's commands; the program around them reads and
//! writes the repository, the disk and the terminal.

use vstd::prelude::*;
use crate::error::MaramError;
use crate::git::{is_oid_text, oid_bytes, parse_commit_id};
use crate::metadata::{WorktreeMetadata, base_variant_name, base_variant_string, with_component};
use crate::naming::{format_variant_branch, sanitize, sanitize_branch_name, variant_branch};
use crate::path::{FsPath, PathModel, is_component, join_model, parse_path, push_text};
use crate::path_map::{PathMap, to_map};

verus! {

/// The entries of the variant menu: `[Done]`, one `[Remove] <variant>` per variant, `[Add new]`.
pub open spec fn menu_items(variants: Seq<Seq<char>>) -> Seq<Seq<char>> {
    seq!["[Done]"@] + variants.map_values(|v: Seq<char>| "[Remove] "@ + v) + seq!["[Add new]"@]
}

/// The entries of the variant menu (see `menu_items`).
pub fn variant_menu_items(variants: &Vec<String>) -> (r: Vec<String>)
    ensures
        r.deep_view() == menu_items(variants.deep_view()),
{
    let mut r: Vec<String> = Vec::new();
    r.push(String::from_str("[Done]"));
    let ghost vs = variants.deep_view();
    let ghost f = |v: Seq<char>| "[Remove] "@ + v;
    assert(r.deep_view() =~= seq!["[Done]"@] + vs.take(0).map_values(f));
    let mut i: usize = 0;
    while i < variants.len()
        invariant
            vs == variants.deep_view(),
            f == (|v: Seq<char>| "[Remove] "@ + v),
            i <= variants.len(),
            r.deep_view() == seq!["[Done]"@] + vs.take(i as int).map_values(f),
        decreases variants.len() - i,
    {
        let mut item = String::from_str("[Remove] ");
        item.append(variants[i].as_str());
        let ghost before = r.deep_view();
        r.push(item);
        assert(vs[i as int] == variants[i as int]@);
        assert(r.deep_view() =~= before.push("[Remove] "@ + vs[i as int]));
        assert(vs.take(i as int + 1).map_values(f) =~= vs.take(i as int).map_values(f).push(f(vs[i as int])));
        i = i + 1;
    }
    assert(vs.take(i as int) =~= vs);
    let ghost before = r.deep_view();
    r.push(String::from_str("[Add new]"));
    assert(r.deep_view() =~= before.push("[Add new]"@));
    r
}

/// What the user chose in the variant menu.
#[derive(Debug, Clone, Copy, PartialEq, Eq)]
pub enum MenuOutcome {
    /// `[Done]`: the list is final.
    Done,
    /// A variant was removed from the list.
    Removed,
    /// `[Add new]`: ask for the name of a new variant.
    AskNewName,
}

/// Applies the choice of menu entry `selection` (an index into `menu_items`):
/// the first entry ends the menu, the next ones remove their variant, and any
/// later one asks for a new name.
pub fn apply_menu_selection(variants: &mut Vec<String>, selection: usize) -> (r: MenuOutcome)
    ensures
        selection == 0 ==> r == MenuOutcome::Done && final(variants)@ == old(variants)@,
        1 <= selection <= old(variants).len() ==> r == MenuOutcome::Removed
            && final(variants)@ == old(variants)@.remove(selection - 1),
        selection > old(variants).len() ==> r == MenuOutcome::AskNewName
            && final(variants)@ == old(variants)@,
{
    if selection == 0 {
        MenuOutcome::Done
    } else if selection <= variants.len() {
        variants.remove(selection - 1);
        MenuOutcome::Removed
    } else {
        MenuOutcome::AskNewName
    }
}

/// Adds a new variant name to the menu's list unless it is there already.
pub fn add_menu_variant(variants: &mut Vec<String>, name: String)
    ensures
        old(variants).deep_view().contains(name@) ==> final(variants).deep_view() == old(variants).deep_view(),
        !old(variants).deep_view().contains(name@) ==> final(variants).deep_view() == old(variants).deep_view().push(name@),
{
    let mut i: usize = 0;
    while i < variants.len()
        invariant
            i <= variants.len(),
            forall|j: int| 0 <= j < i ==> variants.deep_view()[j] != name@,
        decreases variants.len() - i,
    {
        if variants[i] == name {
            assert(variants.deep_view()[i as int] == name@);
            return;
        }
        i = i + 1;
    }
    let ghost before = variants.deep_view();
    variants.push(name);
    assert(variants.deep_view() =~= before.push(variants[variants.len() - 1]@));
}

/// The menu keeps each variant name once: removing an entry or adding a name
/// (which `add_menu_variant` skips when present) leaves no name twice.
pub proof fn lemma_menu_keeps_names_distinct(vs: Seq<Seq<char>>, i: int, name: Seq<char>)
    requires
        forall|a: int, b: int| 0 <= a < b < vs.len() ==> vs[a] != vs[b],
    ensures
        0 <= i < vs.len() ==> forall|a: int, b: int| 0 <= a < b < vs.remove(i).len() ==> vs.remove(i)[a] != vs.remove(i)[b],
        !vs.contains(name) ==> forall|a: int, b: int| 0 <= a < b < vs.push(name).len() ==> vs.push(name)[a] != vs.push(name)[b],
{
    if 0 <= i < vs.len() {
        let w = vs.remove(i);
        assert forall|a: int, b: int| 0 <= a < b < w.len() implies w[a] != w[b] by {
            let a0 = if a < i { a } else { a + 1 };
            let b0 = if b < i { b } else { b + 1 };
            assert(w[a] == vs[a0] && w[b] == vs[b0]);
        }
    }
    if !vs.contains(name) {
        let w = vs.push(name);
        assert forall|a: int, b: int| 0 <= a < b < w.len() implies w[a] != w[b] by {
            if b == vs.len() {
                assert(w[a] == vs[a]);
            }
        }
    }
}

/// Where the variants of a new worktree set come from.
#[derive(Debug)]
pub enum VariantChoice {
    /// These variants, without asking.
    Use(Vec<String>),
    /// Ask, in the variant menu, starting from this list.
    Prompt(Vec<String>),
}

/// The variants of `maram create`: those given with `--variants`, else the
/// configured default variants, else the user's choice in the menu.
pub fn choose_variants(cli_variants: Option<Vec<String>>, default_variants: &Vec<String>) -> (r: VariantChoice)
    ensures
        cli_variants matches Some(v) ==> (r matches VariantChoice::Use(u) && u@ == v@),
        cli_variants is None && default_variants.len() > 0 ==> (r matches VariantChoice::Use(u) && u@ == default_variants@),
        cli_variants is None && default_variants.len() == 0 ==> (r matches VariantChoice::Prompt(u) && u@.len() == 0),
{
    match cli_variants {
        Some(v) => VariantChoice::Use(v),
        None => if default_variants.len() > 0 {
            VariantChoice::Use(default_variants.clone())
        } else {
            VariantChoice::Prompt(Vec::new())
        },
    }
}

/// A list to choose from must not be empty.
pub fn ensure_selectable(items: &Vec<String>) -> (r: Result<(), MaramError>)
    ensures
        r is Ok <==> items.len() > 0,
        r matches Err(e) ==> e == MaramError::NoItems,
{
    if items.len() == 0 {
        Err(MaramError::NoItems)
    } else {
        Ok(())
    }
}

/// The worktree sets of a repository can be chosen from only when there is one.
pub fn select_worktree_set(repo_name: &str, worktree_sets: &Vec<String>) -> (r: Result<(), MaramError>)
    ensures
        r is Ok <==> worktree_sets.len() > 0,
        r matches Err(e) ==> (e matches MaramError::NoWorktreeSets { repo_name: n } && n@ == repo_name@),
{
    if worktree_sets.len() == 0 {
        Err(MaramError::NoWorktreeSets { repo_name: String::from_str(repo_name) })
    } else {
        Ok(())
    }
}

/// Whether `names` holds `name`.
fn contains_name(names: &Vec<String>, name: &String) -> (r: bool)
    ensures
        r == names.deep_view().contains(name@),
{
    let mut i: usize = 0;
    while i < names.len()
        invariant
            i <= names.len(),
            forall|j: int| 0 <= j < i ==> names.deep_view()[j] != name@,
        decreases names.len() - i,
    {
        if names[i] == *name {
            assert(names.deep_view()[i as int] == name@);
            return true;
        }
        i = i + 1;
    }
    false
}

/// The branches of the variants of the set of `base_branch`, in order (see `format_variant_branch`).
pub open spec fn variant_branches(variants: Seq<Seq<char>>, base_branch: Seq<char>) -> Seq<Seq<char>> {
    variants.map_values(|v: Seq<char>| variant_branch(sanitize(v), sanitize(base_branch)))
}

/// The branches of the variants (see `variant_branches`).
pub fn variant_branch_names(variants: &Vec<String>, base_branch: &str) -> (r: Vec<String>)
    ensures
        r.deep_view() == variant_branches(variants.deep_view(), base_branch@),
{
    let ghost vs = variants.deep_view();
    let mut r: Vec<String> = Vec::new();
    let mut i: usize = 0;
    assert(r.deep_view() =~= variant_branches(vs.take(0), base_branch@));
    while i < variants.len()
        invariant
            vs == variants.deep_view(),
            i <= variants.len(),
            r.deep_view() == variant_branches(vs.take(i as int), base_branch@),
        decreases variants.len() - i,
    {
        let b = format_variant_branch(variants[i].as_str(), base_branch);
        let ghost before = r.deep_view();
        let ghost bv = b@;
        r.push(b);
        assert(vs[i as int] == variants[i as int]@);
        assert(r.deep_view() =~= before.push(bv));
        assert(vs.take(i as int + 1) =~= vs.take(i as int).push(vs[i as int]));
        assert(variant_branches(vs.take(i as int + 1), base_branch@) =~= variant_branches(vs.take(i as int), base_branch@).push(bv));
        i = i + 1;
    }
    assert(vs.take(i as int) =~= vs);
    r
}

/// What `maram create` does once the worktree set is made.
#[derive(Debug, Clone, Copy, PartialEq, Eq)]
pub enum CreateAction {
    /// Save the layout and start a Zellij session.
    OpenSession,
    /// Open a shell in the base worktree.
    EnterBaseWorktree,
}

/// What `maram create` makes.
#[derive(Debug)]
pub struct CreatePlan {
    /// The worktree set and base branch, sanitized.
    pub branch_name: String,
    /// What follows the creation.
    pub action: CreateAction,
}

/// The session is skipped when `--no-session` and the configured default differ:
/// the flag toggles the default.
pub open spec fn skips_session(no_session: bool, config_no_session: bool) -> bool {
    no_session != config_no_session
}

/// Plans `maram create`: the sanitized branch names the set, which must not
/// exist yet; `--no-session` toggles the configured default.
pub fn plan_create(branch_input: &str, existing_sets: &Vec<String>, no_session: bool, config_no_session: bool) -> (r: Result<CreatePlan, MaramError>)
    ensures
        r is Err <==> existing_sets.deep_view().contains(sanitize(branch_input@)),
        r matches Err(e) ==> (e matches MaramError::WorktreeSetExists { name: n } && n@ == sanitize(branch_input@)),
        r matches Ok(p) ==> p.branch_name@ == sanitize(branch_input@),
        r matches Ok(p) ==> (p.action == CreateAction::EnterBaseWorktree <==> skips_session(no_session, config_no_session)),
{
    let branch_name = sanitize_branch_name(branch_input);
    if contains_name(existing_sets, &branch_name) {
        return Err(MaramError::WorktreeSetExists { name: branch_name });
    }
    let action = if no_session != config_no_session {
        CreateAction::EnterBaseWorktree
    } else {
        CreateAction::OpenSession
    };
    Ok(CreatePlan { branch_name, action })
}

/// The directory of a new worktree set may exist only when it is empty.
pub fn check_worktree_dir(worktree_dir: &FsPath, exists: bool, is_empty: bool) -> (r: Result<(), MaramError>)
    ensures
        r is Err <==> exists && !is_empty,
        r matches Err(e) ==> (e matches MaramError::DirectoryNotEmpty { path: t } && t@ == worktree_dir.as_text()),
{
    if exists && !is_empty {
        return Err(MaramError::DirectoryNotEmpty { path: worktree_dir.to_string() });
    }
    Ok(())
}

/// Whether the base branch is to be created: it is when it does not exist;
/// an existing one is used only when the user agrees, else it is an error.
pub fn base_branch_decision(branch: &String, exists: bool, use_existing: bool) -> (r: Result<bool, MaramError>)
    ensures
        !exists ==> r == Ok::<bool, MaramError>(true),
        exists && use_existing ==> r == Ok::<bool, MaramError>(false),
        exists && !use_existing ==> (r matches Err(e) && (e matches MaramError::BaseBranchExists { branch: b } && b@ == branch@)),
{
    if !exists {
        Ok(true)
    } else if use_existing {
        Ok(false)
    } else {
        Err(MaramError::BaseBranchExists { branch: branch.clone() })
    }
}

/// The first branch, in order, that exists already (the flag beside each
/// branch), as an error.
pub fn check_branches_free(branches: &Vec<(String, bool)>) -> (r: Result<(), MaramError>)
    ensures
        r is Ok <==> forall|i: int| 0 <= i < branches.len() ==> !(#[trigger] branches[i]).1,
        r matches Err(e) ==> exists|i: int| 0 <= i < branches.len() && (#[trigger] branches[i]).1
            && (forall|j: int| 0 <= j < i ==> !branches[j].1)
            && (e matches MaramError::BranchExists { branch: b } && b@ == branches[i].0@),
{
    let mut i: usize = 0;
    while i < branches.len()
        invariant
            i <= branches.len(),
            forall|j: int| 0 <= j < i ==> !(#[trigger] branches[j]).1,
        decreases branches.len() - i,
    {
        if branches[i].1 {
            return Err(MaramError::BranchExists { branch: branches[i].0.clone() });
        }
        i = i + 1;
    }
    Ok(())
}

/// The base worktree of a set: `<set dir>/base`.
pub fn base_worktree_path(worktree_dir: &FsPath) -> (r: FsPath)
    ensures
        r@ == with_component(worktree_dir@, base_variant_name()),
        r.as_text() == push_text(worktree_dir.as_text(), base_variant_name()),
{
    let b = base_variant_string();
    proof {
        crate::path::lemma_name_is_component(b@);
    }
    worktree_dir.push_component(b.as_str())
}

/// The worktree of a variant: `<set dir>/<variant>` (`Path::join`).
pub fn variant_worktree_path(worktree_dir: &FsPath, variant: &str) -> (r: FsPath)
    ensures
        r@ == join_model(worktree_dir@, parse_path(variant@)),
        r.as_text() == push_text(worktree_dir.as_text(), variant@),
{
    worktree_dir.join(variant)
}

/// The paths of the variant worktrees, later variants of the same name winning.
pub open spec fn variant_path_entries(worktree_dir: PathModel, variants: Seq<Seq<char>>) -> Seq<(Seq<char>, PathModel)> {
    variants.map_values(|v: Seq<char>| (v, join_model(worktree_dir, parse_path(v))))
}

/// The record of a new worktree set.
pub fn create_metadata(
    branch_name: String,
    variants: Vec<String>,
    worktree_dir: &FsPath,
    base_commit: String,
    parent_branch: Option<String>,
) -> (r: WorktreeMetadata)
    ensures
        r.branch_name == branch_name,
        r.variants.deep_view() == variants.deep_view(),
        r.base_path@ == with_component(worktree_dir@, base_variant_name()),
        r.variant_paths@ == to_map(variant_path_entries(worktree_dir@, variants.deep_view())),
        r.current_picked_variant is None,
        r.base_commit == base_commit,
        r.parent_branch == parent_branch,
{
    let ghost vs = variants.deep_view();
    let mut paths = PathMap::new();
    let mut i: usize = 0;
    assert(variant_path_entries(worktree_dir@, vs).take(0) =~= Seq::<(Seq<char>, PathModel)>::empty());
    while i < variants.len()
        invariant
            vs == variants.deep_view(),
            i <= variants.len(),
            paths@ == to_map(variant_path_entries(worktree_dir@, vs).take(i as int)),
        decreases variants.len() - i,
    {
        let v = variants[i].clone();
        let p = variant_worktree_path(worktree_dir, v.as_str());
        assert(vs[i as int] == v@);
        paths.insert(v, p);
        assert(variant_path_entries(worktree_dir@, vs).take(i as int + 1).drop_last() =~= variant_path_entries(worktree_dir@, vs).take(i as int));
        i = i + 1;
    }
    assert(variant_path_entries(worktree_dir@, vs).take(i as int) =~= variant_path_entries(worktree_dir@, vs));
    WorktreeMetadata {
        branch_name,
        variants,
        base_path: base_worktree_path(worktree_dir),
        variant_paths: paths,
        current_picked_variant: None,
        base_commit,
        parent_branch,
    }
}

/// What `maram checkout` does once the worktree set is found.
#[derive(Debug, Clone, Copy, PartialEq, Eq)]
pub enum CheckoutAction {
    /// Attach to the set's Zellij session, creating it when it is gone.
    OpenSession,
    /// Print the path of the base worktree and nothing else.
    PrintBasePath,
}

/// What `maram checkout` does.
#[derive(Debug)]
pub struct CheckoutPlan {
    /// The worktree set, sanitized; `None` when the user is to choose one.
    pub branch: Option<String>,
    /// What follows once the set is found.
    pub action: CheckoutAction,
}

/// Plans `maram checkout`: `--no-session` toggles the configured default.
pub fn handle_checkout(branch_name: Option<String>, no_session: bool, config_no_session: bool) -> (r: CheckoutPlan)
    ensures
        r.action == CheckoutAction::PrintBasePath <==> skips_session(no_session, config_no_session),
        branch_name is None ==> r.branch is None,
        branch_name is Some ==> (r.branch matches Some(b) && b@ == sanitize(branch_name->0@)),
{
    let branch = match branch_name {
        Some(n) => Some(sanitize_branch_name(n.as_str())),
        None => None,
    };
    let action = if no_session != config_no_session {
        CheckoutAction::PrintBasePath
    } else {
        CheckoutAction::OpenSession
    };
    CheckoutPlan { branch, action }
}

/// The branch that a variant name of `maram diff` stands for: `base` is the
/// base branch, any other name must be a variant.
pub open spec fn diff_branch(variants: Seq<Seq<char>>, base_branch: Seq<char>, name: Seq<char>) -> Option<Seq<char>> {
    if name == base_variant_name() {
        Some(base_branch)
    } else if variants.contains(name) {
        Some(variant_branch(sanitize(name), sanitize(base_branch)))
    } else {
        None
    }
}

/// The name `base` stands for the base branch whatever the variants are, so
/// `maram diff` with one variant compares the same branches as with `base`
/// named second.
pub proof fn lemma_diff_second_defaults_to_base(variants: Seq<Seq<char>>, base_branch: Seq<char>)
    ensures
        diff_branch(variants, base_branch, base_variant_name()) == Some(base_branch),
{
}

/// For a variant of the set other than `base`, `maram diff` compares the
/// branch that `maram create` and `maram add` made for it: the sanitized
/// variant, `/`, and the sanitized base branch, with no space in it.
pub proof fn law_diff_variant_branch(variants: Seq<Seq<char>>, base_branch: Seq<char>, i: int)
    requires
        0 <= i < variants.len(),
        variants[i] != base_variant_name(),
    ensures
        diff_branch(variants, base_branch, variants[i]) == Some(variant_branches(variants, base_branch)[i]),
        diff_branch(variants, base_branch, variants[i]) == Some(sanitize(variants[i]) + seq!['/'] + sanitize(base_branch)),
        !diff_branch(variants, base_branch, variants[i])->0.contains(' '),
{
    assert(variants.contains(variants[i]));
    crate::naming::law_variant_branch_layout(variants[i], base_branch);
}

/// `maram diff` knows `base` and the variants of the set, and no other name.
pub proof fn law_diff_names(variants: Seq<Seq<char>>, base_branch: Seq<char>, name: Seq<char>)
    ensures
        diff_branch(variants, base_branch, name) is Some <==> (name == seq!['b', 'a', 's', 'e'] || variants.contains(name)),
        name == seq!['b', 'a', 's', 'e'] ==> diff_branch(variants, base_branch, name) == Some(base_branch),
{
}

/// The branch for one argument of `maram diff` (see `diff_branch`).
fn diff_target(metadata: &WorktreeMetadata, name: &str) -> (r: Result<String, MaramError>)
    ensures
        r is Ok <==> diff_branch(metadata.variants.deep_view(), metadata.branch_name@, name@) is Some,
        r matches Ok(b) ==> b@ == diff_branch(metadata.variants.deep_view(), metadata.branch_name@, name@)->0,
        r matches Err(e) ==> (e matches MaramError::UnknownVariant { name: n } && n@ == name@),
{
    let base = base_variant_string();
    let n = String::from_str(name);
    if n == base {
        return Ok(metadata.branch_name.clone());
    }
    if !metadata.has_variant(name) {
        return Err(MaramError::UnknownVariant { name: n });
    }
    Ok(format_variant_branch(name, metadata.branch_name.as_str()))
}

/// Plans `maram diff`: the two branches to compare; when only one variant is
/// given, the second is the base branch.
pub fn handle_diff(metadata: &WorktreeMetadata, variant1: &str, variant2: Option<String>) -> (r: Result<(String, String), MaramError>)
    ensures
        ({
            let vs = metadata.variants.deep_view();
            let base = metadata.branch_name@;
            let b1 = diff_branch(vs, base, variant1@);
            match variant2 {
                None => match b1 {
                    Some(x) => r matches Ok(p) && p.0@ == x && p.1@ == base,
                    None => r matches Err(e) && (e matches MaramError::UnknownVariant { name: n } && n@ == variant1@),
                },
                Some(v2) => {
                    let b2 = diff_branch(vs, base, v2@);
                    match (b1, b2) {
                        (Some(x), Some(y)) => r matches Ok(p) && p.0@ == x && p.1@ == y,
                        (None, _) => r matches Err(e) && (e matches MaramError::UnknownVariant { name: n } && n@ == variant1@),
                        (Some(_), None) => r matches Err(e) && (e matches MaramError::UnknownVariant { name: n } && n@ == v2@),
                    }
                },
            }
        }),
{
    let b1 = diff_target(metadata, variant1)?;
    match variant2 {
        None => Ok((b1, metadata.branch_name.clone())),
        Some(v2) => {
            let b2 = diff_target(metadata, v2.as_str())?;
            Ok((b1, b2))
        },
    }
}

/// What `maram pick` does.
#[derive(Debug)]
pub struct PickPlan {
    /// The commit to reset the base branch to first, when another variant was picked.
    pub reset_to: Option<Vec<u8>>,
    /// The branch of the picked variant.
    pub variant_branch: String,
}

/// Plans `maram pick`: the variant must exist; when another variant is picked,
/// the base branch goes back to the recorded base commit first.
pub fn plan_pick(metadata: &WorktreeMetadata, variant_name: &str) -> (r: Result<PickPlan, MaramError>)
    ensures
        ({
            let vs = metadata.variants.deep_view();
            let needs_reset = metadata.current_picked_variant matches Some(p) && p@ != variant_name@;
            if !vs.contains(variant_name@) {
                r matches Err(e) && (e matches MaramError::UnknownVariant { name: n } && n@ == variant_name@)
            } else if needs_reset && !is_oid_text(metadata.base_commit@) {
                r == Err::<PickPlan, MaramError>(MaramError::InvalidBaseCommit)
            } else {
                r matches Ok(p) && p.variant_branch@ == variant_branch(sanitize(variant_name@), sanitize(metadata.branch_name@))
                    && (needs_reset ==> (p.reset_to matches Some(b) && b@ == oid_bytes(metadata.base_commit@)))
                    && (!needs_reset ==> p.reset_to is None)
            }
        }),
{
    if !metadata.has_variant(variant_name) {
        return Err(MaramError::UnknownVariant { name: String::from_str(variant_name) });
    }
    let name = String::from_str(variant_name);
    let needs_reset = match &metadata.current_picked_variant {
        Some(p) => *p != name,
        None => false,
    };
    let reset_to = if needs_reset {
        Some(parse_commit_id(metadata.base_commit.as_str())?)
    } else {
        None
    };
    let variant_branch = format_variant_branch(variant_name, metadata.branch_name.as_str());
    Ok(PickPlan { reset_to, variant_branch })
}

/// The message of the commit that a pick makes: `Apply variant '<v>' to '<base>'`.
pub fn pick_commit_message(variant_name: &str, base_branch: &str) -> (r: String)
    ensures
        r@ == "Apply variant '"@ + variant_name@ + "' to '"@ + base_branch@ + "'"@,
{
    let mut m = String::from_str("Apply variant '");
    m.append(variant_name);
    m.append("' to '");
    m.append(base_branch);
    m.append("'");
    m
}

/// Plans `maram reset`: the recorded base commit to reset to.
pub fn plan_reset(metadata: &WorktreeMetadata) -> (r: Result<Vec<u8>, MaramError>)
    ensures
        r is Ok <==> is_oid_text(metadata.base_commit@),
        r matches Ok(b) ==> b@ == oid_bytes(metadata.base_commit@),
        r matches Err(e) ==> e == MaramError::InvalidBaseCommit,
{
    parse_commit_id(metadata.base_commit.as_str())
}

/// What `maram add` sets up.
#[derive(Debug)]
pub struct AddPlan {
    pub variant_branch: String,
    pub variant_path: FsPath,
}

/// Plans `maram add`: the variant must be new; its branch is `<variant>/<base>`
/// and its worktree `<set dir>/<variant>`.
pub fn plan_add(metadata: &WorktreeMetadata, worktree_dir: &FsPath, variant_name: &str) -> (r: Result<AddPlan, MaramError>)
    ensures
        r is Err <==> metadata.variants.deep_view().contains(variant_name@),
        r matches Err(e) ==> (e matches MaramError::VariantExists { name: n } && n@ == variant_name@),
        r matches Ok(p) ==> p.variant_branch@ == variant_branch(sanitize(variant_name@), sanitize(metadata.branch_name@))
            && p.variant_path@ == join_model(worktree_dir@, parse_path(variant_name@)),
{
    if metadata.has_variant(variant_name) {
        return Err(MaramError::VariantExists { name: String::from_str(variant_name) });
    }
    let variant_branch = format_variant_branch(variant_name, metadata.branch_name.as_str());
    let variant_path = variant_worktree_path(worktree_dir, variant_name);
    Ok(AddPlan { variant_branch, variant_path })
}

/// Plans `maram remove`: the variant must exist; `Ok(true)` when it is the
/// picked one, so that the base branch is reset first.
pub fn plan_remove(metadata: &WorktreeMetadata, variant_name: &str) -> (r: Result<bool, MaramError>)
    ensures
        r is Err <==> !metadata.variants.deep_view().contains(variant_name@),
        r matches Err(e) ==> (e matches MaramError::UnknownVariant { name: n } && n@ == variant_name@),
        r matches Ok(reset) ==> reset == (metadata.current_picked_variant matches Some(p) && p@ == variant_name@),
{
    if !metadata.has_variant(variant_name) {
        return Err(MaramError::UnknownVariant { name: String::from_str(variant_name) });
    }
    let name = String::from_str(variant_name);
    match &metadata.current_picked_variant {
        Some(p) => Ok(*p == name),
        None => Ok(false),
    }
}

/// The branch and the worktree of a variant, for `maram remove` and `maram sync`.
pub fn variant_target(metadata: &WorktreeMetadata, variant_name: &str) -> (r: Result<(String, FsPath), MaramError>)
    ensures
        r is Ok <==> metadata.variant_paths@.contains_key(variant_name@),
        r matches Ok(t) ==> t.0@ == variant_branch(sanitize(variant_name@), sanitize(metadata.branch_name@))
            && t.1@ == metadata.variant_paths@[variant_name@],
        r matches Err(e) ==> (e matches MaramError::VariantPathNotFound { name: n } && n@ == variant_name@),
{
    let path = metadata.variant_path(variant_name)?;
    let branch = format_variant_branch(variant_name, metadata.branch_name.as_str());
    Ok((branch, path))
}

/// The branch that `maram sync` rebases onto: the given one, else the recorded parent.
pub fn sync_parent(metadata: &WorktreeMetadata, branch: Option<String>) -> (r: Result<String, MaramError>)
    ensures
        branch is Some ==> r == Ok::<String, MaramError>(branch->0),
        branch is None && metadata.parent_branch is Some ==> (r matches Ok(b) && b@ == metadata.parent_branch->0@),
        branch is None && metadata.parent_branch is None ==> r == Err::<String, MaramError>(MaramError::NoParentBranch),
{
    match branch {
        Some(b) => Ok(b),
        None => match &metadata.parent_branch {
            Some(p) => Ok(p.clone()),
            None => Err(MaramError::NoParentBranch),
        },
    }
}

/// Which commit `maram sync` records as the new base commit.
#[derive(Debug, Clone, Copy, PartialEq, Eq)]
pub enum BaseCommitSource {
    /// The tip of the rebased base branch.
    Head,
    /// The parent of that tip, which is the commit of the picked variant.
    HeadParent,
}

/// Decides the base commit that `maram sync` records, from the metadata and the
/// base branch's tip before the rebase. A pick that brought commits is one
/// commit on top of the recorded base commit, so the tip differs from it; the
/// rebase carries that commit along, and the new base commit is then the
/// parent of the tip, so that `maram reset` still discards the pick. In every
/// other case the tip itself is the new base commit.
pub fn sync_base_commit_source(metadata: &WorktreeMetadata, head_before: &str) -> (r: BaseCommitSource)
    ensures
        r == BaseCommitSource::HeadParent <==> (metadata.current_picked_variant is Some && head_before@ != metadata.base_commit@),
{
    let head = String::from_str(head_before);
    if metadata.current_picked_variant.is_some() && head != metadata.base_commit {
        BaseCommitSource::HeadParent
    } else {
        BaseCommitSource::Head
    }
}

/// What `maram status` shows.
#[derive(Debug)]
pub struct StatusReport {
    pub name: String,
    /// The base worktree and one per variant.
    pub tree_count: usize,
    pub picked: Option<String>,
}

/// The status of a worktree set.
pub fn status_report(metadata: &WorktreeMetadata) -> (r: StatusReport)
    requires
        metadata.variants.len() < usize::MAX,
    ensures
        r.name@ == metadata.branch_name@,
        r.tree_count == metadata.variants.len() + 1,
        r.picked.deep_view() == metadata.current_picked_variant.deep_view(),
{
    let picked = match &metadata.current_picked_variant {
        Some(p) => Some(p.clone()),
        None => None,
    };
    StatusReport { name: metadata.branch_name.clone(), tree_count: metadata.variants.len() + 1, picked }
}

/// Whether `name` is the name of the current worktree set.
pub open spec fn is_current(current: Option<Seq<char>>, name: Seq<char>) -> bool {
    current == Some(name)
}

/// A set is marked current exactly when a current set is known and its name
/// is the set's name, character for character; so among sets of distinct
/// names at most one is marked.
pub proof fn law_current_mark(current: Option<Seq<char>>, names: Seq<Seq<char>>)
    ensures
        forall|n: Seq<char>| #[trigger] is_current(current, n) <==> (current matches Some(c) && c == n),
        (forall|i: int, j: int| 0 <= i < j < names.len() ==> names[i] != names[j]) ==> forall|i: int, j: int|
            0 <= i < j < names.len() ==> !(#[trigger] is_current(current, names[i]) && #[trigger] is_current(current, names[j])),
{
}

/// Which worktree sets `maram list` marks as current: those named like the current one.
pub fn list_marks(worktree_sets: &Vec<String>, current: &Option<String>) -> (r: Vec<bool>)
    ensures
        r.len() == worktree_sets.len(),
        forall|i: int| 0 <= i < r.len() ==> #[trigger] r[i] == is_current(current.deep_view(), worktree_sets[i]@),
        forall|i: int| 0 <= i < r.len() ==> (#[trigger] r[i] <==> (current matches Some(c) && c@ == worktree_sets[i]@)),
{
    let mut r: Vec<bool> = Vec::new();
    let mut i: usize = 0;
    while i < worktree_sets.len()
        invariant
            i <= worktree_sets.len(),
            r.len() == i,
            forall|j: int| 0 <= j < i ==> #[trigger] r[j] == is_current(current.deep_view(), worktree_sets[j]@),
        decreases worktree_sets.len() - i,
    {
        let mark = match current {
            Some(c) => *c == worktree_sets[i],
            None => false,
        };
        r.push(mark);
        i = i + 1;
    }
    r
}

/// The branches that `maram delete` removes for a set chosen by its
/// sanitized name are the branches that `maram create` made for it: sanitizing
/// the base name again changes nothing.
pub proof fn lemma_delete_matches_create(variants: Seq<Seq<char>>, branch_input: Seq<char>)
    ensures
        variant_branches(variants, sanitize(branch_input)) == variant_branches(variants, branch_input),
{
    crate::naming::lemma_sanitize_idempotent(branch_input);
    assert(variant_branches(variants, sanitize(branch_input)) =~= variant_branches(variants, branch_input));
}

/// Distinct variant names of a set give distinct branches, once sanitized
/// names are distinct: no two variants share a branch.
pub proof fn lemma_variant_branches_distinct(variants: Seq<Seq<char>>, base_branch: Seq<char>)
    requires
        forall|i: int, j: int| 0 <= i < j < variants.len() ==> sanitize(variants[i]) != sanitize(variants[j]),
    ensures
        forall|i: int, j: int| 0 <= i < j < variants.len() ==>
            variant_branches(variants, base_branch)[i] != variant_branches(variants, base_branch)[j],
{
    assert forall|i: int, j: int| 0 <= i < j < variants.len() implies
        variant_branches(variants, base_branch)[i] != variant_branches(variants, base_branch)[j] by {
        crate::naming::lemma_sanitize_is_sanitized(variants[i]);
        crate::naming::lemma_sanitize_is_sanitized(variants[j]);
        if variant_branches(variants, base_branch)[i] == variant_branches(variants, base_branch)[j] {
            crate::naming::lemma_variant_branch_injective(
                sanitize(variants[i]),
                sanitize(base_branch),
                sanitize(variants[j]),
                sanitize(base_branch),
            );
        }
    }
}

} // verus!
