//! The decisions of maram's git operations: the repository's name, commit ids,
//! and what an outcome of libgit2 means for the command.

use vstd::prelude::*;
use crate::error::MaramError;
use crate::path::{
    FsPath, PathModel, file_name_model, first_component_model, parent_model,
    strip_prefix_model, starts_with_model,
};
use crate::text::{chars_of, split_on, split_on_char, string_from_chars};

verus! {

/// The classes of libgit2 errors that maram tells apart.
#[derive(Debug, Clone, Copy, PartialEq, Eq)]
pub enum GitErrorKind {
    NotFound,
    Conflict,
    UnbornBranch,
    Other,
}

/// `.git`
pub open spec fn git_suffix() -> Seq<char> {
    seq!['.', 'g', 'i', 't']
}

/// `unknown`
pub open spec fn unknown_name() -> Seq<char> {
    seq!['u', 'n', 'k', 'n', 'o', 'w', 'n']
}

/// The last piece of `parts` that is not empty, if any.
pub open spec fn last_nonempty(parts: Seq<Seq<char>>) -> Option<Seq<char>>
    decreases parts.len(),
{
    if parts.len() == 0 {
        None
    } else if parts.last().len() > 0 {
        Some(parts.last())
    } else {
        last_nonempty(parts.drop_last())
    }
}

/// The last non-empty piece is a piece that is not empty and after which
/// every piece is empty; there is none only when every piece is empty.
pub proof fn law_last_nonempty(parts: Seq<Seq<char>>)
    ensures
        last_nonempty(parts) matches Some(p) ==> exists|i: int|
            0 <= i < parts.len() && #[trigger] parts[i] == p && p.len() > 0
                && (forall|j: int| i < j < parts.len() ==> (#[trigger] parts[j]).len() == 0),
        last_nonempty(parts) is None ==> forall|j: int| 0 <= j < parts.len() ==> (#[trigger] parts[j]).len() == 0,
    decreases parts.len(),
{
    if parts.len() > 0 {
        let init = parts.drop_last();
        law_last_nonempty(init);
        if parts.last().len() > 0 {
            assert(parts[parts.len() - 1] == parts.last());
        } else {
            match last_nonempty(parts) {
                Some(p) => {
                    let i = choose|i: int|
                        0 <= i < init.len() && #[trigger] init[i] == p && p.len() > 0
                            && (forall|j: int| i < j < init.len() ==> (#[trigger] init[j]).len() == 0);
                    assert(parts[i] == init[i]);
                    assert forall|j: int| i < j < parts.len() implies (#[trigger] parts[j]).len() == 0 by {
                        if j < init.len() {
                            assert(parts[j] == init[j]);
                        }
                    }
                },
                None => {
                    assert forall|j: int| 0 <= j < parts.len() implies (#[trigger] parts[j]).len() == 0 by {
                        if j < init.len() {
                            assert(parts[j] == init[j]);
                        }
                    }
                },
            }
        }
    }
}

/// `piece` without a final `.git`.
pub open spec fn strip_git_suffix(piece: Seq<char>) -> Seq<char> {
    if piece.len() >= 4 && piece.skip(piece.len() - 4) == git_suffix() {
        piece.take(piece.len() - 4)
    } else {
        piece
    }
}

/// The repository name in a remote URL: the last non-empty `/`-separated
/// piece without a `.git` suffix, or `unknown` when there is no such piece.
pub open spec fn url_repo_name(url: Seq<char>) -> Seq<char> {
    match last_nonempty(split_on(url, '/')) {
        Some(piece) => strip_git_suffix(piece),
        None => unknown_name(),
    }
}

/// The first directory of `current` below the directory of worktree sets.
pub open spec fn dir_repo_name(current: PathModel, maram_dir: PathModel) -> Option<Seq<char>> {
    match strip_prefix_model(current, maram_dir) {
        Some(rest) => first_component_model(rest),
        None => None,
    }
}

/// The root of the main repository for a git directory: for a linked
/// worktree, whose git directory is `<root>/.git/worktrees/<name>`, three
/// levels up; else (`<root>/.git`) one level up, as also when a linked
/// worktree's git directory has fewer than three components; `.` when there
/// is no parent.
pub open spec fn main_repo_dir(git_dir: PathModel, linked: bool) -> PathModel {
    if linked && git_dir.comps.len() >= 3 {
        PathModel { absolute: git_dir.absolute, comps: git_dir.comps.take(git_dir.comps.len() - 3) }
    } else {
        match parent_model(git_dir) {
            Some(p) => p,
            None => PathModel { absolute: false, comps: Seq::empty() },
        }
    }
}

/// The repository name for a git directory, `linked` when the repository was
/// opened from a linked worktree: the file name of `main_repo_dir`, or `unknown`.
pub open spec fn git_dir_repo_name(git_dir: PathModel, linked: bool) -> Seq<char> {
    match file_name_model(main_repo_dir(git_dir, linked)) {
        Some(n) => n,
        None => unknown_name(),
    }
}

/// The name of the repository: from the URL of remote `origin` when it has
/// one; else from the current directory when it lies in the directory of
/// worktree sets; else from the git directory (`linked` when the repository
/// was opened from a linked worktree).
pub open spec fn repo_name_model(
    remote_url: Option<Seq<char>>,
    current_dir: Option<PathModel>,
    maram_dir: Option<PathModel>,
    git_dir: PathModel,
    linked: bool,
) -> Seq<char> {
    match remote_url {
        Some(u) => url_repo_name(u),
        None => {
            let from_dir = match (current_dir, maram_dir) {
                (Some(c), Some(m)) => if starts_with_model(c, m) {
                    dir_repo_name(c, m)
                } else {
                    None
                },
                _ => None,
            };
            match from_dir {
                Some(n) => n,
                None => git_dir_repo_name(git_dir, linked),
            }
        },
    }
}

fn unknown_string() -> (r: String)
    ensures
        r@ == unknown_name(),
{
    let r = string_from_chars(&vec!['u', 'n', 'k', 'n', 'o', 'w', 'n']);
    assert(r@ =~= unknown_name());
    r
}

/// `piece` without a final `.git` (see `strip_git_suffix`).
fn strip_git_suffix_exec(piece: &String) -> (r: String)
    ensures
        r@ == strip_git_suffix(piece@),
{
    let last = chars_of(piece.as_str());
    let m = last.len();
    if m >= 4 && last[m - 4] == '.' && last[m - 3] == 'g' && last[m - 2] == 'i' && last[m - 1] == 't' {
        assert(last@.skip(m - 4) =~= git_suffix());
        let mut stem: Vec<char> = Vec::new();
        let mut i: usize = 0;
        while i < m - 4
            invariant
                m == last.len(),
                m >= 4,
                i <= m - 4,
                stem@ == last@.take(i as int),
            decreases m - 4 - i,
        {
            stem.push(last[i]);
            assert(last@.take(i as int + 1) =~= last@.take(i as int).push(last@[i as int]));
            i = i + 1;
        }
        return string_from_chars(&stem);
    }
    assert(last@.len() < 4 || last@.skip(last@.len() - 4) != git_suffix()) by {
        if last@.len() >= 4 && last@.skip(last@.len() - 4) == git_suffix() {
            assert(last@.skip(last@.len() - 4)[0] == '.');
            assert(last@.skip(last@.len() - 4)[1] == 'g');
            assert(last@.skip(last@.len() - 4)[2] == 'i');
            assert(last@.skip(last@.len() - 4)[3] == 't');
        }
    }
    piece.clone()
}

/// The repository name in a remote URL (see `url_repo_name`).
pub fn repo_name_from_url(url: &str) -> (r: String)
    ensures
        r@ == url_repo_name(url@),
{
    let parts = split_on_char(url, '/');
    let ghost pv = parts.deep_view();
    let mut i: usize = parts.len();
    assert(pv.take(i as int) =~= pv);
    while i > 0 && parts[i - 1].unicode_len() == 0
        invariant
            pv == parts.deep_view(),
            i <= parts.len(),
            last_nonempty(pv) == last_nonempty(pv.take(i as int)),
        decreases i,
    {
        assert(parts[i - 1]@ == pv[i - 1]);
        assert(pv.take(i as int).drop_last() =~= pv.take(i - 1));
        i = i - 1;
    }
    if i == 0 {
        return unknown_string();
    }
    assert(parts[i - 1]@ == pv[i - 1]);
    assert(pv.take(i as int).last() == pv[i - 1]);
    strip_git_suffix_exec(&parts[i - 1])
}

/// The first directory of `current_dir` below `maram_dir` (see `dir_repo_name`).
pub fn repo_name_from_dir(current_dir: &FsPath, maram_dir: &FsPath) -> (r: Option<String>)
    ensures
        r.deep_view() == dir_repo_name(current_dir@, maram_dir@),
{
    match current_dir.strip_prefix(maram_dir) {
        Some(rest) => rest.first_component(),
        None => None,
    }
}

/// The repository name for a git directory (see `git_dir_repo_name`).
pub fn repo_name_from_git_dir(git_dir: &FsPath, linked: bool) -> (r: String)
    ensures
        r@ == git_dir_repo_name(git_dir@, linked),
{
    let mut main = match git_dir.parent() {
        Some(p) => p,
        None => FsPath::new(),
    };
    if linked {
        if let Some(p1) = git_dir.parent() {
            if let Some(p2) = p1.parent() {
                if let Some(p3) = p2.parent() {
                    assert(p3@.comps =~= git_dir@.comps.take(git_dir@.comps.len() - 3));
                    main = p3;
                }
            }
        }
    }
    match main.file_name() {
        Some(n) => n,
        None => unknown_string(),
    }
}

/// The name of the repository (see `repo_name_model`).
pub fn get_repo_name(
    remote_url: Option<String>,
    current_dir: Option<FsPath>,
    maram_dir: Option<FsPath>,
    git_dir: &FsPath,
    linked: bool,
) -> (r: String)
    ensures
        r@ == repo_name_model(
            remote_url.deep_view(),
            crate::path::opt_model(current_dir),
            crate::path::opt_model(maram_dir),
            git_dir@,
            linked,
        ),
{
    if let Some(u) = remote_url {
        return repo_name_from_url(u.as_str());
    }
    if let (Some(c), Some(m)) = (&current_dir, &maram_dir) {
        if c.starts_with(m) {
            if let Some(n) = repo_name_from_dir(c, m) {
                return n;
            }
        }
    }
    repo_name_from_git_dir(git_dir, linked)
}

/// A hexadecimal digit, either case.
pub open spec fn is_hex_digit(c: char) -> bool {
    ('0' <= c && c <= '9') || ('a' <= c && c <= 'f') || ('A' <= c && c <= 'F')
}

/// The value of a hexadecimal digit.
pub open spec fn hex_value(c: char) -> int {
    if '0' <= c && c <= '9' {
        c as int - '0' as int
    } else if 'a' <= c && c <= 'f' {
        c as int - 'a' as int + 10
    } else {
        c as int - 'A' as int + 10
    }
}

/// Text that libgit2 takes for a SHA-1 object id: one to forty hexadecimal digits.
pub open spec fn is_oid_text(s: Seq<char>) -> bool {
    &&& 1 <= s.len() <= 40
    &&& forall|i: int| 0 <= i < s.len() ==> is_hex_digit(#[trigger] s[i])
}

/// The value of the digit at position `p`, zero past the end.
pub open spec fn nibble(s: Seq<char>, p: int) -> int {
    if p < s.len() {
        hex_value(s[p])
    } else {
        0
    }
}

/// The 20 bytes of the object id that the text `s` names: two digits per byte,
/// the first the high half, missing digits taken as zero.
pub open spec fn oid_bytes(s: Seq<char>) -> Seq<u8> {
    Seq::new(20, |j: int| (nibble(s, 2 * j) * 16 + nibble(s, 2 * j + 1)) as u8)
}

/// `git2::Oid::from_str`: an id for one to forty hexadecimal digits, padded
/// with zeros (libgit2's `git_oid_fromstrn`), an error for any other text.
#[verifier::external_body]
fn parse_oid_text(s: &str) -> (r: Option<Vec<u8>>)
    ensures
        r is Some <==> is_oid_text(s@),
        r matches Some(b) ==> b@ == oid_bytes(s@),
{
    match git2::Oid::from_str(s) {
        Ok(oid) => Some(oid.as_bytes().to_vec()),
        Err(_) => None,
    }
}

/// The id of the recorded base commit; an error when the record is no commit id.
pub fn parse_commit_id(text: &str) -> (r: Result<Vec<u8>, MaramError>)
    ensures
        r is Ok <==> is_oid_text(text@),
        r matches Ok(b) ==> b@ == oid_bytes(text@),
        r matches Err(e) ==> e == MaramError::InvalidBaseCommit,
{
    match parse_oid_text(text) {
        Some(b) => Ok(b),
        None => Err(MaramError::InvalidBaseCommit),
    }
}

/// What a cherry-pick of one commit means for the rest of the pick.
#[derive(Debug, Clone, Copy, PartialEq, Eq)]
pub enum CherryPickStep {
    /// The commit applied cleanly: go on with the next one.
    Continue,
    /// The commit conflicts: stop and leave the conflicts to the user.
    Conflicts,
    /// libgit2 failed for another reason.
    Failed,
}

/// The meaning of a cherry-pick's outcome: `Ok(has_conflicts)` when libgit2
/// applied it, else the class of its error.
pub fn cherry_pick_step(outcome: Result<bool, GitErrorKind>) -> (r: CherryPickStep)
    ensures
        r == (match outcome {
            Ok(false) => CherryPickStep::Continue,
            Ok(true) => CherryPickStep::Conflicts,
            Err(GitErrorKind::Conflict) => CherryPickStep::Conflicts,
            Err(_) => CherryPickStep::Failed,
        }),
{
    match outcome {
        Ok(has_conflicts) => if has_conflicts {
            CherryPickStep::Conflicts
        } else {
            CherryPickStep::Continue
        },
        Err(GitErrorKind::Conflict) => CherryPickStep::Conflicts,
        Err(_) => CherryPickStep::Failed,
    }
}

/// The commits to cherry-pick, oldest first, from a history walk that yields
/// the newest first.
pub fn cherry_pick_order<T>(walked: Vec<T>) -> (r: Vec<T>)
    ensures
        r@ == walked@.reverse(),
{
    let mut rest = walked;
    let ghost orig = rest@;
    let mut r: Vec<T> = Vec::new();
    while rest.len() > 0
        invariant
            orig.len() == rest@.len() + r@.len(),
            rest@ == orig.take(rest@.len() as int),
            r@ == orig.skip(rest@.len() as int).reverse(),
        decreases rest.len(),
    {
        let ghost k: int = rest@.len() as int;
        let x = rest.pop().unwrap();
        let ghost before = r@;
        r.push(x);
        assert(rest@ =~= orig.take(k - 1));
        assert(r@ =~= orig.skip(k - 1).reverse()) by {
            assert forall|i: int| 0 <= i < r@.len() implies r@[i] == orig.skip(k - 1).reverse()[i] by {
                if i < before.len() {
                    assert(orig.skip(k - 1).reverse()[i] == orig.skip(k - 1)[orig.skip(k - 1).len() - 1 - i]);
                    assert(orig.skip(k).reverse()[i] == orig.skip(k)[orig.skip(k).len() - 1 - i]);
                }
            }
        }
    }
    assert(orig.skip(0) =~= orig);
    r
}

/// Whether a new commit gets the current HEAD as parent: yes when HEAD
/// resolves, none on an unborn branch, and any other error is passed on.
pub fn commit_has_parent(head: Result<(), GitErrorKind>) -> (r: Result<bool, GitErrorKind>)
    ensures
        r == (match head {
            Ok(()) => Ok(true),
            Err(GitErrorKind::UnbornBranch) => Ok(false),
            Err(e) => Err(e),
        }),
{
    match head {
        Ok(()) => Ok(true),
        Err(GitErrorKind::UnbornBranch) => Ok(false),
        Err(e) => Err(e),
    }
}

/// The linked worktree at `target`: the first entry, in order, whose path is
/// `target`; worktrees that libgit2 no longer finds are passed over; another
/// failure ends the search with that worktree's name.
pub open spec fn worktree_search(entries: Seq<(Seq<char>, Result<PathModel, GitErrorKind>)>, target: PathModel) -> Result<Option<Seq<char>>, Seq<char>>
    decreases entries.len(),
{
    if entries.len() == 0 {
        Ok(None)
    } else {
        let e = entries[0];
        match e.1 {
            Ok(p) => if p == target {
                Ok(Some(e.0))
            } else {
                worktree_search(entries.drop_first(), target)
            },
            Err(GitErrorKind::NotFound) => worktree_search(entries.drop_first(), target),
            Err(_) => Err(e.0),
        }
    }
}

/// The search for a worktree returns the name of an entry whose path is the
/// target itself (same root and components), and every entry before it is a
/// worktree elsewhere or one that libgit2 no longer finds; it finds nothing
/// only when no entry has the target as its path and none failed otherwise;
/// it fails with the name of the first entry that failed otherwise.
pub proof fn law_worktree_search(entries: Seq<(Seq<char>, Result<PathModel, GitErrorKind>)>, target: PathModel)
    ensures
        worktree_search(entries, target) matches Ok(Some(n)) ==> exists|i: int|
            0 <= i < entries.len() && (#[trigger] entries[i]).0 == n && entries[i].1 == Ok::<PathModel, GitErrorKind>(target)
                && (forall|j: int| 0 <= j < i ==> passed_over(#[trigger] entries[j].1, target)),
        worktree_search(entries, target) == Ok::<Option<Seq<char>>, Seq<char>>(None) ==> forall|j: int|
            0 <= j < entries.len() ==> passed_over(#[trigger] entries[j].1, target),
        worktree_search(entries, target) matches Err(n) ==> exists|i: int|
            0 <= i < entries.len() && (#[trigger] entries[i]).0 == n
                && (entries[i].1 matches Err(k) && k != GitErrorKind::NotFound)
                && (forall|j: int| 0 <= j < i ==> passed_over(#[trigger] entries[j].1, target)),
    decreases entries.len(),
{
    if entries.len() > 0 {
        let rest = entries.drop_first();
        law_worktree_search(rest, target);
        match worktree_search(entries, target) {
            Ok(Some(n)) => {
                if entries[0].1 != Ok::<PathModel, GitErrorKind>(target) {
                    let i = choose|i: int|
                        0 <= i < rest.len() && (#[trigger] rest[i]).0 == n && rest[i].1 == Ok::<PathModel, GitErrorKind>(target)
                            && (forall|j: int| 0 <= j < i ==> passed_over(#[trigger] rest[j].1, target));
                    assert(entries[i + 1] == rest[i]);
                    assert forall|j: int| 0 <= j < i + 1 implies passed_over(#[trigger] entries[j].1, target) by {
                        if j > 0 {
                            assert(entries[j] == rest[j - 1]);
                        }
                    }
                }
            },
            Ok(None) => {
                assert forall|j: int| 0 <= j < entries.len() implies passed_over(#[trigger] entries[j].1, target) by {
                    if j > 0 {
                        assert(entries[j] == rest[j - 1]);
                    }
                }
            },
            Err(n) => {
                if !(entries[0].1 matches Err(k) && k != GitErrorKind::NotFound) {
                    let i = choose|i: int|
                        0 <= i < rest.len() && (#[trigger] rest[i]).0 == n
                            && (rest[i].1 matches Err(k) && k != GitErrorKind::NotFound)
                            && (forall|j: int| 0 <= j < i ==> passed_over(#[trigger] rest[j].1, target));
                    assert(entries[i + 1] == rest[i]);
                    assert forall|j: int| 0 <= j < i + 1 implies passed_over(#[trigger] entries[j].1, target) by {
                        if j > 0 {
                            assert(entries[j] == rest[j - 1]);
                        }
                    }
                }
            },
        }
    }
}

/// An entry that the search passes over: a worktree at another path, or one
/// that libgit2 no longer finds.
pub open spec fn passed_over(e: Result<PathModel, GitErrorKind>, target: PathModel) -> bool {
    match e {
        Ok(p) => p != target,
        Err(k) => k == GitErrorKind::NotFound,
    }
}

/// Removing the repository suffix from a URL piece: when the piece ends with
/// `.git`, the name followed by `.git` is the piece (only those four
/// characters go); otherwise the name is the piece.
pub proof fn law_strip_git_suffix(piece: Seq<char>)
    ensures
        piece.len() >= 4 && piece.skip(piece.len() - 4) == seq!['.', 'g', 'i', 't'] ==> strip_git_suffix(piece) + seq!['.', 'g', 'i', 't'] == piece,
        !(piece.len() >= 4 && piece.skip(piece.len() - 4) == seq!['.', 'g', 'i', 't']) ==> strip_git_suffix(piece) == piece,
{
    if piece.len() >= 4 && piece.skip(piece.len() - 4) == seq!['.', 'g', 'i', 't'] {
        assert(piece.take(piece.len() - 4) + piece.skip(piece.len() - 4) =~= piece);
    }
}

/// The repository name of a URL is its last non-empty `/`-piece without a
/// final `.git`: that name followed by `.git` is the piece when the piece ends
/// with `.git`, else the name is the piece; `unknown` when there is no piece.
pub proof fn law_url_repo_name(url: Seq<char>)
    ensures
        last_nonempty(split_on(url, '/')) matches Some(piece) ==> (
            (piece.len() >= 4 && piece.skip(piece.len() - 4) == seq!['.', 'g', 'i', 't'] ==> url_repo_name(url) + seq!['.', 'g', 'i', 't'] == piece)
            && (!(piece.len() >= 4 && piece.skip(piece.len() - 4) == seq!['.', 'g', 'i', 't']) ==> url_repo_name(url) == piece)),
        last_nonempty(split_on(url, '/')) is None ==> url_repo_name(url) == seq!['u', 'n', 'k', 'n', 'o', 'w', 'n'],
{
    if let Some(piece) = last_nonempty(split_on(url, '/')) {
        law_strip_git_suffix(piece);
    }
}

/// The abstract value of the worktree entries.
pub open spec fn worktree_entries_view(v: Seq<(String, Result<FsPath, GitErrorKind>)>) -> Seq<(Seq<char>, Result<PathModel, GitErrorKind>)> {
    v.map_values(|e: (String, Result<FsPath, GitErrorKind>)| (e.0@, match e.1 {
        Ok(p) => Ok(p@),
        Err(k) => Err(k),
    }))
}

/// Finds the worktree at `target` (see `worktree_search`); the error is the
/// name of the worktree that could not be opened.
pub fn find_worktree_name(entries: &Vec<(String, Result<FsPath, GitErrorKind>)>, target: &FsPath) -> (r: Result<Option<String>, String>)
    ensures
        worktree_search(worktree_entries_view(entries@), target@) == (match r {
            Ok(o) => Ok(o.deep_view()),
            Err(n) => Err(n@),
        }),
{
    let ghost ev = worktree_entries_view(entries@);
    let mut i: usize = 0;
    assert(ev.skip(0) =~= ev);
    while i < entries.len()
        invariant
            ev == worktree_entries_view(entries@),
            i <= entries.len(),
            worktree_search(ev, target@) == worktree_search(ev.skip(i as int), target@),
        decreases entries.len() - i,
    {
        let e = &entries[i];
        assert(ev.skip(i as int)[0] == ev[i as int]);
        assert(ev.skip(i as int).drop_first() =~= ev.skip(i as int + 1));
        match &e.1 {
            Ok(p) => {
                if p.same_as(target) {
                    return Ok(Some(e.0.clone()));
                }
            },
            Err(GitErrorKind::NotFound) => {},
            Err(_) => {
                return Err(e.0.clone());
            },
        }
        i = i + 1;
    }
    assert(ev.skip(i as int) =~= Seq::<(Seq<char>, Result<PathModel, GitErrorKind>)>::empty());
    Ok(None)
}

} // verus!
