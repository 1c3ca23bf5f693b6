//! Where worktree sets live, and which one the current directory belongs to.

use vstd::prelude::*;
use crate::error::MaramError;
use crate::metadata::WorktreeMetadata;
use crate::naming::{join_variant_branch, variant_branch};
use crate::path::{
    FsPath, PathModel, full_components, opt_model, opt_text, join_model, parse_path, push_text, starts_with_model,
    is_component,
};
use crate::text::{chars_of, string_from_chars};

verus! {

/// A worktree set: its metadata and its directory `<maram dir>/<repo>/<branch>`.
#[derive(Debug)]
pub struct WorktreeSet {
    pub metadata: WorktreeMetadata,
    pub base_dir: FsPath,
}

/// What the library needs to know of an entry of a repository directory.
#[derive(Debug)]
pub struct DirEntryInfo {
    /// The entry's file name, when it is valid UTF-8.
    pub name: Option<String>,
    pub is_dir: bool,
    /// Whether `<entry>/.maram/metadata.json` exists.
    pub has_metadata: bool,
}

/// The names of the entries that are worktree sets: directories with
/// metadata and a readable name, in the order of `entries`.
pub open spec fn listed_sets(entries: Seq<DirEntryInfo>) -> Seq<Seq<char>>
    decreases entries.len(),
{
    if entries.len() == 0 {
        Seq::empty()
    } else {
        let rest = listed_sets(entries.drop_last());
        let e = entries.last();
        if e.is_dir && e.has_metadata && e.name is Some {
            rest.push(e.name->0@)
        } else {
            rest
        }
    }
}

/// `maram`
pub open spec fn default_dir_name() -> Seq<char> {
    seq!['m', 'a', 'r', 'a', 'm']
}

/// The directory of worktree sets that a `maram_dir` setting names: `~` is the
/// home directory and `~/rest` lies under it; other text is taken as a path.
/// `None` when the setting needs the home directory and it is unknown.
pub open spec fn expand_tilde(setting: Seq<char>, home: Option<PathModel>) -> Option<PathModel> {
    if setting == seq!['~'] {
        home
    } else if setting.len() >= 2 && setting[0] == '~' && setting[1] == '/' {
        match home {
            Some(h) => Some(join_model(h, parse_path(setting.skip(2)))),
            None => None,
        }
    } else {
        Some(parse_path(setting))
    }
}

/// The directory of worktree sets: `$MARAM_DIR` when set, else the `maram_dir`
/// setting (see `expand_tilde`), else `~/maram`.
pub open spec fn maram_dir_model(env_dir: Option<Seq<char>>, setting: Option<Seq<char>>, home: Option<PathModel>) -> Option<PathModel> {
    match env_dir {
        Some(e) => Some(parse_path(e)),
        None => match setting {
            Some(s) => expand_tilde(s, home),
            None => match home {
                Some(h) => Some(PathModel { absolute: h.absolute, comps: h.comps.push(default_dir_name()) }),
                None => None,
            },
        },
    }
}

/// The text of the directory of worktree sets, as `maram_dir_model` chooses
/// it, from the texts it is made of (`PathBuf::push` for a join).
pub open spec fn maram_dir_text(env_dir: Option<Seq<char>>, setting: Option<Seq<char>>, home: Option<Seq<char>>) -> Option<Seq<char>> {
    match env_dir {
        Some(e) => Some(e),
        None => match setting {
            Some(s) => if s == seq!['~'] {
                home
            } else if s.len() >= 2 && s[0] == '~' && s[1] == '/' {
                match home {
                    Some(h) => Some(push_text(h, s.skip(2))),
                    None => None,
                }
            } else {
                Some(s)
            },
            None => match home {
                Some(h) => Some(push_text(h, default_dir_name())),
                None => None,
            },
        },
    }
}

/// The `i`th directory that the search for the current worktree set looks at:
/// `current` without its last `i` components.
pub open spec fn search_candidate(current: PathModel, i: int) -> PathModel {
    PathModel { absolute: current.absolute, comps: current.comps.take(current.comps.len() - i) }
}

/// How many directories the search looks at: those from `current` up to, and
/// without, `maram_dir`.
pub open spec fn search_len(current: PathModel, maram_dir: PathModel) -> int {
    full_components(current).len() - full_components(maram_dir).len()
}

impl WorktreeSet {
    /// The directory of worktree sets (see `maram_dir_model`).
    pub fn get_maram_dir(env_dir: Option<String>, setting: Option<String>, home: Option<FsPath>) -> (r: Result<FsPath, MaramError>)
        ensures
            r is Ok <==> maram_dir_model(env_dir.deep_view(), setting.deep_view(), opt_model(home)) is Some,
            r matches Ok(p) ==> p@ == maram_dir_model(env_dir.deep_view(), setting.deep_view(), opt_model(home))->0,
            r matches Ok(p) ==> p.as_text() == maram_dir_text(env_dir.deep_view(), setting.deep_view(), opt_text(home))->0,
            r matches Err(e) ==> e == MaramError::NoHomeDir,
    {
        if let Some(e) = env_dir {
            return Ok(FsPath::parse(e.as_str()));
        }
        if let Some(s) = setting {
            let cs = chars_of(s.as_str());
            if cs.len() == 1 && cs[0] == '~' {
                assert(s@ =~= seq!['~']);
                return match home {
                    Some(h) => Ok(h),
                    None => Err(MaramError::NoHomeDir),
                };
            }
            assert(s@ != seq!['~']) by {
                if s@ == seq!['~'] {
                    assert(cs@.len() == 1);
                }
            }
            if cs.len() >= 2 && cs[0] == '~' && cs[1] == '/' {
                return match home {
                    Some(h) => {
                        let mut rest: Vec<char> = Vec::new();
                        let mut i: usize = 2;
                        while i < cs.len()
                            invariant
                                cs@ == s@,
                                2 <= i <= cs.len(),
                                rest@ == s@.subrange(2, i as int),
                            decreases cs.len() - i,
                        {
                            rest.push(cs[i]);
                            assert(s@.subrange(2, i as int + 1) =~= s@.subrange(2, i as int).push(s@[i as int]));
                            i = i + 1;
                        }
                        assert(s@.subrange(2, i as int) =~= s@.skip(2));
                        let rest_str = string_from_chars(&rest);
                        Ok(h.join(rest_str.as_str()))
                    },
                    None => Err(MaramError::NoHomeDir),
                };
            }
            return Ok(FsPath::parse(s.as_str()));
        }
        match home {
            Some(h) => {
                let name = string_from_chars(&vec!['m', 'a', 'r', 'a', 'm']);
                assert(name@ =~= default_dir_name());
                proof {
                    crate::path::lemma_name_is_component(name@);
                }
                Ok(h.push_component(name.as_str()))
            },
            None => Err(MaramError::NoHomeDir),
        }
    }

    /// The directory of a repository's worktree sets: `<maram dir>/<repo>`.
    pub fn get_repo_dir(maram_dir: &FsPath, repo_name: &str) -> (r: FsPath)
        ensures
            r@ == join_model(maram_dir@, parse_path(repo_name@)),
            r.as_text() == push_text(maram_dir.as_text(), repo_name@),
    {
        maram_dir.join(repo_name)
    }

    /// The directory of a worktree set: `<maram dir>/<repo>/<branch>`.
    pub fn get_worktree_dir(maram_dir: &FsPath, repo_name: &str, branch_name: &str) -> (r: FsPath)
        ensures
            r@ == join_model(join_model(maram_dir@, parse_path(repo_name@)), parse_path(branch_name@)),
            r.as_text() == push_text(push_text(maram_dir.as_text(), repo_name@), branch_name@),
    {
        Self::get_repo_dir(maram_dir, repo_name).join(branch_name)
    }

    /// The worktree set of `branch_name`, with the metadata read from its directory.
    pub fn load(maram_dir: &FsPath, repo_name: &str, branch_name: &str, metadata: WorktreeMetadata) -> (r: WorktreeSet)
        ensures
            r.base_dir@ == join_model(join_model(maram_dir@, parse_path(repo_name@)), parse_path(branch_name@)),
            r.metadata == metadata,
    {
        let base_dir = Self::get_worktree_dir(maram_dir, repo_name, branch_name);
        WorktreeSet { metadata, base_dir }
    }

    /// The worktree set in `worktree_dir`, with the metadata read from it.
    pub fn load_from_path(worktree_dir: &FsPath, metadata: WorktreeMetadata) -> (r: WorktreeSet)
        ensures
            r.base_dir@ == worktree_dir@,
            r.metadata == metadata,
    {
        WorktreeSet { metadata, base_dir: worktree_dir.clone() }
    }

    /// The worktree sets among the entries of a repository directory (see `listed_sets`).
    pub fn list_worktree_sets(entries: &Vec<DirEntryInfo>) -> (r: Vec<String>)
        ensures
            r.deep_view() == listed_sets(entries@),
    {
        let mut r: Vec<String> = Vec::new();
        let mut i: usize = 0;
        assert(entries@.take(0) =~= Seq::<DirEntryInfo>::empty());
        assert(r.deep_view() =~= Seq::<Seq<char>>::empty());
        while i < entries.len()
            invariant
                i <= entries.len(),
                r.deep_view() == listed_sets(entries@.take(i as int)),
            decreases entries.len() - i,
        {
            let e = &entries[i];
            assert(entries@.take(i as int + 1).drop_last() =~= entries@.take(i as int));
            if e.is_dir && e.has_metadata {
                if let Some(name) = &e.name {
                    let ghost before = r.deep_view();
                    r.push(name.clone());
                    assert(r.deep_view() =~= before.push(name@));
                }
            }
            i = i + 1;
        }
        assert(entries@.take(i as int) =~= entries@);
        r
    }

    /// Whether the current directory lies in the directory of worktree sets.
    pub fn is_in_worktree_set(current_dir: &FsPath, maram_dir: &FsPath) -> (r: bool)
        ensures
            r == starts_with_model(current_dir@, maram_dir@),
    {
        current_dir.starts_with(maram_dir)
    }

    /// The directories to look in, in order, for the metadata of the current
    /// worktree set: the current directory and its parents, up to but without
    /// the directory of worktree sets.
    pub fn find_current(current_dir: &FsPath, maram_dir: &FsPath) -> (r: Result<Vec<FsPath>, MaramError>)
        ensures
            r is Err <==> !starts_with_model(current_dir@, maram_dir@),
            r matches Err(e) ==> e == MaramError::NotInWorktreeSet,
            r matches Ok(c) ==> c.len() == search_len(current_dir@, maram_dir@) && forall|i: int|
                0 <= i < c.len() ==> (#[trigger] c[i])@ == search_candidate(current_dir@, i),
    {
        if !current_dir.starts_with(maram_dir) {
            return Err(MaramError::NotInWorktreeSet);
        }
        let k = current_dir.full_components().len() - maram_dir.full_components().len();
        let ghost cur = current_dir@;
        let mut out: Vec<FsPath> = Vec::new();
        let mut path = current_dir.clone();
        assert(cur.comps.take(cur.comps.len() as int) =~= cur.comps);
        let mut i: usize = 0;
        while i < k
            invariant
                k == search_len(cur, maram_dir@),
                k <= cur.comps.len() + 1,
                i <= k,
                out.len() == i,
                i < k ==> path@ == search_candidate(cur, i as int),
                forall|j: int| 0 <= j < i ==> (#[trigger] out[j])@ == search_candidate(cur, j),
            decreases k - i,
        {
            let here = path.clone();
            out.push(here);
            if i + 1 < k {
                match path.parent() {
                    Some(p) => {
                        assert(p@.comps =~= cur.comps.take(cur.comps.len() - (i + 1)));
                        path = p;
                    },
                    None => {
                        assert(false);
                    },
                }
            }
            i = i + 1;
        }
        Ok(out)
    }

    /// The directory whose metadata the search finds: the first candidate, in
    /// order, whose flag says it has metadata. Without one, the search ends at
    /// the directory of worktree sets, or past the root when the last
    /// candidate is the root.
    pub fn select_candidate(candidates: &Vec<(FsPath, bool)>) -> (r: Result<usize, MaramError>)
        ensures
            r matches Ok(i) ==> i < candidates.len() && candidates[i as int].1
                && forall|j: int| 0 <= j < i ==> !(#[trigger] candidates[j]).1,
            r is Err <==> forall|j: int| 0 <= j < candidates.len() ==> !(#[trigger] candidates[j]).1,
            r matches Err(e) ==> e == (if candidates.len() > 0 && candidates[candidates.len() - 1].0@.comps.len() == 0 {
                MaramError::ReachedRoot
            } else {
                MaramError::MetadataNotFound
            }),
    {
        let mut i: usize = 0;
        while i < candidates.len()
            invariant
                i <= candidates.len(),
                forall|j: int| 0 <= j < i ==> !(#[trigger] candidates[j]).1,
            decreases candidates.len() - i,
        {
            if candidates[i].1 {
                return Ok(i);
            }
            i = i + 1;
        }
        let n = candidates.len();
        if n > 0 && candidates[n - 1].0.parent().is_none() {
            Err(MaramError::ReachedRoot)
        } else {
            Err(MaramError::MetadataNotFound)
        }
    }

    /// The branch of a variant: `<variant>/<base>`, both taken as given.
    pub fn format_variant_branch(variant: &str, base_branch: &str) -> (r: String)
        ensures
            r@ == variant_branch(variant@, base_branch@),
    {
        join_variant_branch(variant, base_branch)
    }

    /// Whether the current directory is in the base worktree and in no variant
    /// worktree. The paths are compared as given; a variant whose path could not
    /// be resolved is `None` and does not count.
    pub fn is_in_base_worktree(current: &FsPath, base_path: &FsPath, variant_paths: &Vec<Option<FsPath>>) -> (r: bool)
        ensures
            r == (starts_with_model(current@, base_path@) && forall|i: int|
                0 <= i < variant_paths.len() ==> (#[trigger] variant_paths[i] matches Some(v) ==> !starts_with_model(current@, v@))),
    {
        if !current.starts_with(base_path) {
            return false;
        }
        let mut i: usize = 0;
        while i < variant_paths.len()
            invariant
                i <= variant_paths.len(),
                forall|j: int| 0 <= j < i ==> (#[trigger] variant_paths[j] matches Some(v) ==> !starts_with_model(current@, v@)),
            decreases variant_paths.len() - i,
        {
            if let Some(v) = &variant_paths[i] {
                if current.starts_with(v) {
                    return false;
                }
            }
            i = i + 1;
        }
        true
    }
}

/// Every directory that the search looks at lies in the directory of worktree
/// sets and is not that directory, and each is the parent of the one before.
pub proof fn lemma_search_candidates(current: PathModel, maram_dir: PathModel, i: int)
    requires
        starts_with_model(current, maram_dir),
        0 <= i < search_len(current, maram_dir),
    ensures
        starts_with_model(search_candidate(current, i), maram_dir),
        search_candidate(current, i) != maram_dir,
        i + 1 < search_len(current, maram_dir) ==> search_candidate(current, i).comps.len() > 0
            && search_candidate(current, i + 1) == (PathModel {
                absolute: current.absolute,
                comps: search_candidate(current, i).comps.drop_last(),
            }),
{
    let c = search_candidate(current, i);
    let fc = full_components(current);
    let fm = full_components(maram_dir);
    let fcand = full_components(c);
    assert(fcand =~= fc.take(fc.len() - i));
    assert(fcand.take(fm.len() as int) =~= fm) by {
        assert forall|j: int| 0 <= j < fm.len() implies fcand[j] == fm[j] by {
            assert(fc.take(fm.len() as int)[j] == fm[j]);
        }
    }
    if c == maram_dir {
        assert(fcand.len() == fm.len());
    }
    if i + 1 < search_len(current, maram_dir) {
        assert(c.comps.drop_last() =~= current.comps.take(current.comps.len() - (i + 1)));
    }
}

} // verus!
