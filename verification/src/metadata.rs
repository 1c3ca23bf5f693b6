//! What maram records about a worktree set, and how the commands change it.

use vstd::prelude::*;
use crate::error::MaramError;
use crate::path::{FsPath, PathModel, is_component};
use crate::path_map::PathMap;
use crate::text::string_from_chars;

verus! {

/// Name of the directory, inside a worktree set, that holds the metadata.
pub open spec fn metadata_dir_name() -> Seq<char> {
    seq!['.', 'm', 'a', 'r', 'a', 'm']
}

/// Name of the metadata file.
pub open spec fn metadata_file_name() -> Seq<char> {
    seq!['m', 'e', 't', 'a', 'd', 'a', 't', 'a', '.', 'j', 's', 'o', 'n']
}

/// Name of the saved Zellij layout.
pub open spec fn layout_file_name() -> Seq<char> {
    seq!['l', 'a', 'y', 'o', 'u', 't', '.', 'k', 'd', 'l']
}

/// Name of the base worktree, and of the base as a variant name.
pub open spec fn base_variant_name() -> Seq<char> {
    seq!['b', 'a', 's', 'e']
}

/// `p` with the component `c` appended.
pub open spec fn with_component(p: PathModel, c: Seq<char>) -> PathModel {
    PathModel { absolute: p.absolute, comps: p.comps.push(c) }
}

/// `.maram`
pub fn metadata_dir_string() -> (r: String)
    ensures
        r@ == metadata_dir_name(),
{
    let v = vec!['.', 'm', 'a', 'r', 'a', 'm'];
    let r = string_from_chars(&v);
    assert(r@ =~= metadata_dir_name());
    r
}

/// `metadata.json`
pub fn metadata_file_string() -> (r: String)
    ensures
        r@ == metadata_file_name(),
{
    let v = vec!['m', 'e', 't', 'a', 'd', 'a', 't', 'a', '.', 'j', 's', 'o', 'n'];
    let r = string_from_chars(&v);
    assert(r@ =~= metadata_file_name());
    r
}

/// `layout.kdl`
pub fn layout_file_string() -> (r: String)
    ensures
        r@ == layout_file_name(),
{
    let v = vec!['l', 'a', 'y', 'o', 'u', 't', '.', 'k', 'd', 'l'];
    let r = string_from_chars(&v);
    assert(r@ =~= layout_file_name());
    r
}

/// `base`
pub fn base_variant_string() -> (r: String)
    ensures
        r@ == base_variant_name(),
{
    let v = vec!['b', 'a', 's', 'e'];
    let r = string_from_chars(&v);
    assert(r@ =~= base_variant_name());
    r
}

/// Appends a fixed name, known to be a component.
fn push_name(p: &FsPath, name: &String) -> (r: FsPath)
    requires
        is_component(name@),
    ensures
        r@ == with_component(p@, name@),
{
    p.push_component(name.as_str())
}

/// The names of `s` other than `x`, in order (`Vec::retain`).
pub open spec fn without(s: Seq<Seq<char>>, x: Seq<char>) -> Seq<Seq<char>>
    decreases s.len(),
{
    if s.len() == 0 {
        s
    } else {
        let rest = without(s.drop_last(), x);
        if s.last() == x {
            rest
        } else {
            rest.push(s.last())
        }
    }
}

/// The state of a worktree set that maram records.
#[derive(Debug)]
pub struct WorktreeMetadata {
    pub branch_name: String,
    pub variants: Vec<String>,
    pub base_path: FsPath,
    pub variant_paths: PathMap,
    pub current_picked_variant: Option<String>,
    /// The commit of the base branch before any pick.
    pub base_commit: String,
    /// The branch that the set was created from.
    pub parent_branch: Option<String>,
}

/// The recorded state agrees with itself: each variant once, a path for each
/// variant and for nothing else, and the picked variant is one of the variants.
pub open spec fn consistent(m: WorktreeMetadata) -> bool {
    let vs = m.variants.deep_view();
    &&& forall|i: int, j: int| 0 <= i < j < vs.len() ==> vs[i] != vs[j]
    &&& forall|k: Seq<char>| m.variant_paths@.contains_key(k) <==> vs.contains(k)
    &&& m.current_picked_variant matches Some(p) ==> vs.contains(p@)
}

impl WorktreeMetadata {
    /// A new record: the given branch and variants, no paths, no pick, no base commit.
    pub fn new(branch_name: String, variants: Vec<String>) -> (r: WorktreeMetadata)
        ensures
            r.branch_name@ == branch_name@,
            r.variants.deep_view() == variants.deep_view(),
            r.base_path@ == (PathModel { absolute: false, comps: Seq::empty() }),
            r.variant_paths@ == Map::<Seq<char>, PathModel>::empty(),
            r.current_picked_variant is None,
            r.base_commit@ == Seq::<char>::empty(),
            r.parent_branch is None,
    {
        WorktreeMetadata {
            branch_name,
            variants,
            base_path: FsPath::new(),
            variant_paths: PathMap::new(),
            current_picked_variant: None,
            base_commit: String::new(),
            parent_branch: None,
        }
    }

    /// The directory of the metadata in a worktree set: `<dir>/.maram`.
    pub fn metadata_dir(worktree_dir: &FsPath) -> (r: FsPath)
        ensures
            r@ == with_component(worktree_dir@, metadata_dir_name()),
    {
        let name = metadata_dir_string();
        proof {
            crate::path::lemma_name_is_component(name@);
        }
        push_name(worktree_dir, &name)
    }

    /// The metadata file of a worktree set: `<dir>/.maram/metadata.json`.
    pub fn metadata_file(worktree_dir: &FsPath) -> (r: FsPath)
        ensures
            r@ == with_component(with_component(worktree_dir@, metadata_dir_name()), metadata_file_name()),
    {
        let dir = Self::metadata_dir(worktree_dir);
        let name = metadata_file_string();
        proof {
            crate::path::lemma_name_is_component(name@);
        }
        push_name(&dir, &name)
    }

    /// The saved layout of a worktree set: `<dir>/.maram/layout.kdl`.
    pub fn layout_file(worktree_dir: &FsPath) -> (r: FsPath)
        ensures
            r@ == with_component(with_component(worktree_dir@, metadata_dir_name()), layout_file_name()),
    {
        let dir = Self::metadata_dir(worktree_dir);
        let name = layout_file_string();
        proof {
            crate::path::lemma_name_is_component(name@);
        }
        push_name(&dir, &name)
    }

    /// Whether `name` is one of the variants.
    pub fn has_variant(&self, name: &str) -> (r: bool)
        ensures
            r == self.variants.deep_view().contains(name@),
    {
        let k = String::from_str(name);
        let mut i: usize = 0;
        while i < self.variants.len()
            invariant
                k@ == name@,
                i <= self.variants.len(),
                forall|j: int| 0 <= j < i ==> self.variants.deep_view()[j] != name@,
            decreases self.variants.len() - i,
        {
            if self.variants[i] == k {
                assert(self.variants.deep_view()[i as int] == name@);
                return true;
            }
            i = i + 1;
        }
        false
    }

    /// The worktree path recorded for variant `name`.
    pub fn variant_path(&self, name: &str) -> (r: Result<FsPath, MaramError>)
        ensures
            r is Ok <==> self.variant_paths@.contains_key(name@),
            r matches Ok(p) ==> p@ == self.variant_paths@[name@],
            r matches Err(e) ==> (e matches MaramError::VariantPathNotFound { name: n } && n@ == name@),
    {
        match self.variant_paths.get(name) {
            Some(p) => Ok(p),
            None => Err(MaramError::VariantPathNotFound { name: String::from_str(name) }),
        }
    }

    /// Adds variant `name` with its worktree path (the record of `maram add`).
    pub fn add_variant(&mut self, name: String, path: FsPath)
        ensures
            final(self).variants.deep_view() == old(self).variants.deep_view().push(name@),
            final(self).variant_paths@ == old(self).variant_paths@.insert(name@, path@),
            final(self).branch_name == old(self).branch_name,
            final(self).base_path == old(self).base_path,
            final(self).current_picked_variant == old(self).current_picked_variant,
            final(self).base_commit == old(self).base_commit,
            final(self).parent_branch == old(self).parent_branch,
            consistent(*old(self)) && !old(self).variants.deep_view().contains(name@) ==> consistent(*final(self)),
    {
        let ghost old_vs = self.variants.deep_view();
        let key = name.clone();
        self.variants.push(name);
        assert(self.variants.deep_view() =~= old_vs.push(key@));
        self.variant_paths.insert(key, path);
        proof {
            let vs = self.variants.deep_view();
            if consistent(*old(self)) && !old_vs.contains(key@) {
                assert forall|k: Seq<char>| self.variant_paths@.contains_key(k) <==> vs.contains(k) by {
                    if vs.contains(k) && k != key@ {
                        let i = choose|i: int| 0 <= i < vs.len() && vs[i] == k;
                        assert(old_vs[i] == k);
                    }
                    if old_vs.contains(k) {
                        let i = choose|i: int| 0 <= i < old_vs.len() && old_vs[i] == k;
                        assert(vs[i] == k);
                    }
                    assert(vs[vs.len() - 1] == key@);
                }
                assert forall|i: int, j: int| 0 <= i < j < vs.len() implies vs[i] != vs[j] by {
                    if j == vs.len() - 1 {
                        assert(old_vs[i] == vs[i]);
                    }
                }
                if let Some(p) = &self.current_picked_variant {
                    let i = choose|i: int| 0 <= i < old_vs.len() && old_vs[i] == p@;
                    assert(vs[i] == p@);
                }
            }
        }
    }

    /// Removes variant `name` and its path (the record of `maram remove`).
    pub fn remove_variant(&mut self, name: &str)
        ensures
            final(self).variants.deep_view() == without(old(self).variants.deep_view(), name@),
            final(self).variant_paths@ == old(self).variant_paths@.remove(name@),
            final(self).branch_name == old(self).branch_name,
            final(self).base_path == old(self).base_path,
            final(self).current_picked_variant == old(self).current_picked_variant,
            final(self).base_commit == old(self).base_commit,
            final(self).parent_branch == old(self).parent_branch,
            consistent(*old(self)) && (old(self).current_picked_variant matches Some(p) ==> p@ != name@)
                ==> consistent(*final(self)),
    {
        let k = String::from_str(name);
        let ghost old_vs = self.variants.deep_view();
        let mut kept: Vec<String> = Vec::new();
        let mut i: usize = 0;
        assert(old_vs.take(0) =~= Seq::<Seq<char>>::empty());
        assert(kept.deep_view() =~= Seq::<Seq<char>>::empty());
        while i < self.variants.len()
            invariant
                k@ == name@,
                old_vs == self.variants.deep_view(),
                i <= self.variants.len(),
                kept.deep_view() == without(old_vs.take(i as int), name@),
            decreases self.variants.len() - i,
        {
            assert(old_vs.take(i as int + 1).drop_last() =~= old_vs.take(i as int));
            if self.variants[i] != k {
                let v = self.variants[i].clone();
                let ghost before = kept.deep_view();
                kept.push(v);
                assert(kept.deep_view() =~= before.push(old_vs[i as int]));
            }
            i = i + 1;
        }
        assert(old_vs.take(i as int) =~= old_vs);
        self.variants = kept;
        self.variant_paths.remove(name);
        proof {
            lemma_without(old_vs, name@);
            let vs = self.variants.deep_view();
            if consistent(*old(self)) && (old(self).current_picked_variant matches Some(p) ==> p@ != name@) {
                assert(old_vs == old(self).variants.deep_view());
                assert forall|k: Seq<char>| self.variant_paths@.contains_key(k) <==> vs.contains(k) by {
                    assert(vs.contains(k) <==> (old_vs.contains(k) && k != name@));
                    assert(old(self).variant_paths@.contains_key(k) <==> old_vs.contains(k));
                }
                if let Some(p) = &self.current_picked_variant {
                    assert(old_vs.contains(p@));
                    assert(vs.contains(p@));
                }
            }
        }
    }

    /// Records `name` as the picked variant (the record of `maram pick`).
    pub fn record_pick(&mut self, name: String)
        ensures
            final(self).current_picked_variant matches Some(p) && p@ == name@,
            final(self).variants == old(self).variants,
            final(self).variant_paths == old(self).variant_paths,
            final(self).branch_name == old(self).branch_name,
            final(self).base_path == old(self).base_path,
            final(self).base_commit == old(self).base_commit,
            final(self).parent_branch == old(self).parent_branch,
            consistent(*old(self)) && old(self).variants.deep_view().contains(name@) ==> consistent(*final(self)),
    {
        self.current_picked_variant = Some(name);
    }

    /// Forgets the picked variant (the record of `maram reset`).
    pub fn clear_pick(&mut self)
        ensures
            final(self).current_picked_variant is None,
            final(self).variants == old(self).variants,
            final(self).variant_paths == old(self).variant_paths,
            final(self).branch_name == old(self).branch_name,
            final(self).base_path == old(self).base_path,
            final(self).base_commit == old(self).base_commit,
            final(self).parent_branch == old(self).parent_branch,
            consistent(*old(self)) ==> consistent(*final(self)),
    {
        self.current_picked_variant = None;
    }

    /// Records a new base commit (after `maram sync` rebased the base branch).
    pub fn set_base_commit(&mut self, commit: String)
        ensures
            final(self).base_commit == commit,
            final(self).variants == old(self).variants,
            final(self).variant_paths == old(self).variant_paths,
            final(self).branch_name == old(self).branch_name,
            final(self).base_path == old(self).base_path,
            final(self).current_picked_variant == old(self).current_picked_variant,
            final(self).parent_branch == old(self).parent_branch,
            consistent(*old(self)) ==> consistent(*final(self)),
    {
        self.base_commit = commit;
    }
}

/// What `without` keeps: exactly the names of `s` other than `x`, each as
/// often as before, so distinct names stay distinct.
pub proof fn lemma_without(s: Seq<Seq<char>>, x: Seq<char>)
    ensures
        forall|k: Seq<char>| without(s, x).contains(k) <==> (s.contains(k) && k != x),
        (forall|i: int, j: int| 0 <= i < j < s.len() ==> s[i] != s[j])
            ==> (forall|i: int, j: int| 0 <= i < j < without(s, x).len() ==> without(s, x)[i] != without(s, x)[j]),
    decreases s.len(),
{
    if s.len() > 0 {
        let init = s.drop_last();
        lemma_without(init, x);
        let rest = without(init, x);
        let w = without(s, x);
        if s.last() == x {
            assert(w == rest);
        } else {
            assert(w == rest.push(s.last()));
        }
        assert forall|k: Seq<char>| w.contains(k) <==> (s.contains(k) && k != x) by {
            if s.contains(k) && k != x {
                let i = choose|i: int| 0 <= i < s.len() && s[i] == k;
                if i < s.len() - 1 {
                    assert(init[i] == k);
                    assert(init.contains(k));
                    assert(rest.contains(k));
                    let j = choose|j: int| 0 <= j < rest.len() && rest[j] == k;
                    if s.last() != x {
                        assert(w[j] == k);
                    }
                } else {
                    assert(w[rest.len() as int] == k);
                }
            }
            if w.contains(k) {
                let i = choose|i: int| 0 <= i < w.len() && w[i] == k;
                if s.last() != x && i == rest.len() {
                    assert(s[s.len() - 1] == k);
                } else {
                    assert(rest[i] == k);
                    assert(rest.contains(k));
                    assert(init.contains(k));
                    let j = choose|j: int| 0 <= j < init.len() && init[j] == k;
                    assert(s[j] == k);
                }
            }
        }
        if forall|i: int, j: int| 0 <= i < j < s.len() ==> s[i] != s[j] {
            assert forall|i: int, j: int| 0 <= i < j < init.len() implies init[i] != init[j] by {
                assert(init[i] == s[i] && init[j] == s[j]);
            }
            if s.last() != x {
                assert(!init.contains(s.last())) by {
                    if init.contains(s.last()) {
                        let i = choose|i: int| 0 <= i < init.len() && init[i] == s.last();
                        assert(s[i] == s[s.len() - 1]);
                    }
                }
                assert(!rest.contains(s.last()));
                let w = rest.push(s.last());
                assert forall|i: int, j: int| 0 <= i < j < w.len() implies w[i] != w[j] by {
                    if j == w.len() - 1 {
                        assert(rest[i] == w[i]);
                        assert(rest.contains(w[i]));
                    } else {
                        assert(rest[i] == w[i] && rest[j] == w[j]);
                    }
                }
            }
        }
    }
}

/// Adding a new variant and removing it again leaves the record of the
/// variants and of their paths as it was.
pub proof fn lemma_add_then_remove(variants: Seq<Seq<char>>, paths: Map<Seq<char>, PathModel>, name: Seq<char>, path: PathModel)
    requires
        !variants.contains(name),
        !paths.contains_key(name),
    ensures
        without(variants.push(name), name) == variants,
        paths.insert(name, path).remove(name) == paths,
{
    lemma_without_absent(variants, name);
    assert(variants.push(name).drop_last() =~= variants);
    assert(paths.insert(name, path).remove(name) =~= paths);
}

/// Removing a name that does not occur changes nothing.
pub proof fn lemma_without_absent(s: Seq<Seq<char>>, x: Seq<char>)
    requires
        !s.contains(x),
    ensures
        without(s, x) == s,
    decreases s.len(),
{
    if s.len() > 0 {
        let init = s.drop_last();
        assert(!init.contains(x)) by {
            if init.contains(x) {
                let i = choose|i: int| 0 <= i < init.len() && init[i] == x;
                assert(s[i] == x);
            }
        }
        lemma_without_absent(init, x);
        assert(s.last() != x) by {
            assert(s[s.len() - 1] == s.last());
        }
        assert(init.push(s.last()) =~= s);
    }
}

} // verus!
