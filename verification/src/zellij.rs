//! The Zellij session of a worktree set: its name, its layout, and whether it runs.

use vstd::prelude::*;
use crate::metadata::{WorktreeMetadata, base_variant_name, base_variant_string};
use crate::naming::{make_session_name, session_name};
use crate::path::{FsPath, PathModel};
use crate::path_map::pairs_of;
use crate::text::{lines, lines_of, trim, trim_str};

verus! {

/// A Zellij session, known by its name.
#[derive(Debug)]
pub struct ZellijSession {
    session_name: String,
}

impl View for ZellijSession {
    type V = Seq<char>;

    closed spec fn view(&self) -> Seq<char> {
        self.session_name@
    }
}

/// The tabs as their names and the text of their directories.
pub open spec fn tab_texts(v: Seq<(String, FsPath)>) -> Seq<(Seq<char>, Seq<char>)> {
    v.map_values(|e: (String, FsPath)| (e.0@, e.1.as_text()))
}

/// The block of one tab: a pane running `zsh` in the tab's directory, written as `cwd`.
pub open spec fn tab_block(name: Seq<char>, cwd: Seq<char>) -> Seq<char> {
    "  tab \""@ + name + "\" {\n"@ + "    pane cwd=\""@ + cwd + "\" command=\"zsh\"\n"@
        + "  }\n"@
}

/// The blocks of the tabs, in order.
pub open spec fn tab_blocks(tabs: Seq<(Seq<char>, Seq<char>)>) -> Seq<char>
    decreases tabs.len(),
{
    if tabs.len() == 0 {
        Seq::empty()
    } else {
        tab_blocks(tabs.drop_last()) + tab_block(tabs.last().0, tabs.last().1)
    }
}

/// Each line of `lines`, indented by two spaces and ended by a newline.
pub open spec fn indented(lines: Seq<Seq<char>>) -> Seq<char>
    decreases lines.len(),
{
    if lines.len() == 0 {
        Seq::empty()
    } else {
        indented(lines.drop_last()) + "  "@ + lines.last() + "\n"@
    }
}

/// The layout of a session: the optional template, indented, then one block per tab.
pub open spec fn layout_text(tabs: Seq<(Seq<char>, Seq<char>)>, prefix: Option<Seq<char>>) -> Seq<char> {
    "layout {\n"@ + (match prefix {
        Some(p) => indented(lines_of(p)),
        None => Seq::empty(),
    }) + tab_blocks(tabs) + "}\n"@
}

/// The tabs of the variants that have a recorded path, named after the variant, in order.
pub open spec fn variant_tabs(variants: Seq<Seq<char>>, paths: Map<Seq<char>, PathModel>) -> Seq<(Seq<char>, PathModel)>
    decreases variants.len(),
{
    if variants.len() == 0 {
        Seq::empty()
    } else {
        let rest = variant_tabs(variants.drop_last(), paths);
        let v = variants.last();
        if paths.contains_key(v) {
            rest.push((v, paths[v]))
        } else {
            rest
        }
    }
}

/// Whether a line of the output of `zellij list-sessions`, without surrounding
/// white space, is `name`.
pub open spec fn listed_in(output: Seq<char>, name: Seq<char>) -> bool {
    exists|i: int| 0 <= i < lines_of(output).len() && trim(#[trigger] lines_of(output)[i]) == name
}

impl ZellijSession {
    /// A session of the given name.
    pub fn new(session_name: String) -> (r: ZellijSession)
        ensures
            r@ == session_name@,
    {
        ZellijSession { session_name }
    }

    /// The session of a worktree set: `<repo>-<branch>`.
    pub fn from_repo_and_branch(repo_name: &str, branch_name: &str) -> (r: ZellijSession)
        ensures
            r@ == session_name(repo_name@, branch_name@),
    {
        ZellijSession { session_name: make_session_name(repo_name, branch_name) }
    }

    /// The session's name.
    pub fn name(&self) -> (r: String)
        ensures
            r@ == self@,
    {
        self.session_name.clone()
    }

    /// Whether the output of `zellij list-sessions` lists this session (see `listed_in`).
    pub fn session_listed(&self, list_output: &str) -> (r: bool)
        ensures
            r == listed_in(list_output@, self@),
    {
        let ls = lines(list_output);
        let mut i: usize = 0;
        while i < ls.len()
            invariant
                ls.deep_view() == lines_of(list_output@),
                i <= ls.len(),
                forall|j: int| 0 <= j < i ==> trim(#[trigger] lines_of(list_output@)[j]) != self@,
            decreases ls.len() - i,
        {
            let t = trim_str(ls[i].as_str());
            assert(ls.deep_view()[i as int] == ls[i as int]@);
            if t == self.session_name {
                return true;
            }
            i = i + 1;
        }
        false
    }

    /// The tabs of a worktree set: `base` in the base worktree, then each
    /// variant with a recorded path, in the order of the variants.
    pub fn tabs_from_metadata(metadata: &WorktreeMetadata) -> (r: Vec<(String, FsPath)>)
        ensures
            pairs_of(r@) == seq![(base_variant_name(), metadata.base_path@)] + variant_tabs(
                metadata.variants.deep_view(),
                metadata.variant_paths@,
            ),
    {
        let mut r: Vec<(String, FsPath)> = Vec::new();
        r.push((base_variant_string(), metadata.base_path.clone()));
        let ghost vs = metadata.variants.deep_view();
        let ghost first = seq![(base_variant_name(), metadata.base_path@)];
        assert(pairs_of(r@) =~= first + variant_tabs(vs.take(0), metadata.variant_paths@));
        let mut i: usize = 0;
        while i < metadata.variants.len()
            invariant
                vs == metadata.variants.deep_view(),
                first == seq![(base_variant_name(), metadata.base_path@)],
                i <= metadata.variants.len(),
                pairs_of(r@) == first + variant_tabs(vs.take(i as int), metadata.variant_paths@),
            decreases metadata.variants.len() - i,
        {
            let v = &metadata.variants[i];
            assert(vs.take(i as int + 1).drop_last() =~= vs.take(i as int));
            assert(vs[i as int] == v@);
            match metadata.variant_paths.get(v.as_str()) {
                Some(p) => {
                    let ghost before = r@;
                    let ghost pv = p@;
                    r.push((v.clone(), p));
                    assert(pairs_of(r@) =~= pairs_of(before).push((v@, pv)));
                },
                None => {},
            }
            i = i + 1;
        }
        assert(vs.take(i as int) =~= vs);
        r
    }

    /// The layout of the session (see `layout_text`).
    pub fn create_layout(&self, tabs: &Vec<(String, FsPath)>, prefix: Option<&str>) -> (r: String)
        ensures
            r@ == layout_text(tab_texts(tabs@), match prefix {
                Some(p) => Some(p@),
                None => None,
            }),
    {
        let mut layout = String::new();
        layout.append("layout {\n");
        let ghost head = layout@;
        let ghost pre: Seq<char> = match prefix {
            Some(p) => indented(lines_of(p@)),
            None => Seq::empty(),
        };
        if let Some(p) = prefix {
            let ls = lines(p);
            let mut k: usize = 0;
            assert(ls.deep_view().take(0) =~= Seq::<Seq<char>>::empty());
            assert(layout@ =~= head + indented(ls.deep_view().take(0)));
            while k < ls.len()
                invariant
                    k <= ls.len(),
                    layout@ == head + indented(ls.deep_view().take(k as int)),
                decreases ls.len() - k,
            {
                let ghost lv = ls.deep_view();
                assert(lv.take(k as int + 1).drop_last() =~= lv.take(k as int));
                assert(lv[k as int] == ls[k as int]@);
                layout.append("  ");
                layout.append(ls[k].as_str());
                layout.append("\n");
                assert(layout@ =~= head + indented(lv.take(k as int + 1)));
                k = k + 1;
            }
            assert(ls.deep_view().take(k as int) =~= ls.deep_view());
        } else {
            assert(layout@ =~= head + pre);
        }
        let ghost mid = layout@;
        assert(mid == head + pre);
        let ghost tv = tab_texts(tabs@);
        assert(tv.take(0) =~= Seq::<(Seq<char>, Seq<char>)>::empty());
        assert(layout@ =~= mid + tab_blocks(tv.take(0)));
        let mut i: usize = 0;
        while i < tabs.len()
            invariant
                tv == tab_texts(tabs@),
                i <= tabs.len(),
                layout@ == mid + tab_blocks(tv.take(i as int)),
            decreases tabs.len() - i,
        {
            let t = &tabs[i];
            assert(tv[i as int] == (t.0@, t.1.as_text()));
            assert(tv.take(i as int + 1).drop_last() =~= tv.take(i as int));
            let path_text = t.1.to_string();
            layout.append("  tab \"");
            layout.append(t.0.as_str());
            layout.append("\" {\n");
            layout.append("    pane cwd=\"");
            layout.append(path_text.as_str());
            layout.append("\" command=\"zsh\"\n");
            layout.append("  }\n");
            assert(layout@ =~= mid + tab_blocks(tv.take(i as int + 1)));
            i = i + 1;
        }
        assert(tv.take(i as int) =~= tv);
        layout.append("}\n");
        assert(layout@ =~= layout_text(tv, match prefix {
            Some(p) => Some(p@),
            None => None,
        }));
        layout
    }
}

/// When every variant has a recorded path, the session has one tab per
/// variant besides the base, named after the variants, in their order.
pub proof fn lemma_one_tab_per_variant(variants: Seq<Seq<char>>, paths: Map<Seq<char>, PathModel>)
    requires
        forall|i: int| 0 <= i < variants.len() ==> paths.contains_key(#[trigger] variants[i]),
    ensures
        variant_tabs(variants, paths).len() == variants.len(),
        forall|i: int| 0 <= i < variants.len() ==> #[trigger] variant_tabs(variants, paths)[i] == (variants[i], paths[variants[i]]),
    decreases variants.len(),
{
    if variants.len() > 0 {
        let init = variants.drop_last();
        assert forall|i: int| 0 <= i < init.len() implies paths.contains_key(#[trigger] init[i]) by {
            assert(init[i] == variants[i]);
        }
        lemma_one_tab_per_variant(init, paths);
        assert(paths.contains_key(variants[variants.len() - 1]));
        assert forall|i: int| 0 <= i < variants.len() implies #[trigger] variant_tabs(variants, paths)[i] == (variants[i], paths[variants[i]]) by {
            if i < variants.len() - 1 {
                assert(init[i] == variants[i]);
                assert(variant_tabs(init, paths)[i] == (init[i], paths[init[i]]));
            }
        }
    }
}

} // verus!
