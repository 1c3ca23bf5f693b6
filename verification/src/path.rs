//! File-system paths as the library reasons about them: an optional root and a
//! list of components, compared component by component as `std::path` does,
//! kept together with the text the path was written as.

use vstd::prelude::*;
use crate::text::{chars_of, push_char, string_from_chars};

verus! {

/// The abstract value of a path: whether it starts at the root, and its components.
pub struct PathModel {
    pub absolute: bool,
    pub comps: Seq<Seq<char>>,
}

/// A component of a path: not empty, no `/`, and not `.`.
pub open spec fn is_component(c: Seq<char>) -> bool {
    &&& c.len() > 0
    &&& forall|i: int| 0 <= i < c.len() ==> #[trigger] c[i] != '/'
    &&& c != seq!['.']
}

/// Every component of `p` is one.
pub open spec fn valid_model(p: PathModel) -> bool {
    forall|i: int| 0 <= i < p.comps.len() ==> is_component(#[trigger] p.comps[i])
}

/// The root as it stands among the components that `Path::components` yields.
pub open spec fn root_mark() -> Seq<char> {
    seq!['/']
}

/// The components of `p` as `Path::components` yields them: the root first, if any.
pub open spec fn full_components(p: PathModel) -> Seq<Seq<char>> {
    if p.absolute {
        seq![root_mark()] + p.comps
    } else {
        p.comps
    }
}

/// The path whose `Path::components` are `l` (the inverse of `full_components`).
pub open spec fn from_full_components(l: Seq<Seq<char>>) -> PathModel {
    if l.len() > 0 && l[0] == root_mark() {
        PathModel { absolute: true, comps: l.drop_first() }
    } else {
        PathModel { absolute: false, comps: l }
    }
}

/// The pending piece `cur` added to the finished components `done`, when it is a component.
pub open spec fn flush(done: Seq<Seq<char>>, cur: Seq<char>) -> Seq<Seq<char>> {
    if cur.len() > 0 && cur != seq!['.'] {
        done.push(cur)
    } else {
        done
    }
}

/// Reading `s` from the left: the components finished so far, and the piece after the last `/`.
pub open spec fn scan(s: Seq<char>) -> (Seq<Seq<char>>, Seq<char>)
    decreases s.len(),
{
    if s.len() == 0 {
        (Seq::empty(), Seq::empty())
    } else {
        let (done, cur) = scan(s.drop_last());
        let c = s.last();
        if c == '/' {
            (flush(done, cur), Seq::empty())
        } else {
            (done, cur.push(c))
        }
    }
}

/// The path that the text `s` names: absolute when it starts with `/`; its
/// components are the pieces between slashes, without empty pieces and `.`.
pub open spec fn parse_path(s: Seq<char>) -> PathModel {
    PathModel {
        absolute: s.len() > 0 && s[0] == '/',
        comps: flush(scan(s).0, scan(s).1),
    }
}

/// Components joined by `/`.
pub open spec fn join_comps(comps: Seq<Seq<char>>) -> Seq<char>
    decreases comps.len(),
{
    if comps.len() == 0 {
        Seq::empty()
    } else if comps.len() == 1 {
        comps[0]
    } else {
        join_comps(comps.drop_last()) + seq!['/'] + comps.last()
    }
}

/// The text of a path: `/` first when it is absolute, then its components joined by `/`.
pub open spec fn render(p: PathModel) -> Seq<char> {
    if p.absolute {
        seq!['/'] + join_comps(p.comps)
    } else {
        join_comps(p.comps)
    }
}

/// `PathBuf::push`: an absolute `q` replaces `p`, a relative one is appended to it.
pub open spec fn join_model(p: PathModel, q: PathModel) -> PathModel {
    if q.absolute {
        q
    } else {
        PathModel { absolute: p.absolute, comps: p.comps + q.comps }
    }
}

/// `PathBuf::push` on the text of paths: text that starts with `/` replaces
/// `t`; other text is appended, after a `/` unless `t` is empty or ends with one.
pub open spec fn push_text(t: Seq<char>, u: Seq<char>) -> Seq<char> {
    if u.len() > 0 && u[0] == '/' {
        u
    } else if t.len() == 0 || t.last() == '/' {
        t + u
    } else {
        t.push('/') + u
    }
}

/// `Path::starts_with`: the components of `base` begin those of `p`.
pub open spec fn starts_with_model(p: PathModel, base: PathModel) -> bool {
    let fp = full_components(p);
    let fb = full_components(base);
    fb.len() <= fp.len() && fp.take(fb.len() as int) == fb
}

/// `Path::parent`: `p` without its last component, none when it has no component.
pub open spec fn parent_model(p: PathModel) -> Option<PathModel> {
    if p.comps.len() > 0 {
        Some(PathModel { absolute: p.absolute, comps: p.comps.drop_last() })
    } else {
        None
    }
}

/// `Path::file_name`: the last component, unless it is `..` or there is none.
pub open spec fn file_name_model(p: PathModel) -> Option<Seq<char>> {
    if p.comps.len() > 0 && p.comps.last() != seq!['.', '.'] {
        Some(p.comps.last())
    } else {
        None
    }
}

/// `Path::strip_prefix`: what follows the components of `base` in `p`.
pub open spec fn strip_prefix_model(p: PathModel, base: PathModel) -> Option<PathModel> {
    if starts_with_model(p, base) {
        Some(
            from_full_components(
                full_components(p).skip(full_components(base).len() as int),
            ),
        )
    } else {
        None
    }
}

/// The first of the components that `Path::components` yields, the root as `/`.
pub open spec fn first_component_model(p: PathModel) -> Option<Seq<char>> {
    if full_components(p).len() > 0 {
        Some(full_components(p)[0])
    } else {
        None
    }
}

/// The abstract value of an optional path.
pub open spec fn opt_model(o: Option<FsPath>) -> Option<PathModel> {
    match o {
        Some(p) => Some(p@),
        None => None,
    }
}

/// The text of an optional path.
pub open spec fn opt_text(o: Option<FsPath>) -> Option<Seq<char>> {
    match o {
        Some(p) => Some(p.as_text()),
        None => None,
    }
}

/// A path: an optional root and components, each a component (`is_component`),
/// together with the text it was written as, which names it.
#[derive(Debug)]
pub struct FsPath {
    absolute: bool,
    components: Vec<String>,
    text: String,
}

impl View for FsPath {
    type V = PathModel;

    closed spec fn view(&self) -> PathModel {
        PathModel { absolute: self.absolute, comps: self.components.deep_view() }
    }
}

impl FsPath {
    #[verifier::type_invariant]
    closed spec fn inv(self) -> bool {
        valid_model(self@) && parse_path(self.text@) == self@
    }

    /// The text of the path as it was written (or built by `push_text`).
    pub closed spec fn as_text(&self) -> Seq<char> {
        self.text@
    }

    /// The empty relative path (`PathBuf::new`).
    pub fn new() -> (r: FsPath)
        ensures
            r@ == (PathModel { absolute: false, comps: Seq::empty() }),
            r.as_text() == Seq::<char>::empty(),
    {
        let components: Vec<String> = Vec::new();
        let text = String::new();
        proof {
            assert(components.deep_view() =~= Seq::<Seq<char>>::empty());
            assert(text@ =~= Seq::<char>::empty());
            assert(scan(text@) == (Seq::<Seq<char>>::empty(), Seq::<char>::empty()));
            assert(parse_path(text@).comps =~= Seq::<Seq<char>>::empty());
        }
        FsPath { absolute: false, components, text }
    }

    /// The path that the text `s` names (see `parse_path`).
    pub fn parse(s: &str) -> (r: FsPath)
        ensures
            r@ == parse_path(s@),
            r.as_text() == s@,
            valid_model(r@),
    {
        let cs = chars_of(s);
        let mut done: Vec<String> = Vec::new();
        let mut cur: Vec<char> = Vec::new();
        let mut i: usize = 0;
        assert(s@.take(0) =~= Seq::<char>::empty());
        assert(done.deep_view() =~= Seq::<Seq<char>>::empty());
        while i < cs.len()
            invariant
                cs@ == s@,
                i <= cs.len(),
                (done.deep_view(), cur@) == scan(s@.take(i as int)),
                forall|j: int| 0 <= j < done.deep_view().len() ==> is_component(#[trigger] done.deep_view()[j]),
                forall|j: int| 0 <= j < cur@.len() ==> #[trigger] cur@[j] != '/',
            decreases cs.len() - i,
        {
            let c = cs[i];
            assert(s@.take(i as int + 1).drop_last() =~= s@.take(i as int));
            if c == '/' {
                Self::flush_piece(&mut done, &cur);
                cur = Vec::new();
            } else {
                cur.push(c);
            }
            i = i + 1;
        }
        assert(s@.take(cs.len() as int) =~= s@);
        Self::flush_piece(&mut done, &cur);
        let absolute = cs.len() > 0 && cs[0] == '/';
        FsPath { absolute, components: done, text: String::from_str(s) }
    }

    /// Adds `cur` to `done` when it is a component.
    fn flush_piece(done: &mut Vec<String>, cur: &Vec<char>)
        requires
            forall|j: int| 0 <= j < old(done).deep_view().len() ==> is_component(#[trigger] old(done).deep_view()[j]),
            forall|j: int| 0 <= j < cur@.len() ==> #[trigger] cur@[j] != '/',
        ensures
            final(done).deep_view() == flush(old(done).deep_view(), cur@),
            forall|j: int| 0 <= j < final(done).deep_view().len() ==> is_component(#[trigger] final(done).deep_view()[j]),
    {
        let is_dot = cur.len() == 1 && cur[0] == '.';
        if is_dot {
            assert(cur@ =~= seq!['.']);
        }
        if cur.len() > 0 && !is_dot {
            assert(cur@ != seq!['.']) by {
                if cur@ == seq!['.'] {
                    assert(cur@.len() == 1 && cur@[0] == '.');
                }
            }
            let piece = string_from_chars(cur);
            let ghost before = done.deep_view();
            done.push(piece);
            assert(done.deep_view() =~= before.push(cur@));
        }
    }

    /// The normal text of the path with root flag `absolute` and components `comps` (see `render`).
    fn render_of(absolute: bool, comps: &Vec<String>) -> (r: String)
        ensures
            r@ == render(PathModel { absolute, comps: comps.deep_view() }),
    {
        let mut r = String::new();
        if absolute {
            push_char(&mut r, '/');
        }
        let ghost pre = r@;
        let mut i: usize = 0;
        assert(comps.deep_view().take(0) =~= Seq::<Seq<char>>::empty());
        while i < comps.len()
            invariant
                pre == (if absolute { seq!['/'] } else { Seq::<char>::empty() }),
                i <= comps.len(),
                r@ == pre + join_comps(comps.deep_view().take(i as int)),
            decreases comps.len() - i,
        {
            let ghost cv = comps.deep_view();
            assert(cv.take(i as int + 1).drop_last() =~= cv.take(i as int));
            if i > 0 {
                push_char(&mut r, '/');
            }
            r.append(comps[i].as_str());
            assert(r@ =~= pre + join_comps(cv.take(i as int + 1)));
            i = i + 1;
        }
        assert(comps.deep_view().take(comps.len() as int) =~= comps.deep_view());
        if !absolute {
            assert(r@ =~= join_comps(comps.deep_view()));
        }
        r
    }

    /// The text of the path, as it was written.
    pub fn to_string(&self) -> (r: String)
        ensures
            r@ == self.as_text(),
            parse_path(r@) == self@,
    {
        proof {
            use_type_invariant(self);
        }
        self.text.clone()
    }

    /// The normal text of the path: its components joined by `/` (see `render`).
    pub fn normal_string(&self) -> (r: String)
        ensures
            r@ == render(self@),
    {
        Self::render_of(self.absolute, &self.components)
    }

    /// `PathBuf::push` on text (see `push_text`).
    fn push_text_exec(t: &String, u: &String) -> (r: String)
        ensures
            r@ == push_text(t@, u@),
    {
        let us = u.as_str();
        if us.unicode_len() > 0 && us.get_char(0) == '/' {
            return u.clone();
        }
        let ts = t.as_str();
        let n = ts.unicode_len();
        let mut r = t.clone();
        if n > 0 && ts.get_char(n - 1) != '/' {
            push_char(&mut r, '/');
        }
        r.append(us);
        r
    }

    /// Whether the path starts at the root.
    pub fn is_absolute(&self) -> (r: bool)
        ensures
            r == self@.absolute,
    {
        self.absolute
    }

    /// The components that `Path::components` yields, the root as `/` (see `full_components`).
    pub fn full_components(&self) -> (r: Vec<String>)
        ensures
            r.deep_view() == full_components(self@),
    {
        let mut r: Vec<String> = Vec::new();
        if self.absolute {
            let mut root = String::new();
            push_char(&mut root, '/');
            r.push(root);
        }
        let ghost pre = r.deep_view();
        let mut i: usize = 0;
        while i < self.components.len()
            invariant
                i <= self.components.len(),
                pre == (if self.absolute { seq![root_mark()] } else { Seq::<Seq<char>>::empty() }),
                r.deep_view() == pre + self.components.deep_view().take(i as int),
            decreases self.components.len() - i,
        {
            let c = self.components[i].clone();
            let ghost before = r.deep_view();
            r.push(c);
            assert(r.deep_view() =~= before.push(self.components[i as int]@));
            assert(self.components.deep_view().take(i as int + 1) =~= self.components.deep_view().take(i as int).push(self.components[i as int]@));
            i = i + 1;
        }
        assert(self.components.deep_view().take(i as int) =~= self.components.deep_view());
        if !self.absolute {
            assert(r.deep_view() =~= full_components(self@));
        }
        r
    }

    /// The path with root flag `absolute` and components `comps`, written as its normal text.
    fn with_normal_text(absolute: bool, comps: Vec<String>) -> (r: FsPath)
        requires
            valid_model(PathModel { absolute, comps: comps.deep_view() }),
        ensures
            r@ == (PathModel { absolute, comps: comps.deep_view() }),
            r.as_text() == render(r@),
    {
        let text = Self::render_of(absolute, &comps);
        proof {
            lemma_parse_render(PathModel { absolute, comps: comps.deep_view() });
        }
        FsPath { absolute, components: comps, text }
    }

    /// The path whose `Path::components` are `l` (see `from_full_components`).
    fn from_full(l: Vec<String>) -> (r: FsPath)
        requires
            forall|j: int| 0 <= j < l.deep_view().len() ==> (is_component(#[trigger] l.deep_view()[j]) || (j == 0 && l.deep_view()[j] == root_mark())),
        ensures
            r@ == from_full_components(l.deep_view()),
            r.as_text() == render(r@),
    {
        let ghost lv = l.deep_view();
        let mut is_root = false;
        if l.len() > 0 {
            let first = l[0].as_str();
            if first.unicode_len() == 1 && first.get_char(0) == '/' {
                is_root = true;
                assert(first@ =~= root_mark());
            } else {
                assert(first@ != root_mark());
            }
        }
        if is_root {
            let mut rest = l;
            rest.remove(0);
            assert(rest.deep_view() =~= lv.drop_first());
            assert forall|j: int| 0 <= j < rest.deep_view().len() implies is_component(#[trigger] rest.deep_view()[j]) by {
                assert(rest.deep_view()[j] == lv[j + 1]);
            }
            Self::with_normal_text(true, rest)
        } else {
            assert forall|j: int| 0 <= j < lv.len() implies is_component(#[trigger] lv[j]) by {
                if j == 0 {
                    assert(lv[0] != root_mark());
                }
            }
            Self::with_normal_text(false, l)
        }
    }

    /// `PathBuf::push` of `other` onto `self` (see `join_model`).
    pub fn join_path(&self, other: &FsPath) -> (r: FsPath)
        ensures
            r@ == join_model(self@, other@),
            r.as_text() == push_text(self.as_text(), other.as_text()),
    {
        proof {
            use_type_invariant(self);
            use_type_invariant(other);
        }
        if other.absolute {
            assert(other.text@.len() > 0 && other.text@[0] == '/');
            return other.clone();
        }
        assert(!(other.text@.len() > 0 && other.text@[0] == '/'));
        let mut comps = self.components.clone();
        proof {
            assert(comps.deep_view() =~= self.components.deep_view());
        }
        let mut i: usize = 0;
        while i < other.components.len()
            invariant
                i <= other.components.len(),
                comps.deep_view() == self@.comps + other@.comps.take(i as int),
                valid_model(self@),
                valid_model(other@),
            decreases other.components.len() - i,
        {
            let c = other.components[i].clone();
            let ghost before = comps.deep_view();
            comps.push(c);
            assert(comps.deep_view() =~= before.push(other@.comps[i as int]));
            assert(other@.comps.take(i as int + 1) =~= other@.comps.take(i as int).push(other@.comps[i as int]));
            i = i + 1;
        }
        assert(other@.comps.take(i as int) =~= other@.comps);
        let text = Self::push_text_exec(&self.text, &other.text);
        proof {
            lemma_push_text(self.text@, other.text@);
        }
        FsPath { absolute: self.absolute, components: comps, text }
    }

    /// The path with one more component at its end.
    pub fn push_component(&self, c: &str) -> (r: FsPath)
        requires
            is_component(c@),
        ensures
            r@ == (PathModel { absolute: self@.absolute, comps: self@.comps.push(c@) }),
            r.as_text() == push_text(self.as_text(), c@),
    {
        proof {
            use_type_invariant(self);
        }
        let mut comps = self.components.clone();
        assert(comps.deep_view() =~= self.components.deep_view());
        let piece = String::from_str(c);
        comps.push(piece);
        assert(comps.deep_view() =~= self@.comps.push(c@));
        let cs = String::from_str(c);
        let text = Self::push_text_exec(&self.text, &cs);
        proof {
            lemma_push_text(self.text@, c@);
            lemma_parse_component(c@);
            assert(self@.comps + seq![c@] =~= self@.comps.push(c@));
        }
        FsPath { absolute: self.absolute, components: comps, text }
    }

    /// `Path::join` of the text `s` (see `parse_path` and `join_model`).
    pub fn join(&self, s: &str) -> (r: FsPath)
        ensures
            r@ == join_model(self@, parse_path(s@)),
            r.as_text() == push_text(self.as_text(), s@),
    {
        let other = FsPath::parse(s);
        self.join_path(&other)
    }

    /// `Path::starts_with` (see `starts_with_model`).
    pub fn starts_with(&self, base: &FsPath) -> (r: bool)
        ensures
            r == starts_with_model(self@, base@),
    {
        let fp = self.full_components();
        let fb = base.full_components();
        if fb.len() > fp.len() {
            return false;
        }
        let mut i: usize = 0;
        while i < fb.len()
            invariant
                fp.deep_view() == full_components(self@),
                fb.deep_view() == full_components(base@),
                fb.len() <= fp.len(),
                i <= fb.len(),
                forall|j: int| 0 <= j < i ==> fp.deep_view()[j] == fb.deep_view()[j],
            decreases fb.len() - i,
        {
            if fp[i] != fb[i] {
                assert(fp.deep_view().take(fb.len() as int)[i as int] != fb.deep_view()[i as int]);
                return false;
            }
            i = i + 1;
        }
        assert(fp.deep_view().take(fb.len() as int) =~= fb.deep_view());
        true
    }

    /// Whether both paths have the same components (`Path` equality).
    pub fn same_as(&self, other: &FsPath) -> (r: bool)
        ensures
            r == (self@ == other@),
    {
        if self.absolute != other.absolute || self.components.len() != other.components.len() {
            assert(self@.comps.len() == self.components.len());
            assert(other@.comps.len() == other.components.len());
            return false;
        }
        let mut i: usize = 0;
        while i < self.components.len()
            invariant
                self.components.len() == other.components.len(),
                i <= self.components.len(),
                forall|j: int| 0 <= j < i ==> self@.comps[j] == other@.comps[j],
            decreases self.components.len() - i,
        {
            if self.components[i] != other.components[i] {
                assert(self@.comps[i as int] != other@.comps[i as int]);
                return false;
            }
            i = i + 1;
        }
        assert(self@.comps =~= other@.comps);
        true
    }

    /// `Path::parent` (see `parent_model`).
    pub fn parent(&self) -> (r: Option<FsPath>)
        ensures
            r.is_some() == parent_model(self@).is_some(),
            r matches Some(q) ==> q@ == parent_model(self@).unwrap(),
            r matches Some(q) ==> q.as_text() == render(q@),
    {
        proof {
            use_type_invariant(self);
        }
        if self.components.len() == 0 {
            return None;
        }
        let mut comps = self.components.clone();
        comps.pop();
        assert(comps.deep_view() =~= self@.comps.drop_last());
        Some(Self::with_normal_text(self.absolute, comps))
    }

    /// `Path::file_name` (see `file_name_model`).
    pub fn file_name(&self) -> (r: Option<String>)
        ensures
            r.is_some() == file_name_model(self@).is_some(),
            r matches Some(n) ==> n@ == file_name_model(self@).unwrap(),
    {
        let n = self.components.len();
        if n == 0 {
            return None;
        }
        let last = self.components[n - 1].as_str();
        let is_dotdot = last.unicode_len() == 2 && last.get_char(0) == '.' && last.get_char(1) == '.';
        if is_dotdot {
            assert(last@ =~= seq!['.', '.']);
            None
        } else {
            assert(last@ != seq!['.', '.']) by {
                if last@ == seq!['.', '.'] {
                    assert(last@.len() == 2 && last@[0] == '.' && last@[1] == '.');
                }
            }
            Some(self.components[n - 1].clone())
        }
    }

    /// `Path::strip_prefix` (see `strip_prefix_model`).
    pub fn strip_prefix(&self, base: &FsPath) -> (r: Option<FsPath>)
        ensures
            r.is_some() == strip_prefix_model(self@, base@).is_some(),
            r matches Some(q) ==> q@ == strip_prefix_model(self@, base@).unwrap(),
            r matches Some(q) ==> q.as_text() == render(q@),
    {
        proof {
            use_type_invariant(self);
        }
        if !self.starts_with(base) {
            return None;
        }
        let fp = self.full_components();
        let k = base.full_components().len();
        let ghost fv = fp.deep_view();
        let mut rest: Vec<String> = Vec::new();
        let mut i: usize = k;
        assert(fv.skip(k as int).take(0) =~= Seq::<Seq<char>>::empty());
        while i < fp.len()
            invariant
                fv == fp.deep_view(),
                fv == full_components(self@),
                valid_model(self@),
                k <= i <= fp.len(),
                rest.deep_view() == fv.skip(k as int).take(i - k),
            decreases fp.len() - i,
        {
            let c = fp[i].clone();
            let ghost before = rest.deep_view();
            rest.push(c);
            assert(rest.deep_view() =~= before.push(fv[i as int]));
            assert(fv.skip(k as int).take(i - k + 1) =~= fv.skip(k as int).take(i - k).push(fv[i as int]));
            i = i + 1;
        }
        assert(fv.skip(k as int).take(fp.len() - k) =~= fv.skip(k as int));
        assert forall|j: int| 0 <= j < rest.deep_view().len() implies (is_component(#[trigger] rest.deep_view()[j]) || (j == 0 && rest.deep_view()[j] == root_mark())) by {
            assert(rest.deep_view()[j] == fv[k + j]);
            if self@.absolute {
                if k + j > 0 {
                    assert(fv[k + j] == self@.comps[k + j - 1]);
                } else {
                    assert(fv[0] == root_mark());
                }
            } else {
                assert(fv[k + j] == self@.comps[k + j]);
            }
        }
        Some(Self::from_full(rest))
    }

    /// The first of the components of `Path::components`, the root as `/` (see `first_component_model`).
    pub fn first_component(&self) -> (r: Option<String>)
        ensures
            r.is_some() == first_component_model(self@).is_some(),
            r matches Some(c) ==> c@ == first_component_model(self@).unwrap(),
    {
        let fp = self.full_components();
        if fp.len() == 0 {
            None
        } else {
            Some(fp[0].clone())
        }
    }
}

impl Clone for FsPath {
    fn clone(&self) -> (r: Self)
        ensures
            r@ == self@,
            r.as_text() == self.as_text(),
    {
        proof {
            use_type_invariant(self);
        }
        let components = self.components.clone();
        assert(components.deep_view() =~= self.components.deep_view());
        FsPath { absolute: self.absolute, components, text: self.text.clone() }
    }
}


/// Reading text without `/` only extends the pending piece.
proof fn lemma_scan_plain(s: Seq<char>, t: Seq<char>)
    requires
        forall|i: int| 0 <= i < t.len() ==> #[trigger] t[i] != '/',
    ensures
        scan(s + t) == (scan(s).0, scan(s).1 + t),
    decreases t.len(),
{
    if t.len() == 0 {
        assert(s + t =~= s);
        assert(scan(s).1 + t =~= scan(s).1);
    } else {
        let t0 = t.drop_last();
        assert forall|i: int| 0 <= i < t0.len() implies #[trigger] t0[i] != '/' by {
            assert(t0[i] == t[i]);
        }
        lemma_scan_plain(s, t0);
        assert((s + t).drop_last() =~= s + t0);
        assert((s + t).last() == t.last());
        assert(t[t.len() - 1] != '/');
        assert((scan(s).1 + t0).push(t.last()) =~= scan(s).1 + t);
    }
}

/// The text of several components starts with the first character of the first one.
proof fn lemma_join_comps_first(comps: Seq<Seq<char>>)
    requires
        comps.len() > 0,
        comps[0].len() > 0,
    ensures
        join_comps(comps).len() > 0,
        join_comps(comps)[0] == comps[0][0],
    decreases comps.len(),
{
    if comps.len() > 1 {
        lemma_join_comps_first(comps.drop_last());
    }
}

/// Reading `pre` followed by the joined components leaves all but the last finished.
proof fn lemma_scan_join(pre: Seq<char>, comps: Seq<Seq<char>>)
    requires
        scan(pre) == (Seq::<Seq<char>>::empty(), Seq::<char>::empty()),
        comps.len() > 0,
        forall|i: int| 0 <= i < comps.len() ==> is_component(#[trigger] comps[i]),
    ensures
        scan(pre + join_comps(comps)) == (comps.drop_last(), comps.last()),
    decreases comps.len(),
{
    if comps.len() == 1 {
        assert(is_component(comps[0]));
        lemma_scan_plain(pre, comps[0]);
        assert(Seq::<char>::empty() + comps[0] =~= comps[0]);
        assert(comps.drop_last() =~= Seq::<Seq<char>>::empty());
    } else {
        let init = comps.drop_last();
        assert forall|i: int| 0 <= i < init.len() implies is_component(#[trigger] init[i]) by {
            assert(init[i] == comps[i]);
        }
        lemma_scan_join(pre, init);
        let x = pre + join_comps(init);
        assert(is_component(init.last())) by {
            assert(init.last() == comps[comps.len() - 2]);
        }
        assert(x.push('/').drop_last() =~= x);
        assert(scan(x.push('/')) == (init.drop_last().push(init.last()), Seq::<char>::empty()));
        assert(init.drop_last().push(init.last()) =~= init);
        assert(is_component(comps.last())) by {
            assert(comps.last() == comps[comps.len() - 1]);
        }
        lemma_scan_plain(x.push('/'), comps.last());
        assert(pre + join_comps(comps) =~= x.push('/') + comps.last());
        assert(Seq::<char>::empty() + comps.last() =~= comps.last());
    }
}

/// Reading back the text of a path gives the path again.
pub proof fn lemma_parse_render(p: PathModel)
    requires
        valid_model(p),
    ensures
        parse_path(render(p)) == p,
{
    let pre: Seq<char> = if p.absolute { seq!['/'] } else { Seq::empty() };
    assert(scan(pre) == (Seq::<Seq<char>>::empty(), Seq::<char>::empty())) by {
        if p.absolute {
            assert(pre.drop_last() =~= Seq::<char>::empty());
            assert(pre.last() == '/');
            reveal_with_fuel(scan, 2);
        }
    }
    assert(render(p) == pre + join_comps(p.comps));
    if p.comps.len() == 0 {
        assert(render(p) =~= pre);
        assert(p.comps =~= Seq::<Seq<char>>::empty());
    } else {
        lemma_scan_join(pre, p.comps);
        assert(is_component(p.comps.last())) by {
            assert(p.comps.last() == p.comps[p.comps.len() - 1]);
        }
        assert(p.comps.drop_last().push(p.comps.last()) =~= p.comps);
        if !p.absolute {
            assert(is_component(p.comps[0]));
            lemma_join_comps_first(p.comps);
            assert(pre + join_comps(p.comps) =~= join_comps(p.comps));
            assert(p.comps[0][0] != '/');
        }
    }
}

/// A path starts with itself.
pub proof fn lemma_starts_with_reflexive(p: PathModel)
    ensures
        starts_with_model(p, p),
{
    assert(full_components(p).take(full_components(p).len() as int) =~= full_components(p));
}

/// Starting with is transitive.
pub proof fn lemma_starts_with_transitive(a: PathModel, b: PathModel, c: PathModel)
    requires
        starts_with_model(a, b),
        starts_with_model(b, c),
    ensures
        starts_with_model(a, c),
{
    let fa = full_components(a);
    let fb = full_components(b);
    let fc = full_components(c);
    assert(fa.take(fc.len() as int) =~= fc) by {
        assert forall|i: int| 0 <= i < fc.len() implies fa.take(fc.len() as int)[i] == fc[i] by {
            assert(fa.take(fb.len() as int)[i] == fb[i]);
            assert(fb.take(fc.len() as int)[i] == fc[i]);
        }
    }
}

/// A path joined with a relative path starts with the first path.
pub proof fn lemma_join_starts_with(p: PathModel, q: PathModel)
    requires
        !q.absolute,
    ensures
        starts_with_model(join_model(p, q), p),
{
    let j = join_model(p, q);
    assert(full_components(j) =~= full_components(p) + q.comps);
    assert(full_components(j).take(full_components(p).len() as int) =~= full_components(p));
}

/// Joining one component and taking the parent gives the path back; the
/// component is then the file name, unless it is `..`.
pub proof fn lemma_join_component_parent(p: PathModel, c: Seq<char>)
    ensures
        parent_model(join_model(p, PathModel { absolute: false, comps: seq![c] })) == Some(p),
        c != seq!['.', '.'] ==> file_name_model(join_model(p, PathModel { absolute: false, comps: seq![c] })) == Some(c),
{
    let j = join_model(p, PathModel { absolute: false, comps: seq![c] });
    assert(j.comps.drop_last() =~= p.comps);
    assert(j.comps.last() == c);
}

/// A fixed name of two or more characters without `/` is a component.
pub proof fn lemma_name_is_component(c: Seq<char>)
    requires
        c.len() >= 2,
        forall|i: int| 0 <= i < c.len() ==> #[trigger] c[i] != '/',
    ensures
        is_component(c),
{
    if c == seq!['.'] {
        assert(c.len() == 1);
    }
}

/// A component is never the root.
proof fn lemma_component_not_root(c: Seq<char>)
    requires
        is_component(c),
    ensures
        c != root_mark(),
{
    if c == root_mark() {
        assert(c[0] == '/');
    }
}

/// Joining to `base` what `strip_prefix` leaves of `p` gives `p` back.
pub proof fn lemma_strip_prefix_join(p: PathModel, base: PathModel)
    requires
        valid_model(p),
        valid_model(base),
        starts_with_model(p, base),
    ensures
        strip_prefix_model(p, base) matches Some(rest) && join_model(base, rest) == p,
{
    let fp = full_components(p);
    let fb = full_components(base);
    let tail = fp.skip(fb.len() as int);
    let rest = from_full_components(tail);
    assert(fp =~= fb + tail) by {
        assert(fp.take(fb.len() as int) == fb);
    }
    if base.absolute {
        assert(p.absolute) by {
            assert(fp[0] == fb[0]);
            if !p.absolute {
                assert(fb[0] == root_mark());
                assert(p.comps.len() > 0);
                assert(fp[0] == p.comps[0]);
                lemma_component_not_root(p.comps[0]);
            }
        }
        assert(fp =~= seq![root_mark()] + p.comps);
        assert(tail =~= p.comps.skip(base.comps.len() as int));
        if tail.len() > 0 {
            assert(tail[0] != root_mark()) by {
                assert(tail[0] == p.comps[base.comps.len() as int]);
                lemma_component_not_root(p.comps[base.comps.len() as int]);
            }
        }
        assert(!rest.absolute);
        assert(p.comps =~= base.comps + rest.comps) by {
            assert(fp.take(fb.len() as int) == fb);
            assert forall|i: int| 0 <= i < base.comps.len() implies p.comps[i] == base.comps[i] by {
                assert(fp[i + 1] == fb[i + 1]);
            }
        }
    } else if fb.len() == 0 {
        assert(tail =~= fp);
        assert(base.comps =~= Seq::<Seq<char>>::empty());
        if p.absolute {
            assert(rest.comps =~= p.comps);
        } else {
            if fp.len() > 0 {
                assert(fp[0] != root_mark()) by {
                    assert(fp[0] == p.comps[0]);
                    lemma_component_not_root(p.comps[0]);
                }
            }
            assert(base.comps + rest.comps =~= p.comps);
        }
    } else {
        assert(!p.absolute) by {
            if p.absolute {
                assert(fp[0] == root_mark());
                assert(fb[0] == base.comps[0]);
                lemma_component_not_root(base.comps[0]);
            }
        }
        assert(tail =~= p.comps.skip(base.comps.len() as int));
        if tail.len() > 0 {
            assert(tail[0] != root_mark()) by {
                assert(tail[0] == p.comps[base.comps.len() as int]);
                lemma_component_not_root(p.comps[base.comps.len() as int]);
            }
        }
        assert(p.comps =~= base.comps + rest.comps);
    }
}

/// Reading text yields only components, and the pending piece holds no `/`.
proof fn lemma_scan_valid(s: Seq<char>)
    ensures
        forall|i: int| 0 <= i < scan(s).0.len() ==> is_component(#[trigger] scan(s).0[i]),
        forall|i: int| 0 <= i < scan(s).1.len() ==> #[trigger] scan(s).1[i] != '/',
    decreases s.len(),
{
    if s.len() > 0 {
        lemma_scan_valid(s.drop_last());
        let (done, cur) = scan(s.drop_last());
        if s.last() == '/' {
            let f = flush(done, cur);
            assert forall|i: int| 0 <= i < f.len() implies is_component(#[trigger] f[i]) by {
                if i < done.len() {
                    assert(f[i] == done[i]);
                } else {
                    assert(f[i] == cur);
                }
            }
        } else {
            let c2 = cur.push(s.last());
            assert forall|i: int| 0 <= i < c2.len() implies #[trigger] c2[i] != '/' by {
                if i < cur.len() {
                    assert(c2[i] == cur[i]);
                }
            }
        }
    }
}

/// Reading text after text that leaves no pending piece adds its components
/// to those already finished.
proof fn lemma_scan_concat(a: Seq<char>, u: Seq<char>)
    requires
        scan(a).1 == Seq::<char>::empty(),
    ensures
        scan(a + u) == (scan(a).0 + scan(u).0, scan(u).1),
    decreases u.len(),
{
    if u.len() == 0 {
        assert(a + u =~= a);
        assert(scan(a).0 + Seq::<Seq<char>>::empty() =~= scan(a).0);
    } else {
        let u0 = u.drop_last();
        lemma_scan_concat(a, u0);
        assert((a + u).drop_last() =~= a + u0);
        assert((a + u).last() == u.last());
        let (d, c) = scan(u0);
        if u.last() == '/' {
            if c.len() > 0 && c != seq!['.'] {
                assert((scan(a).0 + d).push(c) =~= scan(a).0 + d.push(c));
            }
        }
    }
}

/// A component read as text is the relative path of that one component.
pub proof fn lemma_parse_component(c: Seq<char>)
    requires
        is_component(c),
    ensures
        parse_path(c) == (PathModel { absolute: false, comps: seq![c] }),
{
    lemma_scan_plain(Seq::empty(), c);
    assert(Seq::<char>::empty() + c =~= c);
    assert(Seq::<char>::empty() + c =~= c);
    assert(Seq::<Seq<char>>::empty().push(c) =~= seq![c]);
    assert(c[0] != '/');
}

/// Pushing text onto text names the path that `PathBuf::push` gives on the
/// paths they name.
pub proof fn lemma_push_text(t: Seq<char>, u: Seq<char>)
    ensures
        parse_path(push_text(t, u)) == join_model(parse_path(t), parse_path(u)),
{
    if u.len() > 0 && u[0] == '/' {
    } else {
        let a = if t.len() == 0 || t.last() == '/' { t } else { t.push('/') };
        assert(push_text(t, u) == a + u);
        if t.len() == 0 {
            assert(scan(a) == (Seq::<Seq<char>>::empty(), Seq::<char>::empty()));
        } else if t.last() == '/' {
            assert(scan(t).1 == Seq::<char>::empty());
            assert(flush(scan(t).0, scan(t).1) == scan(t).0);
        } else {
            assert(a.drop_last() =~= t);
            assert(scan(a).0 == flush(scan(t).0, scan(t).1));
        }
        assert(scan(a).0 == parse_path(t).comps);
        lemma_scan_concat(a, u);
        let (d, c) = scan(u);
        if c.len() > 0 && c != seq!['.'] {
            assert((scan(a).0 + d).push(c) =~= scan(a).0 + d.push(c));
        }
        assert(parse_path(a + u).comps =~= parse_path(t).comps + parse_path(u).comps);
        if t.len() > 0 {
            assert((a + u)[0] == t[0]);
        } else {
            assert(a + u =~= u);
        }
    }
}

/// Every text names a path made of components.
pub proof fn lemma_parse_valid(s: Seq<char>)
    ensures
        valid_model(parse_path(s)),
{
    lemma_scan_valid(s);
    let (done, cur) = scan(s);
    let f = flush(done, cur);
    assert forall|i: int| 0 <= i < f.len() implies is_component(#[trigger] f[i]) by {
        if i < done.len() {
            assert(f[i] == done[i]);
        } else {
            assert(f[i] == cur);
        }
    }
}

/// Writing out the path that a text names and reading it back gives the same
/// path: normalizing twice is normalizing once.
pub proof fn lemma_normalize_idempotent(s: Seq<char>)
    ensures
        parse_path(render(parse_path(s))) == parse_path(s),
{
    lemma_parse_valid(s);
    lemma_parse_render(parse_path(s));
}

} // verus!
