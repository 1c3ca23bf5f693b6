//! Branch names of a worktree set.

use vstd::prelude::*;
use crate::text::{chars_of, push_char};

verus! {

/// Characters that git refuses in a branch name and that are dropped from user input.
pub open spec fn is_dropped_char(c: char) -> bool {
    c == '~' || c == '^' || c == ':' || c == '\\' || c == '?' || c == '*' || c == '['
        || c == ']' || c == '@' || c == '{' || c == '}'
}

/// A kept character as it appears in a sanitized name: spaces and slashes become dashes.
pub open spec fn sanitized_char(c: char) -> char {
    if c == ' ' || c == '/' {
        '-'
    } else {
        c
    }
}

/// `name` with spaces and slashes replaced by `-` and the characters of
/// `is_dropped_char` removed, the rest in order.
pub open spec fn sanitize(name: Seq<char>) -> Seq<char>
    decreases name.len(),
{
    if name.len() == 0 {
        Seq::empty()
    } else {
        let rest = sanitize(name.drop_last());
        let c = name.last();
        if is_dropped_char(c) {
            rest
        } else {
            rest.push(sanitized_char(c))
        }
    }
}

/// A name that `sanitize` leaves as it is: no space, slash or dropped character.
pub open spec fn is_sanitized(name: Seq<char>) -> bool {
    forall|i: int|
        0 <= i < name.len() ==> {
            let c = #[trigger] name[i];
            c != ' ' && c != '/' && !is_dropped_char(c)
        }
}

/// The branch of variant `variant` in the set of base branch `base`: `<variant>/<base>`.
pub open spec fn variant_branch(variant: Seq<char>, base: Seq<char>) -> Seq<char> {
    variant + seq!['/'] + base
}

/// Makes user input usable as a branch name (see `sanitize`).
pub fn sanitize_branch_name(name: &str) -> (r: String)
    ensures
        r@ == sanitize(name@),
{
    let cs = chars_of(name);
    let mut r = String::new();
    let mut i: usize = 0;
    while i < cs.len()
        invariant
            cs@ == name@,
            i <= cs.len(),
            r@ == sanitize(name@.take(i as int)),
        decreases cs.len() - i,
    {
        let c = cs[i];
        assert(name@.take(i as int + 1).drop_last() =~= name@.take(i as int));
        if !(c == '~' || c == '^' || c == ':' || c == '\\' || c == '?' || c == '*' || c == '['
            || c == ']' || c == '@' || c == '{' || c == '}') {
            if c == ' ' || c == '/' {
                push_char(&mut r, '-');
            } else {
                push_char(&mut r, c);
            }
        }
        i = i + 1;
    }
    assert(name@.take(cs.len() as int) =~= name@);
    r
}

/// Joins a variant and a base branch name as `<variant>/<base>`, both taken as given.
pub fn join_variant_branch(variant: &str, base_branch: &str) -> (r: String)
    ensures
        r@ == variant_branch(variant@, base_branch@),
{
    let mut r = String::new();
    r.append(variant);
    push_char(&mut r, '/');
    r.append(base_branch);
    r
}

/// The branch of a variant: both names sanitized, joined as `<variant>/<base>`.
pub fn format_variant_branch(variant: &str, base_branch: &str) -> (r: String)
    ensures
        r@ == variant_branch(sanitize(variant@), sanitize(base_branch@)),
{
    let v = sanitize_branch_name(variant);
    let b = sanitize_branch_name(base_branch);
    join_variant_branch(v.as_str(), b.as_str())
}

/// The name of a Zellij session of a worktree set: `<repo>-<branch>`.
pub open spec fn session_name(repo: Seq<char>, branch: Seq<char>) -> Seq<char> {
    repo + seq!['-'] + branch
}

/// Builds `<repo>-<branch>`.
pub fn make_session_name(repo_name: &str, branch_name: &str) -> (r: String)
    ensures
        r@ == session_name(repo_name@, branch_name@),
{
    let mut r = String::new();
    r.append(repo_name);
    push_char(&mut r, '-');
    r.append(branch_name);
    r
}

/// The output of `sanitize` holds no space, slash or dropped character.
pub proof fn lemma_sanitize_is_sanitized(name: Seq<char>)
    ensures
        is_sanitized(sanitize(name)),
    decreases name.len(),
{
    if name.len() > 0 {
        lemma_sanitize_is_sanitized(name.drop_last());
    }
}

/// A sanitized name is left unchanged by `sanitize`.
pub proof fn lemma_sanitize_fixes_sanitized(name: Seq<char>)
    requires
        is_sanitized(name),
    ensures
        sanitize(name) == name,
    decreases name.len(),
{
    if name.len() > 0 {
        let init = name.drop_last();
        assert(is_sanitized(init)) by {
            assert forall|i: int| 0 <= i < init.len() implies {
                let c = #[trigger] init[i];
                c != ' ' && c != '/' && !is_dropped_char(c)
            } by {
                assert(init[i] == name[i]);
            }
        }
        lemma_sanitize_fixes_sanitized(init);
        let c = name[name.len() - 1];
        assert(c != ' ' && c != '/' && !is_dropped_char(c));
        assert(init.push(c) =~= name);
    }
}

/// Sanitizing twice is sanitizing once.
pub proof fn lemma_sanitize_idempotent(name: Seq<char>)
    ensures
        sanitize(sanitize(name)) == sanitize(name),
{
    lemma_sanitize_is_sanitized(name);
    lemma_sanitize_fixes_sanitized(sanitize(name));
}

/// Sanitizing never makes a name longer.
pub proof fn lemma_sanitize_len(name: Seq<char>)
    ensures
        sanitize(name).len() <= name.len(),
    decreases name.len(),
{
    if name.len() > 0 {
        lemma_sanitize_len(name.drop_last());
    }
}

/// Sanitizing a branch name replaces each space and slash by `-` and then
/// removes exactly the characters `~ ^ : \\ ? * [ ] @ { }`, keeping every
/// other character in order.
pub proof fn law_sanitize_replaces_then_filters(name: Seq<char>)
    ensures
        sanitize(name) == name.map_values(|c: char| if c == ' ' || c == '/' { '-' } else { c }).filter(
            |c: char|
                !(c == '~' || c == '^' || c == ':' || c == '\\' || c == '?' || c == '*' || c == '['
                    || c == ']' || c == '@' || c == '{' || c == '}'),
        ),
    decreases name.len(),
{
    let f = |c: char| if c == ' ' || c == '/' { '-' } else { c };
    let keep = |c: char|
        !(c == '~' || c == '^' || c == ':' || c == '\\' || c == '?' || c == '*' || c == '['
            || c == ']' || c == '@' || c == '{' || c == '}');
    reveal_with_fuel(Seq::filter, 2);
    if name.len() == 0 {
        assert(name.map_values(f) =~= Seq::<char>::empty());
        assert(name.map_values(f).filter(keep) =~= Seq::<char>::empty());
    } else {
        let init = name.drop_last();
        law_sanitize_replaces_then_filters(init);
        let m = name.map_values(f);
        assert(m.drop_last() =~= init.map_values(f));
        assert(m.last() == f(name.last()));
    }
}

/// A name made only of ASCII letters of either case, digits, `-`, `.` and `_`
/// is its own sanitized form.
pub proof fn law_sanitize_keeps_plain_names(name: Seq<char>)
    requires
        forall|i: int| 0 <= i < name.len() ==> {
            let c = #[trigger] name[i];
            ('a' <= c && c <= 'z') || ('A' <= c && c <= 'Z') || ('0' <= c && c <= '9') || c == '-' || c == '.'
                || c == '_'
        },
    ensures
        sanitize(name) == name,
    decreases name.len(),
{
    if name.len() > 0 {
        let init = name.drop_last();
        assert forall|i: int| 0 <= i < init.len() implies {
            let c = #[trigger] init[i];
            ('a' <= c && c <= 'z') || ('A' <= c && c <= 'Z') || ('0' <= c && c <= '9') || c == '-' || c == '.'
                || c == '_'
        } by {
            assert(init[i] == name[i]);
        }
        law_sanitize_keeps_plain_names(init);
        let c = name[name.len() - 1];
        assert(('a' <= c && c <= 'z') || ('A' <= c && c <= 'Z') || ('0' <= c && c <= '9') || c == '-' || c == '.'
            || c == '_');
        assert(init.push(c) =~= name);
    }
}

/// A variant branch is the sanitized variant, `/`, and the sanitized base, so
/// it never holds a space.
pub proof fn law_variant_branch_layout(variant: Seq<char>, base: Seq<char>)
    ensures
        variant_branch(sanitize(variant), sanitize(base)) == sanitize(variant) + seq!['/'] + sanitize(base),
        !variant_branch(sanitize(variant), sanitize(base)).contains(' '),
{
    lemma_sanitize_is_sanitized(variant);
    lemma_sanitize_is_sanitized(base);
    let r = sanitize(variant) + seq!['/'] + sanitize(base);
    if r.contains(' ') {
        let k = choose|k: int| 0 <= k < r.len() && r[k] == ' ';
        if k < sanitize(variant).len() {
            assert(r[k] == sanitize(variant)[k]);
        } else if k > sanitize(variant).len() {
            assert(r[k] == sanitize(base)[k - sanitize(variant).len() - 1]);
        }
    }
}

/// Two variant branches built from sanitized names are equal only when both
/// variant names and both base names are equal: each variant of a set has a
/// branch of its own, and so has each set.
pub proof fn lemma_variant_branch_injective(v1: Seq<char>, b1: Seq<char>, v2: Seq<char>, b2: Seq<char>)
    requires
        is_sanitized(v1),
        is_sanitized(v2),
        variant_branch(v1, b1) == variant_branch(v2, b2),
    ensures
        v1 == v2,
        b1 == b2,
{
    let s1 = variant_branch(v1, b1);
    let s2 = variant_branch(v2, b2);
    assert(s1[v1.len() as int] == '/');
    assert(s2[v2.len() as int] == '/');
    if v1.len() < v2.len() {
        assert(s2[v1.len() as int] == v2[v1.len() as int]);
        assert(false);
    } else if v2.len() < v1.len() {
        assert(s1[v2.len() as int] == v1[v2.len() as int]);
        assert(false);
    }
    assert(v1 =~= s1.take(v1.len() as int));
    assert(v2 =~= s2.take(v2.len() as int));
    assert(b1 =~= s1.skip(v1.len() as int + 1));
    assert(b2 =~= s2.skip(v2.len() as int + 1));
}

} // verus!
