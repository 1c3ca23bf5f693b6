//! Character-level string helpers used throughout the library.

use vstd::prelude::*;

verus! {

/// Appends one character to a string (`String::push`).
#[verifier::external_body]
pub(crate) fn push_char(s: &mut String, c: char)
    ensures
        final(s)@ == old(s)@.push(c),
{
    s.push(c);
}

/// The characters of `s`, in order.
pub fn chars_of(s: &str) -> (r: Vec<char>)
    ensures
        r@ == s@,
{
    let n = s.unicode_len();
    let mut r: Vec<char> = Vec::new();
    let mut i: usize = 0;
    while i < n
        invariant
            n == s@.len(),
            i <= n,
            r@ == s@.take(i as int),
        decreases n - i,
    {
        let c = s.get_char(i);
        r.push(c);
        assert(s@.take(i as int + 1) =~= s@.take(i as int).push(c));
        i = i + 1;
    }
    assert(s@.take(n as int) =~= s@);
    r
}

/// The string made of the characters of `v`, in order.
pub fn string_from_chars(v: &Vec<char>) -> (r: String)
    ensures
        r@ == v@,
{
    let mut r = String::new();
    let mut i: usize = 0;
    while i < v.len()
        invariant
            i <= v.len(),
            r@ == v@.take(i as int),
        decreases v.len() - i,
    {
        push_char(&mut r, v[i]);
        assert(v@.take(i as int + 1) =~= v@.take(i as int).push(v@[i as int]));
        i = i + 1;
    }
    assert(v@.take(v.len() as int) =~= v@);
    r
}


/// `s` cut at every `sep`, empty pieces kept: one piece more than there are
/// separators (as `str::split` with a character pattern).
pub open spec fn split_on(s: Seq<char>, sep: char) -> Seq<Seq<char>>
    decreases s.len(),
{
    if s.len() == 0 {
        seq![Seq::empty()]
    } else {
        let prev = split_on(s.drop_last(), sep);
        let c = s.last();
        if c == sep {
            prev.push(Seq::empty())
        } else {
            prev.update(prev.len() - 1, prev.last().push(c))
        }
    }
}

/// There is always at least one piece.
pub proof fn lemma_split_on_nonempty(s: Seq<char>, sep: char)
    ensures
        split_on(s, sep).len() >= 1,
    decreases s.len(),
{
    if s.len() > 0 {
        lemma_split_on_nonempty(s.drop_last(), sep);
    }
}

/// The pieces joined back together with `sep` between each two.
pub open spec fn join_with(pieces: Seq<Seq<char>>, sep: char) -> Seq<char>
    decreases pieces.len(),
{
    if pieces.len() == 0 {
        Seq::empty()
    } else if pieces.len() == 1 {
        pieces[0]
    } else {
        join_with(pieces.drop_last(), sep) + seq![sep] + pieces.last()
    }
}

/// Cutting `s` at every `sep` gives pieces without `sep` that, joined back
/// with `sep`, are `s` again.
pub proof fn law_split_on(s: Seq<char>, sep: char)
    ensures
        join_with(split_on(s, sep), sep) == s,
        forall|i: int| 0 <= i < split_on(s, sep).len() ==> !(#[trigger] split_on(s, sep)[i]).contains(sep),
    decreases s.len(),
{
    lemma_split_on_nonempty(s, sep);
    if s.len() == 0 {
        assert(split_on(s, sep)[0] =~= Seq::<char>::empty());
    } else {
        let init = s.drop_last();
        law_split_on(init, sep);
        lemma_split_on_nonempty(init, sep);
        let prev = split_on(init, sep);
        let c = s.last();
        let n = prev.len();
        if c == sep {
            let cur = prev.push(Seq::empty());
            assert(cur.drop_last() =~= prev);
            assert(join_with(cur, sep) =~= s);
            assert forall|i: int| 0 <= i < cur.len() implies !(#[trigger] cur[i]).contains(sep) by {
                if i < n {
                    assert(cur[i] == prev[i]);
                } else {
                    assert(cur[i] =~= Seq::<char>::empty());
                }
            }
        } else {
            let cur = prev.update(n - 1, prev.last().push(c));
            if n == 1 {
                assert(join_with(cur, sep) == cur[0]);
                assert(join_with(prev, sep) == prev[0]);
                assert(cur[0] =~= s);
            } else {
                assert(cur.drop_last() =~= prev.drop_last());
                assert(cur.last() == prev.last().push(c));
                assert(join_with(prev, sep) == join_with(prev.drop_last(), sep) + seq![sep] + prev.last());
                assert(join_with(cur, sep) == join_with(prev.drop_last(), sep) + seq![sep] + prev.last().push(c));
                assert(s =~= init.push(c));
                assert(join_with(cur, sep) =~= s);
            }
            assert forall|i: int| 0 <= i < cur.len() implies !(#[trigger] cur[i]).contains(sep) by {
                if i < n - 1 {
                    assert(cur[i] == prev[i]);
                } else {
                    let x = prev.last().push(c);
                    assert(!prev[n - 1].contains(sep));
                    if x.contains(sep) {
                        let k = choose|k: int| 0 <= k < x.len() && x[k] == sep;
                        assert(k < prev.last().len());
                        assert(prev[n - 1][k] == sep);
                    }
                }
            }
        }
    }
}

/// Cuts `s` at every `sep` (see `split_on`).
pub fn split_on_char(s: &str, sep: char) -> (r: Vec<String>)
    ensures
        r.deep_view() == split_on(s@, sep),
{
    let cs = chars_of(s);
    let mut done: Vec<String> = Vec::new();
    let mut cur = String::new();
    let mut i: usize = 0;
    while i < cs.len()
        invariant
            cs@ == s@,
            i <= cs.len(),
            done.deep_view().push(cur@) == split_on(s@.take(i as int), sep),
        decreases cs.len() - i,
    {
        let c = cs[i];
        let ghost prev = split_on(s@.take(i as int), sep);
        assert(s@.take(i as int + 1).drop_last() =~= s@.take(i as int));
        proof {
            lemma_split_on_nonempty(s@.take(i as int), sep);
        }
        if c == sep {
            let finished = cur;
            done.push(finished);
            cur = String::new();
            assert(done.deep_view().push(cur@) =~= prev.push(Seq::empty()));
        } else {
            push_char(&mut cur, c);
            assert(done.deep_view().push(cur@) =~= prev.update(prev.len() - 1, prev.last().push(c)));
        }
        i = i + 1;
    }
    assert(s@.take(cs.len() as int) =~= s@);
    done.push(cur);
    done
}

/// A line without the carriage return of a `\r\n` ending.
pub open spec fn strip_cr(line: Seq<char>) -> Seq<char> {
    if line.len() > 0 && line.last() == '\r' {
        line.drop_last()
    } else {
        line
    }
}

/// The lines of `s` as `str::lines` yields them: cut at `\n`, a `\r` just before
/// a `\n` removed, and no empty last line after a final `\n`.
pub open spec fn lines_of(s: Seq<char>) -> Seq<Seq<char>> {
    let pieces = split_on(s, '\n');
    let body = pieces.drop_last().map_values(|l: Seq<char>| strip_cr(l));
    if pieces.last().len() == 0 {
        body
    } else {
        body.push(pieces.last())
    }
}

/// Removes a final `\r`.
fn strip_cr_exec(line: &String) -> (r: String)
    ensures
        r@ == strip_cr(line@),
{
    let cs = chars_of(line.as_str());
    if cs.len() > 0 && cs[cs.len() - 1] == '\r' {
        let mut shorter = cs;
        shorter.pop();
        assert(shorter@ =~= line@.drop_last());
        string_from_chars(&shorter)
    } else {
        line.clone()
    }
}

/// The lines of `s` (see `lines_of`).
pub fn lines(s: &str) -> (r: Vec<String>)
    ensures
        r.deep_view() == lines_of(s@),
{
    let pieces = split_on_char(s, '\n');
    proof {
        lemma_split_on_nonempty(s@, '\n');
    }
    let ghost pv = pieces.deep_view();
    let n = pieces.len();
    let mut r: Vec<String> = Vec::new();
    let mut i: usize = 0;
    while i + 1 < n
        invariant
            pv == pieces.deep_view(),
            pv == split_on(s@, '\n'),
            n == pieces.len(),
            n >= 1,
            i + 1 <= n,
            r.deep_view() == pv.drop_last().take(i as int).map_values(|l: Seq<char>| strip_cr(l)),
        decreases n - i,
    {
        let line = strip_cr_exec(&pieces[i]);
        assert(pieces[i as int]@ == pv[i as int]);
        r.push(line);
        assert(pv.drop_last().take(i as int + 1).map_values(|l: Seq<char>| strip_cr(l)) =~= pv.drop_last().take(i as int).map_values(|l: Seq<char>| strip_cr(l)).push(strip_cr(pv[i as int])));
        i = i + 1;
    }
    assert(pv.drop_last().take(i as int) =~= pv.drop_last());
    let last = &pieces[n - 1];
    assert(last@ == pv.last());
    if last.unicode_len() != 0 {
        r.push(last.clone());
    }
    assert(r.deep_view() =~= lines_of(s@));
    r
}

/// The characters of `char::is_whitespace` (Unicode `White_Space`).
pub open spec fn is_space(c: char) -> bool {
    ('\u{9}' <= c && c <= '\u{d}') || c == ' ' || c == '\u{85}' || c == '\u{a0}' || c == '\u{1680}'
        || ('\u{2000}' <= c && c <= '\u{200a}') || c == '\u{2028}' || c == '\u{2029}' || c
        == '\u{202f}' || c == '\u{205f}' || c == '\u{3000}'
}

fn is_space_exec(c: char) -> (r: bool)
    ensures
        r == is_space(c),
{
    ('\u{9}' <= c && c <= '\u{d}') || c == ' ' || c == '\u{85}' || c == '\u{a0}' || c == '\u{1680}'
        || ('\u{2000}' <= c && c <= '\u{200a}') || c == '\u{2028}' || c == '\u{2029}' || c
        == '\u{202f}' || c == '\u{205f}' || c == '\u{3000}'
}

/// `s` without its leading white space.
pub open spec fn trim_start(s: Seq<char>) -> Seq<char>
    decreases s.len(),
{
    if s.len() > 0 && is_space(s[0]) {
        trim_start(s.drop_first())
    } else {
        s
    }
}

/// `s` without its trailing white space.
pub open spec fn trim_end(s: Seq<char>) -> Seq<char>
    decreases s.len(),
{
    if s.len() > 0 && is_space(s.last()) {
        trim_end(s.drop_last())
    } else {
        s
    }
}

/// `s` without leading and trailing white space (as `str::trim`).
pub open spec fn trim(s: Seq<char>) -> Seq<char> {
    trim_end(trim_start(s))
}

/// Removes leading and trailing white space (see `trim`).
pub fn trim_str(s: &str) -> (r: String)
    ensures
        r@ == trim(s@),
{
    let cs = chars_of(s);
    let n = cs.len();
    let mut a: usize = 0;
    assert(s@.skip(0) =~= s@);
    while a < n && is_space_exec(cs[a])
        invariant
            cs@ == s@,
            n == cs.len(),
            a <= n,
            trim_start(s@) == trim_start(s@.skip(a as int)),
        decreases n - a,
    {
        assert(s@.skip(a as int).drop_first() =~= s@.skip(a as int + 1));
        a = a + 1;
    }
    let mut b: usize = n;
    while b > a && is_space_exec(cs[b - 1])
        invariant
            cs@ == s@,
            n == cs.len(),
            a <= b <= n,
            trim_start(s@) == s@.skip(a as int),
            trim(s@) == trim_end(s@.subrange(a as int, b as int)),
        decreases b - a,
    {
        assert(s@.subrange(a as int, b as int).drop_last() =~= s@.subrange(a as int, b as int - 1));
        b = b - 1;
    }
    let mut out: Vec<char> = Vec::new();
    let mut k: usize = a;
    while k < b
        invariant
            cs@ == s@,
            n == cs.len(),
            a <= k <= b <= n,
            out@ == s@.subrange(a as int, k as int),
        decreases b - k,
    {
        out.push(cs[k]);
        assert(s@.subrange(a as int, k as int + 1) =~= s@.subrange(a as int, k as int).push(s@[k as int]));
        k = k + 1;
    }
    string_from_chars(&out)
}

} // verus!
