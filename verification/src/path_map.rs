//! A map from names to paths (the `HashMap<String, PathBuf>` of the metadata).

use vstd::prelude::*;
use crate::path::{FsPath, PathModel};

verus! {

/// The map that a list of entries stands for: later entries win.
pub open spec fn to_map(s: Seq<(Seq<char>, PathModel)>) -> Map<Seq<char>, PathModel>
    decreases s.len(),
{
    if s.len() == 0 {
        Map::empty()
    } else {
        to_map(s.drop_last()).insert(s.last().0, s.last().1)
    }
}

/// The entries of `s` whose key is not `k`, in order.
pub open spec fn drop_key(s: Seq<(Seq<char>, PathModel)>, k: Seq<char>) -> Seq<(Seq<char>, PathModel)>
    decreases s.len(),
{
    if s.len() == 0 {
        s
    } else {
        let rest = drop_key(s.drop_last(), k);
        if s.last().0 == k {
            rest
        } else {
            rest.push(s.last())
        }
    }
}

/// The abstract entries of a list of name and path pairs.
pub open spec fn pairs_of(v: Seq<(String, FsPath)>) -> Seq<(Seq<char>, PathModel)> {
    v.map_values(|e: (String, FsPath)| (e.0@, e.1@))
}

/// No name occurs twice among the entries.
pub open spec fn distinct_keys(s: Seq<(Seq<char>, PathModel)>) -> bool {
    forall|i: int, j: int| 0 <= i < j < s.len() ==> (#[trigger] s[i]).0 != (#[trigger] s[j]).0
}

/// What `drop_key` keeps: no entry of `k`, only names of `s`, and distinct
/// names stay distinct.
proof fn lemma_drop_key_props(s: Seq<(Seq<char>, PathModel)>, k: Seq<char>)
    ensures
        forall|i: int| 0 <= i < drop_key(s, k).len() ==> (#[trigger] drop_key(s, k)[i]).0 != k,
        forall|i: int| 0 <= i < drop_key(s, k).len() ==> exists|j: int| 0 <= j < s.len() && (#[trigger] s[j]).0 == (#[trigger] drop_key(s, k)[i]).0,
        distinct_keys(s) ==> distinct_keys(drop_key(s, k)),
    decreases s.len(),
{
    if s.len() > 0 {
        let init = s.drop_last();
        lemma_drop_key_props(init, k);
        let d0 = drop_key(init, k);
        let d = drop_key(s, k);
        if s.last().0 == k {
            assert(d == d0);
            assert forall|i: int| 0 <= i < d.len() implies exists|j: int| 0 <= j < s.len() && (#[trigger] s[j]).0 == (#[trigger] d[i]).0 by {
                let j = choose|j: int| 0 <= j < init.len() && (#[trigger] init[j]).0 == d0[i].0;
                assert(s[j] == init[j]);
            }
            if distinct_keys(s) {
                assert forall|a: int, b: int| 0 <= a < b < init.len() implies (#[trigger] init[a]).0 != (#[trigger] init[b]).0 by {
                    assert(init[a] == s[a] && init[b] == s[b]);
                }
            }
        } else {
            assert(d == d0.push(s.last()));
            assert forall|i: int| 0 <= i < d.len() implies (#[trigger] d[i]).0 != k by {
                if i < d0.len() {
                    assert(d[i] == d0[i]);
                }
            }
            assert forall|i: int| 0 <= i < d.len() implies exists|j: int| 0 <= j < s.len() && (#[trigger] s[j]).0 == (#[trigger] d[i]).0 by {
                if i < d0.len() {
                    assert(d[i] == d0[i]);
                    let j = choose|j: int| 0 <= j < init.len() && (#[trigger] init[j]).0 == d0[i].0;
                    assert(s[j] == init[j]);
                } else {
                    assert(s[s.len() - 1] == d[i]);
                }
            }
            if distinct_keys(s) {
                assert forall|a: int, b: int| 0 <= a < b < init.len() implies (#[trigger] init[a]).0 != (#[trigger] init[b]).0 by {
                    assert(init[a] == s[a] && init[b] == s[b]);
                }
                assert forall|a: int, b: int| 0 <= a < b < d.len() implies (#[trigger] d[a]).0 != (#[trigger] d[b]).0 by {
                    assert(d[a] == d0[a]);
                    if b < d0.len() {
                        assert(d[b] == d0[b]);
                    } else {
                        let j = choose|j: int| 0 <= j < init.len() && (#[trigger] init[j]).0 == d0[a].0;
                        assert(s[j] == init[j]);
                        assert(d[b] == s[s.len() - 1]);
                    }
                }
            }
        }
    }
}

/// With distinct names, the map has one entry per name, each entry's path under its name.
proof fn lemma_to_map_distinct(s: Seq<(Seq<char>, PathModel)>)
    requires
        distinct_keys(s),
    ensures
        to_map(s).dom().finite(),
        to_map(s).dom().len() == s.len(),
        forall|i: int| 0 <= i < s.len() ==> to_map(s).contains_key((#[trigger] s[i]).0) && to_map(s)[s[i].0] == s[i].1,
    decreases s.len(),
{
    if s.len() > 0 {
        let init = s.drop_last();
        assert(distinct_keys(init)) by {
            assert forall|a: int, b: int| 0 <= a < b < init.len() implies (#[trigger] init[a]).0 != (#[trigger] init[b]).0 by {
                assert(init[a] == s[a] && init[b] == s[b]);
            }
        }
        lemma_to_map_distinct(init);
        assert forall|j: int| 0 <= j < init.len() implies (#[trigger] init[j]).0 != s.last().0 by {
            assert(init[j] == s[j]);
            assert(s[s.len() - 1] == s.last());
        }
        lemma_to_map_absent(init, s.last().0);
        assert(to_map(s).dom() == to_map(init).dom().insert(s.last().0));
        assert forall|i: int| 0 <= i < s.len() implies to_map(s).contains_key((#[trigger] s[i]).0) && to_map(s)[s[i].0] == s[i].1 by {
            assert forall|j: int| i < j < s.len() implies (#[trigger] s[j]).0 != s[i].0 by {
                assert(s[i].0 != s[j].0);
            }
            lemma_to_map_last_match(s, s[i].0, i);
        }
    }
}

proof fn lemma_to_map_drop_key(s: Seq<(Seq<char>, PathModel)>, k: Seq<char>)
    ensures
        to_map(drop_key(s, k)) == to_map(s).remove(k),
    decreases s.len(),
{
    if s.len() == 0 {
        assert(to_map(s).remove(k) =~= Map::<Seq<char>, PathModel>::empty());
    } else {
        lemma_to_map_drop_key(s.drop_last(), k);
        let rest = drop_key(s.drop_last(), k);
        if s.last().0 == k {
            assert(to_map(s).remove(k) =~= to_map(s.drop_last()).remove(k));
        } else {
            assert(rest.push(s.last()).drop_last() =~= rest);
            assert(to_map(rest.push(s.last())) =~= to_map(s).remove(k));
        }
    }
}

proof fn lemma_to_map_last_match(s: Seq<(Seq<char>, PathModel)>, k: Seq<char>, i: int)
    requires
        0 <= i < s.len(),
        s[i].0 == k,
        forall|j: int| i < j < s.len() ==> (#[trigger] s[j]).0 != k,
    ensures
        to_map(s).contains_key(k),
        to_map(s)[k] == s[i].1,
    decreases s.len(),
{
    if i < s.len() - 1 {
        let init = s.drop_last();
        assert forall|j: int| i < j < init.len() implies (#[trigger] init[j]).0 != k by {
            assert(init[j] == s[j]);
        }
        assert(s[s.len() - 1].0 != k);
        lemma_to_map_last_match(init, k, i);
    }
}

proof fn lemma_to_map_absent(s: Seq<(Seq<char>, PathModel)>, k: Seq<char>)
    requires
        forall|j: int| 0 <= j < s.len() ==> (#[trigger] s[j]).0 != k,
    ensures
        !to_map(s).contains_key(k),
    decreases s.len(),
{
    if s.len() > 0 {
        let init = s.drop_last();
        assert forall|j: int| 0 <= j < init.len() implies (#[trigger] init[j]).0 != k by {
            assert(init[j] == s[j]);
        }
        assert(s[s.len() - 1].0 != k);
        lemma_to_map_absent(init, k);
    }
}

/// Names mapped to paths; a later entry for a name replaces an earlier one.
#[derive(Debug)]
pub struct PathMap {
    entries: Vec<(String, FsPath)>,
}

impl View for PathMap {
    type V = Map<Seq<char>, PathModel>;

    closed spec fn view(&self) -> Map<Seq<char>, PathModel> {
        to_map(pairs_of(self.entries@))
    }
}

impl PathMap {
    #[verifier::type_invariant]
    closed spec fn inv(self) -> bool {
        distinct_keys(pairs_of(self.entries@))
    }

    /// The empty map.
    pub fn new() -> (r: PathMap)
        ensures
            r@ == Map::<Seq<char>, PathModel>::empty(),
    {
        let r = PathMap { entries: Vec::new() };
        assert(pairs_of(r.entries@) =~= Seq::<(Seq<char>, PathModel)>::empty());
        r
    }

    /// The path mapped to `key`, if any.
    pub fn get(&self, key: &str) -> (r: Option<FsPath>)
        ensures
            r.is_some() == self@.contains_key(key@),
            r matches Some(p) ==> p@ == self@[key@],
    {
        let k = String::from_str(key);
        let ghost ps = pairs_of(self.entries@);
        let mut i: usize = self.entries.len();
        while i > 0
            invariant
                ps == pairs_of(self.entries@),
                k@ == key@,
                i <= self.entries.len(),
                forall|j: int| i <= j < ps.len() ==> (#[trigger] ps[j]).0 != key@,
            decreases i,
        {
            let e = &self.entries[i - 1];
            assert(ps[i - 1] == (e.0@, e.1@));
            if e.0 == k {
                proof {
                    lemma_to_map_last_match(ps, key@, i - 1);
                }
                return Some(e.1.clone());
            }
            i = i - 1;
        }
        proof {
            lemma_to_map_absent(ps, key@);
        }
        None
    }

    /// Whether `key` is mapped.
    pub fn contains_key(&self, key: &str) -> (r: bool)
        ensures
            r == self@.contains_key(key@),
    {
        self.get(key).is_some()
    }

    /// Removes the entry of `key` (`HashMap::remove`).
    pub fn remove(&mut self, key: &str)
        ensures
            final(self)@ == old(self)@.remove(key@),
    {
        proof {
            use_type_invariant(&*self);
        }
        let k = String::from_str(key);
        let ghost ps = pairs_of(self.entries@);
        let mut kept: Vec<(String, FsPath)> = Vec::new();
        let mut i: usize = 0;
        assert(ps.take(0) =~= Seq::<(Seq<char>, PathModel)>::empty());
        assert(pairs_of(kept@) =~= Seq::<(Seq<char>, PathModel)>::empty());
        while i < self.entries.len()
            invariant
                ps == pairs_of(self.entries@),
                k@ == key@,
                i <= self.entries.len(),
                pairs_of(kept@) == drop_key(ps.take(i as int), key@),
            decreases self.entries.len() - i,
        {
            let e = &self.entries[i];
            assert(ps[i as int] == (e.0@, e.1@));
            assert(ps.take(i as int + 1).drop_last() =~= ps.take(i as int));
            if e.0 != k {
                let name = e.0.clone();
                let path = e.1.clone();
                let ghost before = kept@;
                kept.push((name, path));
                assert(pairs_of(kept@) =~= pairs_of(before).push(ps[i as int]));
            }
            i = i + 1;
        }
        assert(ps.take(self.entries.len() as int) =~= ps);
        proof {
            lemma_to_map_drop_key(ps, key@);
            lemma_drop_key_props(ps, key@);
        }
        self.entries = kept;
    }

    /// Maps `key` to `value`, replacing an earlier entry (`HashMap::insert`).
    pub fn insert(&mut self, key: String, value: FsPath)
        ensures
            final(self)@ == old(self)@.insert(key@, value@),
    {
        self.remove(key.as_str());
        proof {
            use_type_invariant(&*self);
        }
        let ghost mid = self@;
        let mut entries: Vec<(String, FsPath)> = Vec::new();
        std::mem::swap(&mut entries, &mut self.entries);
        let ghost before = entries@;
        let ghost kv = key@;
        let ghost vv = value@;
        assert(to_map(pairs_of(before)) == mid);
        proof {
            let ps = pairs_of(before);
            assert forall|j: int| 0 <= j < ps.len() implies (#[trigger] ps[j]).0 != kv by {
                if ps[j].0 == kv {
                    assert forall|m: int| j < m < ps.len() implies (#[trigger] ps[m]).0 != kv by {
                        assert(ps[j].0 != ps[m].0);
                    }
                    lemma_to_map_last_match(ps, kv, j);
                }
            }
        }
        entries.push((key, value));
        assert(pairs_of(entries@) =~= pairs_of(before).push((kv, vv)));
        assert(pairs_of(entries@).drop_last() =~= pairs_of(before));
        assert(distinct_keys(pairs_of(entries@))) by {
            let ps = pairs_of(entries@);
            assert forall|a: int, b: int| 0 <= a < b < ps.len() implies (#[trigger] ps[a]).0 != (#[trigger] ps[b]).0 by {
                assert(ps[a] == pairs_of(before)[a]);
                if b < ps.len() - 1 {
                    assert(ps[b] == pairs_of(before)[b]);
                }
            }
        }
        self.entries = entries;
        assert(old(self)@.remove(kv).insert(kv, vv) =~= old(self)@.insert(kv, vv));
    }

    /// The entries of the map: each name once, with its path.
    pub fn entries(&self) -> (r: Vec<(String, FsPath)>)
        ensures
            to_map(pairs_of(r@)) == self@,
            r.len() == self@.len(),
            forall|i: int, j: int| 0 <= i < j < r.len() ==> (#[trigger] r[i]).0@ != (#[trigger] r[j]).0@,
            forall|i: int| 0 <= i < r.len() ==> self@.contains_key((#[trigger] r[i]).0@) && self@[r[i].0@] == r[i].1@,
    {
        proof {
            use_type_invariant(self);
        }
        let mut r: Vec<(String, FsPath)> = Vec::new();
        let mut i: usize = 0;
        assert(pairs_of(r@) =~= pairs_of(self.entries@).take(0));
        while i < self.entries.len()
            invariant
                i <= self.entries.len(),
                pairs_of(r@) == pairs_of(self.entries@).take(i as int),
            decreases self.entries.len() - i,
        {
            let e = &self.entries[i];
            let name = e.0.clone();
            let path = e.1.clone();
            let ghost before = r@;
            r.push((name, path));
            assert(pairs_of(r@) =~= pairs_of(before).push(pairs_of(self.entries@)[i as int]));
            assert(pairs_of(self.entries@).take(i as int + 1) =~= pairs_of(self.entries@).take(i as int).push(pairs_of(self.entries@)[i as int]));
            i = i + 1;
        }
        assert(pairs_of(self.entries@).take(i as int) =~= pairs_of(self.entries@));
        proof {
            let ps = pairs_of(r@);
            lemma_to_map_distinct(ps);
            assert forall|a: int, b: int| 0 <= a < b < r.len() implies (#[trigger] r[a]).0@ != (#[trigger] r[b]).0@ by {
                assert(ps[a].0 == r[a].0@ && ps[b].0 == r[b].0@);
            }
            assert forall|a: int| 0 <= a < r.len() implies self@.contains_key((#[trigger] r[a]).0@) && self@[r[a].0@] == r[a].1@ by {
                assert(ps[a] == (r[a].0@, r[a].1@));
            }
        }
        r
    }

    /// The map of a list of entries, later entries winning (as collecting into a `HashMap`).
    pub fn from_entries(v: Vec<(String, FsPath)>) -> (r: PathMap)
        ensures
            r@ == to_map(pairs_of(v@)),
    {
        let mut r = PathMap::new();
        let mut i: usize = 0;
        assert(pairs_of(v@).take(0) =~= Seq::<(Seq<char>, PathModel)>::empty());
        while i < v.len()
            invariant
                i <= v.len(),
                r@ == to_map(pairs_of(v@).take(i as int)),
            decreases v.len() - i,
        {
            let e = &v[i];
            let name = e.0.clone();
            let path = e.1.clone();
            r.insert(name, path);
            assert(pairs_of(v@).take(i as int + 1).drop_last() =~= pairs_of(v@).take(i as int));
            i = i + 1;
        }
        assert(pairs_of(v@).take(i as int) =~= pairs_of(v@));
        r
    }
}

} // verus!
