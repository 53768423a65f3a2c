//! Name-keyed tables: shell variables, environment snapshots, arrays,
//! aliases and traps are all maps from a name to a value, with at most one
//! entry per name.

use vstd::prelude::*;

use crate::text::copy_string;

verus! {

/// A value a table can hold and hand out copies of.
pub trait Duplicate: DeepView + Sized {
    fn duplicate(&self) -> (r: Self)
        ensures
            r.deep_view() == self.deep_view(),
    ;
}

impl Duplicate for String {
    fn duplicate(&self) -> (r: String)
        ensures
            r.deep_view() == self.deep_view(),
    {
        copy_string(self)
    }
}

impl Duplicate for Vec<String> {
    fn duplicate(&self) -> (r: Vec<String>)
        ensures
            r.deep_view() == self.deep_view(),
    {
        let mut r: Vec<String> = Vec::new();
        let mut i: usize = 0;
        while i < self.len()
            invariant
                i <= self@.len(),
                r@.len() == i,
                forall|j: int| 0 <= j < i ==> (#[trigger] r@[j])@ == self@[j]@,
            decreases self@.len() - i,
        {
            r.push(copy_string(&self[i]));
            i = i + 1;
        }
        assert(r.deep_view() =~= self.deep_view()) by {
            assert forall|j: int| 0 <= j < r@.len() implies r.deep_view()[j] == self.deep_view()[j] by {
                assert(r.deep_view()[j] == r@[j].deep_view());
                assert(self.deep_view()[j] == self@[j].deep_view());
            }
        }
        r
    }
}

/// The map that a list of entries denotes: a later entry for a name
/// replaces an earlier one.
pub open spec fn entries_map<W>(s: Seq<(Seq<char>, W)>) -> Map<Seq<char>, W>
    decreases s.len(),
{
    if s.len() == 0 {
        Map::empty()
    } else {
        entries_map(s.drop_last()).insert(s.last().0, s.last().1)
    }
}

/// The entries of `s` whose name is not `k`.
pub open spec fn without_key<W>(s: Seq<(Seq<char>, W)>, k: Seq<char>) -> Seq<(Seq<char>, W)>
    decreases s.len(),
{
    if s.len() == 0 {
        s
    } else {
        let r = without_key(s.drop_last(), k);
        if s.last().0 != k {
            r.push(s.last())
        } else {
            r
        }
    }
}

proof fn lemma_without_key_from<W>(s: Seq<(Seq<char>, W)>, k: Seq<char>)
    ensures
        forall|a: int|
            0 <= a < without_key(s, k).len() ==> exists|j: int|
                0 <= j < s.len() && s[j] == #[trigger] without_key(s, k)[a],
    decreases s.len(),
{
    if s.len() > 0 {
        let init = s.drop_last();
        lemma_without_key_from(init, k);
        let w = without_key(s, k);
        let wi = without_key(init, k);
        assert forall|a: int| 0 <= a < w.len() implies exists|j: int|
            0 <= j < s.len() && s[j] == #[trigger] w[a] by {
            if a < wi.len() {
                assert(w[a] == wi[a]);
                let j = choose|j: int| 0 <= j < init.len() && init[j] == #[trigger] wi[a];
                assert(s[j] == init[j]);
            } else {
                assert(s[s.len() - 1] == w[a]);
            }
        }
    }
}

/// No two entries share a name.
pub open spec fn distinct_keys<W>(s: Seq<(Seq<char>, W)>) -> bool {
    forall|i: int, j: int| 0 <= i < j < s.len() ==> s[i].0 != s[j].0
}

proof fn lemma_entries_map_without<W>(s: Seq<(Seq<char>, W)>, k: Seq<char>)
    ensures
        entries_map(without_key(s, k)) == entries_map(s).remove(k),
    decreases s.len(),
{
    if s.len() == 0 {
        assert(without_key(s, k) =~= s);
        assert(entries_map(s).remove(k) =~= entries_map(s));
    } else {
        let init = s.drop_last();
        let last = s.last();
        lemma_entries_map_without(init, k);
        if last.0 != k {
            assert(without_key(s, k).drop_last() =~= without_key(init, k));
            assert(entries_map(s).remove(k) =~= entries_map(init).remove(k).insert(last.0, last.1));
        } else {
            assert(entries_map(s).remove(k) =~= entries_map(init).remove(k));
        }
    }
}

proof fn lemma_entries_map_dom<W>(s: Seq<(Seq<char>, W)>, k: Seq<char>)
    ensures
        entries_map(s).contains_key(k) <==> exists|i: int| 0 <= i < s.len() && #[trigger] s[i].0
            == k,
    decreases s.len(),
{
    if s.len() > 0 {
        let init = s.drop_last();
        lemma_entries_map_dom(init, k);
        if entries_map(s).contains_key(k) {
            if s.last().0 == k {
                assert(s[s.len() - 1].0 == k);
            } else {
                let i = choose|i: int| 0 <= i < init.len() && #[trigger] init[i].0 == k;
                assert(s[i].0 == k);
            }
        }
        if exists|i: int| 0 <= i < s.len() && #[trigger] s[i].0 == k {
            let i = choose|i: int| 0 <= i < s.len() && #[trigger] s[i].0 == k;
            if i < s.len() - 1 {
                assert(init[i].0 == k);
            }
        }
    }
}

proof fn lemma_entries_map_at<W>(s: Seq<(Seq<char>, W)>, i: int)
    requires
        distinct_keys(s),
        0 <= i < s.len(),
    ensures
        entries_map(s).contains_key(s[i].0),
        entries_map(s)[s[i].0] == s[i].1,
    decreases s.len(),
{
    let init = s.drop_last();
    if i < s.len() - 1 {
        assert(distinct_keys(init)) by {
            assert forall|a: int, b: int| 0 <= a < b < init.len() implies init[a].0 != init[b].0 by {
                assert(init[a] == s[a] && init[b] == s[b]);
            }
        }
        lemma_entries_map_at(init, i);
        assert(init[i] == s[i]);
        assert(s.last().0 != s[i].0);
    }
}

proof fn lemma_without_key_distinct<W>(s: Seq<(Seq<char>, W)>, k: Seq<char>)
    requires
        distinct_keys(s),
    ensures
        distinct_keys(without_key(s, k)),
        forall|i: int| 0 <= i < without_key(s, k).len() ==> #[trigger] without_key(s, k)[i].0 != k,
    decreases s.len(),
{
    if s.len() > 0 {
        let init = s.drop_last();
        let last = s.last();
        assert(distinct_keys(init)) by {
            assert forall|a: int, b: int| 0 <= a < b < init.len() implies init[a].0 != init[b].0 by {
                assert(init[a] == s[a] && init[b] == s[b]);
            }
        }
        lemma_without_key_distinct(init, k);
        lemma_without_key_from(init, k);
        let f = without_key(init, k);
        if last.0 != k {
            assert forall|a: int| 0 <= a < f.len() implies f[a].0 != last.0 by {
                let j = choose|j: int| 0 <= j < init.len() && init[j] == #[trigger] f[a];
                assert(s[j] == init[j]);
                assert(s[s.len() - 1] == last);
            }
            let w = without_key(s, k);
            assert forall|a: int, b: int| 0 <= a < b < w.len() implies w[a].0 != w[b].0 by {
                if b == w.len() - 1 {
                    assert(w[a] == f[a]);
                } else {
                    assert(w[a] == f[a] && w[b] == f[b]);
                }
            }
            assert forall|a: int| 0 <= a < w.len() implies #[trigger] w[a].0 != k by {
                if a < f.len() {
                    assert(w[a] == f[a]);
                }
            }
        }
    }
}

/// A table from names to values, with at most one entry per name.
pub struct Table<V: Duplicate> {
    entries: Vec<(String, V)>,
}

impl<V: Duplicate> Table<V> {
    spec fn entry_values(&self) -> Seq<(Seq<char>, V::V)> {
        self.entries@.map_values(|e: (String, V)| (e.0@, e.1.deep_view()))
    }

    #[verifier::type_invariant]
    spec fn names_distinct(&self) -> bool {
        distinct_keys(self.entry_values())
    }

    /// The table as a map from names to values.
    pub closed spec fn view(&self) -> Map<Seq<char>, V::V> {
        entries_map(self.entry_values())
    }

    /// An empty table.
    pub fn new() -> (t: Self)
        ensures
            t.view() == Map::<Seq<char>, V::V>::empty(),
    {
        let t = Table { entries: Vec::new() };
        assert(t.entry_values() =~= Seq::<(Seq<char>, V::V)>::empty());
        t
    }

    /// The number of names in the table.
    pub fn len(&self) -> (n: usize)
        ensures
            n == self.view().dom().len(),
    {
        proof {
            use_type_invariant(self);
            lemma_distinct_len(self.entry_values());
        }
        self.entries.len()
    }

    fn find(&self, key: &str) -> (r: Option<usize>)
        ensures
            match r {
                Some(i) => i < self.entries@.len() && self.entry_values()[i as int].0 == key@,
                None => forall|i: int|
                    0 <= i < self.entries@.len() ==> #[trigger] self.entry_values()[i].0 != key@,
            },
    {
        let k = String::from_str(key);
        let mut i: usize = 0;
        while i < self.entries.len()
            invariant
                i <= self.entries@.len(),
                k@ == key@,
                forall|j: int| 0 <= j < i ==> #[trigger] self.entry_values()[j].0 != key@,
            decreases self.entries@.len() - i,
        {
            if self.entries[i].0 == k {
                return Some(i);
            }
            i = i + 1;
        }
        None
    }

    /// Whether `key` has an entry.
    pub fn contains(&self, key: &str) -> (b: bool)
        ensures
            b == self.view().contains_key(key@),
    {
        proof {
            lemma_entries_map_dom(self.entry_values(), key@);
        }
        match self.find(key) {
            Some(i) => true,
            None => false,
        }
    }

    /// A copy of the value for `key`, if it has one.
    pub fn get(&self, key: &str) -> (r: Option<V>)
        ensures
            match r {
                Some(v) => self.view().contains_key(key@) && self.view()[key@] == v.deep_view(),
                None => !self.view().contains_key(key@),
            },
    {
        proof {
            use_type_invariant(self);
            lemma_entries_map_dom(self.entry_values(), key@);
        }
        match self.find(key) {
            Some(i) => {
                proof {
                    lemma_entries_map_at(self.entry_values(), i as int);
                }
                Some(self.entries[i].1.duplicate())
            },
            None => None,
        }
    }

    /// Gives `key` the value `value`, replacing any earlier one.
    pub fn set(&mut self, key: &str, value: V)
        ensures
            final(self).view() == old(self).view().insert(key@, value.deep_view()),
    {
        let ghost vv = value.deep_view();
        self.remove(key);
        let ghost mid = self.entry_values();
        proof {
            use_type_invariant(&*self);
        }
        let k = String::from_str(key);
        let mut entries = Vec::new();
        std::mem::swap(&mut entries, &mut self.entries);
        entries.push((k, value));
        proof {
            let ev = entries@.map_values(|e: (String, V)| (e.0@, e.1.deep_view()));
            assert(ev =~= mid.push((key@, vv)));
            assert(ev.drop_last() =~= mid);
            assert forall|a: int, b: int| 0 <= a < b < ev.len() implies ev[a].0 != ev[b].0 by {
                if b == ev.len() - 1 {
                    lemma_entries_map_dom(mid, key@);
                    assert(ev[a] == mid[a]);
                    if ev[a].0 == key@ {
                        assert(mid[a].0 == key@);
                    }
                } else {
                    assert(ev[a] == mid[a] && ev[b] == mid[b]);
                }
            }
        }
        self.entries = entries;
    }

    /// A table with the same entries.
    pub fn copy(&self) -> (r: Self)
        ensures
            r.view() == self.view(),
    {
        proof {
            use_type_invariant(self);
        }
        let mut entries: Vec<(String, V)> = Vec::new();
        let mut i: usize = 0;
        while i < self.entries.len()
            invariant
                i <= self.entries@.len(),
                entries@.len() == i,
                forall|j: int|
                    0 <= j < i ==> (#[trigger] entries@[j]).0@ == self.entries@[j].0@
                        && entries@[j].1.deep_view() == self.entries@[j].1.deep_view(),
            decreases self.entries@.len() - i,
        {
            entries.push((copy_string(&self.entries[i].0), self.entries[i].1.duplicate()));
            i = i + 1;
        }
        assert(entries@.map_values(|e: (String, V)| (e.0@, e.1.deep_view())) =~= self.entry_values());
        Table { entries }
    }

    /// Drops the entry for `key`; tells whether there was one.
    pub fn remove(&mut self, key: &str) -> (b: bool)
        ensures
            b == old(self).view().contains_key(key@),
            final(self).view() == old(self).view().remove(key@),
    {
        proof {
            use_type_invariant(&*self);
            lemma_entries_map_dom(self.entry_values(), key@);
        }
        let ghost ev0 = self.entry_values();
        let k = String::from_str(key);
        let mut kept: Vec<(String, V)> = Vec::new();
        let mut found = false;
        let mut old_entries = Vec::new();
        std::mem::swap(&mut old_entries, &mut self.entries);
        let n = old_entries.len();
        let mut i: usize = 0;
        while i < n
            invariant
                n == old_entries@.len(),
                i <= n,
                k@ == key@,
                old_entries@.map_values(|e: (String, V)| (e.0@, e.1.deep_view())) == ev0,
                kept@.map_values(|e: (String, V)| (e.0@, e.1.deep_view())) == without_key(
                    ev0.subrange(0, i as int),
                    key@,
                ),
                found <==> exists|j: int| 0 <= j < i && #[trigger] ev0[j].0 == key@,
            decreases n - i,
        {
            let ghost pre = ev0.subrange(0, i as int);
            let ghost e = ev0[i as int];
            proof {
                assert(ev0.subrange(0, i + 1) =~= pre.push(e));
                assert(pre.push(e).drop_last() =~= pre);
            }
            let same = old_entries[i].0 == k;
            if same {
                found = true;
                assert(without_key(pre.push(e), key@) =~= without_key(pre, key@));
            } else {
                let name = copy_string(&old_entries[i].0);
                let value = old_entries[i].1.duplicate();
                let ghost before = kept@;
                kept.push((name, value));
                assert(kept@.map_values(|e: (String, V)| (e.0@, e.1.deep_view())) =~= before.map_values(
                    |e: (String, V)| (e.0@, e.1.deep_view()),
                ).push(e));
                assert(without_key(pre.push(e), key@) =~= without_key(pre, key@).push(e));
            }
            i = i + 1;
        }
        proof {
            assert(ev0.subrange(0, n as int) =~= ev0);
            lemma_entries_map_without(ev0, key@);
            lemma_without_key_distinct(ev0, key@);
        }
        self.entries = kept;
        found
    }

    /// Copies of the names and values, one pair per name.
    pub fn pairs(&self) -> (r: Vec<(String, V)>)
        ensures
            r@.len() == self.view().dom().len(),
            forall|i: int|
                0 <= i < r@.len() ==> self.view().contains_key(#[trigger] r@[i].0@)
                    && self.view()[r@[i].0@] == r@[i].1.deep_view(),
            forall|k: Seq<char>|
                #[trigger] self.view().contains_key(k) ==> exists|i: int|
                    0 <= i < r@.len() && r@[i].0@ == k,
    {
        proof {
            use_type_invariant(self);
            lemma_distinct_len(self.entry_values());
        }
        let mut r: Vec<(String, V)> = Vec::new();
        let mut i: usize = 0;
        while i < self.entries.len()
            invariant
                i <= self.entries@.len(),
                distinct_keys(self.entry_values()),
                r@.len() == i,
                forall|j: int|
                    0 <= j < i ==> (#[trigger] r@[j].0)@ == self.entry_values()[j].0 && r@[j].1.deep_view()
                        == self.entry_values()[j].1,
            decreases self.entries@.len() - i,
        {
            let name = copy_string(&self.entries[i].0);
            let value = self.entries[i].1.duplicate();
            r.push((name, value));
            i = i + 1;
        }
        proof {
            let ev = self.entry_values();
            assert forall|j: int| 0 <= j < r@.len() implies self.view().contains_key(
                #[trigger] r@[j].0@,
            ) && self.view()[r@[j].0@] == r@[j].1.deep_view() by {
                lemma_entries_map_at(ev, j);
            }
            assert forall|k: Seq<char>| #[trigger] self.view().contains_key(k) implies exists|
                j: int,
            | 0 <= j < r@.len() && r@[j].0@ == k by {
                lemma_entries_map_dom(ev, k);
                let j = choose|j: int| 0 <= j < ev.len() && #[trigger] ev[j].0 == k;
                assert(r@[j].0@ == k);
            }
        }
        r
    }
}

proof fn lemma_distinct_len<W>(s: Seq<(Seq<char>, W)>)
    requires
        distinct_keys(s),
    ensures
        entries_map(s).dom().len() == s.len(),
        entries_map(s).dom().finite(),
    decreases s.len(),
{
    if s.len() > 0 {
        let init = s.drop_last();
        assert(distinct_keys(init)) by {
            assert forall|a: int, b: int| 0 <= a < b < init.len() implies init[a].0 != init[b].0 by {
                assert(init[a] == s[a] && init[b] == s[b]);
            }
        }
        lemma_distinct_len(init);
        lemma_entries_map_dom(init, s.last().0);
        if entries_map(init).contains_key(s.last().0) {
            let i = choose|i: int| 0 <= i < init.len() && #[trigger] init[i].0 == s.last().0;
            assert(s[i] == init[i]);
        }
    } else {
        assert(entries_map(s).dom() =~= Set::<Seq<char>>::empty());
    }
}

proof fn lemma_entries_finite<W>(s: Seq<(Seq<char>, W)>)
    ensures
        entries_map(s).dom().finite(),
    decreases s.len(),
{
    if s.len() > 0 {
        lemma_entries_finite(s.drop_last());
    } else {
        assert(entries_map(s).dom() =~= Set::<Seq<char>>::empty());
    }
}

impl<V: Duplicate> Table<V> {
    /// A table holds finitely many names.
    pub proof fn lemma_finite(&self)
        ensures
            self.view().dom().finite(),
    {
        lemma_entries_finite(self.entry_values());
    }
}

/// Strings by name.
pub type VarTable = Table<String>;

/// Word lists by name.
pub type ArrayTable = Table<Vec<String>>;

/// What a table gives back of a write: after `set(k, v)`, `get(k)` gives
/// `v` and every other name keeps its value; after `remove(k)`, `k` has
/// none and every other name keeps its value.
pub proof fn law_set_then_get<W>(m: Map<Seq<char>, W>, k: Seq<char>, v: W, other: Seq<char>)
    requires
        other != k,
    ensures
        m.insert(k, v).contains_key(k) && m.insert(k, v)[k] == v,
        m.insert(k, v).contains_key(other) == m.contains_key(other),
        m.contains_key(other) ==> m.insert(k, v)[other] == m[other],
        !m.remove(k).contains_key(k),
        m.remove(k).contains_key(other) == m.contains_key(other),
        m.contains_key(other) ==> m.remove(k)[other] == m[other],
{
}

} // verus!
