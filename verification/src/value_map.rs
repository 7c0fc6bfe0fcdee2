//! A map from variable names to constant values, kept as a list of distinct
//! names in insertion order.
use vstd::prelude::*;
use crate::expressions::{ConstValue, CVal};

verus! {

/// Variable assignment: names to constant values.
#[derive(Debug)]
pub struct ValueMap {
    entries: Vec<(String, ConstValue)>,
}

/// The map described by the first `n` entries, later entries overriding
/// earlier ones.
pub open spec fn entries_map(s: Seq<(String, ConstValue)>, n: nat) -> Map<Seq<char>, CVal>
    decreases n,
{
    if n == 0 || n > s.len() {
        Map::empty()
    } else {
        entries_map(s, (n - 1) as nat).insert(s[n - 1].0@, s[n - 1].1@)
    }
}

/// No name occurs twice.
pub open spec fn distinct_names(s: Seq<(String, ConstValue)>) -> bool {
    forall|i: int, j: int| 0 <= i < j < s.len() ==> (#[trigger] s[i]).0@ != (#[trigger] s[j]).0@
}

proof fn lemma_entries_map_lookup(s: Seq<(String, ConstValue)>, n: nat, i: int)
    requires
        n <= s.len(),
        0 <= i < n,
        distinct_names(s),
    ensures
        entries_map(s, n).contains_key(s[i].0@),
        entries_map(s, n)[s[i].0@] == s[i].1@,
    decreases n,
{
    if i < n - 1 {
        lemma_entries_map_lookup(s, (n - 1) as nat, i);
        assert(s[i].0@ != s[n - 1].0@);
    }
}

proof fn lemma_entries_map_domain(s: Seq<(String, ConstValue)>, n: nat, k: Seq<char>)
    requires
        n <= s.len(),
    ensures
        entries_map(s, n).contains_key(k) <==> exists|i: int| 0 <= i < n && (#[trigger] s[i]).0@ == k,
    decreases n,
{
    if n > 0 {
        lemma_entries_map_domain(s, (n - 1) as nat, k);
        if s[n - 1].0@ == k {
            assert(s[n - 1 as int].0@ == k);
        }
        if exists|i: int| 0 <= i < n && (#[trigger] s[i]).0@ == k {
            let i = choose|i: int| 0 <= i < n && (#[trigger] s[i]).0@ == k;
            if i < n - 1 {
                assert(exists|i: int| 0 <= i < n - 1 && (#[trigger] s[i]).0@ == k);
            }
        }
    }
}

proof fn lemma_entries_map_update(s: Seq<(String, ConstValue)>, n: nat, j: int, e: (String, ConstValue))
    requires
        n <= s.len(),
        0 <= j < n,
        distinct_names(s),
        e.0@ == s[j].0@,
    ensures
        entries_map(s.update(j, e), n) == entries_map(s, n).insert(e.0@, e.1@),
    decreases n,
{
    let t = s.update(j, e);
    if n - 1 == j {
        assert(entries_map(t, (n - 1) as nat) == entries_map(s, (n - 1) as nat)) by {
            lemma_entries_map_prefix_same(s, t, (n - 1) as nat);
        }
        assert(!entries_map(s, (n - 1) as nat).contains_key(e.0@)) by {
            lemma_entries_map_domain(s, (n - 1) as nat, e.0@);
            if exists|i: int| 0 <= i < n - 1 && (#[trigger] s[i]).0@ == e.0@ {
                let i = choose|i: int| 0 <= i < n - 1 && (#[trigger] s[i]).0@ == e.0@;
                assert(s[i].0@ != s[j].0@);
            }
        }
        assert(entries_map(t, n) =~= entries_map(s, n).insert(e.0@, e.1@));
    } else {
        lemma_entries_map_update(s, (n - 1) as nat, j, e);
        assert(s[n - 1].0@ != s[j].0@);
        assert(entries_map(t, n) =~= entries_map(s, n).insert(e.0@, e.1@));
    }
}

proof fn lemma_entries_map_prefix_same(s: Seq<(String, ConstValue)>, t: Seq<(String, ConstValue)>, n: nat)
    requires
        n <= s.len(),
        n <= t.len(),
        forall|i: int| 0 <= i < n ==> s[i] == t[i],
    ensures
        entries_map(s, n) == entries_map(t, n),
    decreases n,
{
    if n > 0 {
        lemma_entries_map_prefix_same(s, t, (n - 1) as nat);
    }
}

impl View for ValueMap {
    type V = Map<Seq<char>, CVal>;

    closed spec fn view(&self) -> Map<Seq<char>, CVal> {
        entries_map(self.entries@, self.entries@.len())
    }
}

impl ValueMap {
    /// The names are distinct.
    pub closed spec fn wf(&self) -> bool {
        distinct_names(self.entries@)
    }

    /// The entries, in insertion order.
    pub closed spec fn entries_view(&self) -> Seq<(String, ConstValue)> {
        self.entries@
    }

    /// An empty map.
    pub fn new() -> (r: Self)
        ensures
            r.wf(),
            r@ == Map::<Seq<char>, CVal>::empty(),
            r.entries_view().len() == 0,
    {
        ValueMap { entries: Vec::new() }
    }

    /// Number of names.
    pub fn len(&self) -> (r: usize)
        ensures
            r == self.entries_view().len(),
    {
        self.entries.len()
    }

    /// Whether no name is bound.
    pub fn is_empty(&self) -> (r: bool)
        ensures
            r == (self.entries_view().len() == 0),
    {
        self.entries.len() == 0
    }

    /// The entries, in insertion order.
    pub fn entries(&self) -> (r: &Vec<(String, ConstValue)>)
        ensures
            r@ == self.entries_view(),
            entries_map(r@, r@.len()) == self@,
    {
        &self.entries
    }

    /// The value bound to `name`.
    pub fn get(&self, name: &str) -> (r: Option<&ConstValue>)
        requires
            self.wf(),
        ensures
            match r {
                Some(v) => self@.contains_key(name@) && self@[name@] == v@,
                None => !self@.contains_key(name@),
            },
    {
        let key = name.to_owned();
        let mut i: usize = 0;
        while i < self.entries.len()
            invariant
                i <= self.entries@.len(),
                key@ == name@,
                distinct_names(self.entries@),
                forall|k: int| 0 <= k < i ==> (#[trigger] self.entries@[k]).0@ != name@,
            decreases self.entries@.len() - i,
        {
            if self.entries[i].0 == key {
                proof {
                    lemma_entries_map_lookup(self.entries@, self.entries@.len(), i as int);
                }
                return Some(&self.entries[i].1);
            }
            i = i + 1;
        }
        proof {
            lemma_entries_map_domain(self.entries@, self.entries@.len(), name@);
        }
        None
    }

    /// Binds `name` to `value`, replacing an earlier binding.
    pub fn insert(&mut self, name: String, value: ConstValue)
        requires
            old(self).wf(),
        ensures
            final(self).wf(),
            final(self)@ == old(self)@.insert(name@, value@),
    {
        let mut i: usize = 0;
        while i < self.entries.len()
            invariant
                i <= self.entries@.len(),
                distinct_names(self.entries@),
                self.entries@ == old(self).entries@,
                forall|k: int| 0 <= k < i ==> (#[trigger] self.entries@[k]).0@ != name@,
            decreases self.entries@.len() - i,
        {
            if self.entries[i].0 == name {
                let ghost s = self.entries@;
                let ghost e = (name, value);
                proof {
                    lemma_entries_map_update(s, s.len(), i as int, e);
                }
                self.entries.set(i, (name, value));
                assert(self.entries@ == s.update(i as int, e));
                assert forall|a: int, b: int| 0 <= a < b < self.entries@.len() implies (
                #[trigger] self.entries@[a]).0@ != (#[trigger] self.entries@[b]).0@ by {
                    assert(s[a].0@ != s[b].0@);
                }
                return;
            }
            i = i + 1;
        }
        let ghost s = self.entries@;
        let ghost nv = name@;
        self.entries.push((name, value));
        assert(self.entries@.drop_last() == s);
        proof {
            lemma_entries_map_prefix_same(self.entries@, s, s.len());
            assert forall|a: int, b: int| 0 <= a < b < self.entries@.len() implies (
            #[trigger] self.entries@[a]).0@ != (#[trigger] self.entries@[b]).0@ by {
                if b == s.len() {
                    assert(self.entries@[a] == s[a]);
                    assert(self.entries@[b].0@ == nv);
                } else {
                    assert(self.entries@[a] == s[a]);
                    assert(self.entries@[b] == s[b]);
                }
            }
        }
    }

    /// A copy of the map.
    pub fn copy(&self) -> (r: Self)
        ensures
            r.wf() == self.wf(),
            r@ == self@,
            r.entries_view().len() == self.entries_view().len(),
            forall|i: int|
                0 <= i < self.entries_view().len() ==> (#[trigger] r.entries_view()[i]).0@
                    == self.entries_view()[i].0@ && r.entries_view()[i].1@ == self.entries_view()[i].1@,
    {
        let mut entries: Vec<(String, ConstValue)> = Vec::new();
        let mut i: usize = 0;
        while i < self.entries.len()
            invariant
                i <= self.entries@.len(),
                entries@.len() == i,
                forall|k: int|
                    0 <= k < i ==> (#[trigger] entries@[k]).0@ == self.entries@[k].0@
                        && entries@[k].1@ == self.entries@[k].1@,
            decreases self.entries@.len() - i,
        {
            let k = self.entries[i].0.clone();
            let v = self.entries[i].1.clone();
            entries.push((k, v));
            i = i + 1;
        }
        let r = ValueMap { entries };
        proof {
            lemma_entries_map_same_views(r.entries@, self.entries@, r.entries@.len());
            if self.wf() {
                assert forall|a: int, b: int| 0 <= a < b < r.entries@.len() implies (
                #[trigger] r.entries@[a]).0@ != (#[trigger] r.entries@[b]).0@ by {
                    assert(self.entries@[a].0@ != self.entries@[b].0@);
                }
            }
            if r.wf() {
                assert forall|a: int, b: int| 0 <= a < b < self.entries@.len() implies (
                #[trigger] self.entries@[a]).0@ != (#[trigger] self.entries@[b]).0@ by {
                    assert(r.entries@[a].0@ != r.entries@[b].0@);
                }
            }
        }
        r
    }
}

proof fn lemma_entries_map_same_views(s: Seq<(String, ConstValue)>, t: Seq<(String, ConstValue)>, n: nat)
    requires
        n <= s.len(),
        n <= t.len(),
        forall|i: int| 0 <= i < n ==> (#[trigger] s[i]).0@ == t[i].0@ && s[i].1@ == t[i].1@,
    ensures
        entries_map(s, n) == entries_map(t, n),
    decreases n,
{
    if n > 0 {
        lemma_entries_map_same_views(s, t, (n - 1) as nat);
        assert(s[n - 1].0@ == t[n - 1].0@);
    }
}

proof fn lemma_entries_map_len(s: Seq<(String, ConstValue)>, n: nat)
    requires
        n <= s.len(),
        distinct_names(s),
    ensures
        entries_map(s, n).dom().finite(),
        entries_map(s, n).dom().len() == n,
    decreases n,
{
    if n > 0 {
        lemma_entries_map_len(s, (n - 1) as nat);
        lemma_entries_map_domain(s, (n - 1) as nat, s[n - 1].0@);
        if entries_map(s, (n - 1) as nat).contains_key(s[n - 1].0@) {
            let i = choose|i: int| 0 <= i < n - 1 && (#[trigger] s[i]).0@ == s[n - 1].0@;
            assert(s[i].0@ != s[n - 1].0@);
        }
    }
}

impl ValueMap {
    /// A well-formed map has as many names as entries, and its names are
    /// those of its entries.
    pub proof fn lemma_domain(&self)
        requires
            self.wf(),
        ensures
            self@.dom().finite(),
            self@.dom().len() == self.entries_view().len(),
            forall|k: Seq<char>| #[trigger] self@.contains_key(k) <==> exists|i: int|
                0 <= i < self.entries_view().len() && (#[trigger] self.entries_view()[i]).0@ == k,
    {
        lemma_entries_map_len(self.entries@, self.entries@.len());
        assert forall|k: Seq<char>| #[trigger] self@.contains_key(k) <==> exists|i: int|
            0 <= i < self.entries_view().len() && (#[trigger] self.entries_view()[i]).0@ == k by {
            let s = self.entries@;
            lemma_entries_map_domain(s, s.len(), k);
            if self@.contains_key(k) {
                let i = choose|i: int| 0 <= i < s.len() && (#[trigger] s[i]).0@ == k;
                assert(self.entries_view()[i].0@ == k);
            }
            if exists|i: int| 0 <= i < self.entries_view().len() && (#[trigger] self.entries_view()[i]).0@ == k {
                let i = choose|i: int| 0 <= i < self.entries_view().len() && (#[trigger] self.entries_view()[i]).0@ == k;
                assert(s[i].0@ == k);
            }
        }
    }

    /// The value of each entry is the map's value at its name.
    pub proof fn lemma_entry(&self, i: int)
        requires
            self.wf(),
            0 <= i < self.entries_view().len(),
        ensures
            self@.contains_key(self.entries_view()[i].0@),
            self@[self.entries_view()[i].0@] == self.entries_view()[i].1@,
    {
        lemma_entries_map_lookup(self.entries@, self.entries@.len(), i);
    }
}

} // verus!
