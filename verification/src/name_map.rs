//! Maps from names to values kept as a list of records; a later record for a
//! name overrides the earlier ones.
use vstd::prelude::*;
use crate::text::{insert_sorted_unique, strictly_sorted, views_of};

verus! {

/// Names to values.
#[derive(Debug)]
pub struct NameMap<V> {
    records: Vec<(String, V)>,
}

/// The map the first `n` records describe.
pub open spec fn records_map<V>(s: Seq<(String, V)>, n: nat) -> Map<Seq<char>, V>
    decreases n,
{
    if n == 0 || n > s.len() {
        Map::empty()
    } else {
        records_map(s, (n - 1) as nat).insert(s[n - 1].0@, s[n - 1].1)
    }
}

proof fn lemma_records_suffix<V>(s: Seq<(String, V)>, n: nat, i: int, k: Seq<char>)
    requires
        0 <= i < n <= s.len(),
        s[i].0@ == k,
        forall|j: int| i < j < n ==> (#[trigger] s[j]).0@ != k,
    ensures
        records_map(s, n).contains_key(k),
        records_map(s, n)[k] == s[i].1,
    decreases n,
{
    if n - 1 > i {
        lemma_records_suffix(s, (n - 1) as nat, i, k);
    }
}

proof fn lemma_records_absent<V>(s: Seq<(String, V)>, n: nat, k: Seq<char>)
    requires
        n <= s.len(),
        forall|j: int| 0 <= j < n ==> (#[trigger] s[j]).0@ != k,
    ensures
        !records_map(s, n).contains_key(k),
    decreases n,
{
    if n > 0 {
        lemma_records_absent(s, (n - 1) as nat, k);
    }
}

proof fn lemma_records_prefix<V>(s: Seq<(String, V)>, t: Seq<(String, V)>, n: nat)
    requires
        n <= s.len(),
        n <= t.len(),
        forall|i: int| 0 <= i < n ==> s[i] == t[i],
    ensures
        records_map(s, n) == records_map(t, n),
    decreases n,
{
    if n > 0 {
        lemma_records_prefix(s, t, (n - 1) as nat);
    }
}

proof fn lemma_records_domain<V>(s: Seq<(String, V)>, n: nat, k: Seq<char>)
    requires
        n <= s.len(),
    ensures
        records_map(s, n).contains_key(k) <==> exists|i: int| 0 <= i < n && (#[trigger] s[i]).0@ == k,
    decreases n,
{
    if n > 0 {
        lemma_records_domain(s, (n - 1) as nat, k);
        if s[n - 1].0@ == k {
            assert(s[n - 1 as int].0@ == k);
        }
        if exists|i: int| 0 <= i < n && (#[trigger] s[i]).0@ == k {
            let i = choose|i: int| 0 <= i < n && (#[trigger] s[i]).0@ == k;
            if i < n - 1 {
                assert(exists|i: int| 0 <= i < n - 1 && (#[trigger] s[i]).0@ == k);
            }
        }
    }
}

impl<V> View for NameMap<V> {
    type V = Map<Seq<char>, V>;

    closed spec fn view(&self) -> Map<Seq<char>, V> {
        records_map(self.records@, self.records@.len())
    }
}

impl<V> NameMap<V> {
    /// An empty map.
    pub fn new() -> (r: Self)
        ensures
            r@ == Map::<Seq<char>, V>::empty(),
    {
        NameMap { records: Vec::new() }
    }

    /// Binds `name` to `value`.
    pub fn insert(&mut self, name: String, value: V)
        ensures
            final(self)@ == old(self)@.insert(name@, value),
    {
        let ghost s = self.records@;
        self.records.push((name, value));
        proof {
            lemma_records_prefix(self.records@, s, s.len());
        }
    }

    /// The value bound to `name`.
    pub fn get(&self, name: &str) -> (r: Option<&V>)
        ensures
            match r {
                Some(v) => self@.contains_key(name@) && *v == self@[name@],
                None => !self@.contains_key(name@),
            },
    {
        let key = name.to_owned();
        let mut i: usize = self.records.len();
        while i > 0
            invariant
                i <= self.records@.len(),
                key@ == name@,
                forall|j: int| i <= j < self.records@.len() ==> (#[trigger] self.records@[j]).0@ != name@,
            decreases i,
        {
            i = i - 1;
            if self.records[i].0 == key {
                proof {
                    lemma_records_suffix(self.records@, self.records@.len(), i as int, name@);
                }
                return Some(&self.records[i].1);
            }
        }
        proof {
            lemma_records_absent(self.records@, self.records@.len(), name@);
        }
        None
    }

    /// Whether `name` is bound.
    pub fn contains(&self, name: &str) -> (r: bool)
        ensures
            r == self@.contains_key(name@),
    {
        self.get(name).is_some()
    }

    /// The bound names, sorted, each once.
    pub fn sorted_names(&self) -> (r: Vec<String>)
        ensures
            strictly_sorted(views_of(r@)),
            views_of(r@).to_set() == self@.dom(),
    {
        let mut names: Vec<String> = Vec::new();
        let mut i: usize = 0;
        assert(views_of(names@).to_set() =~= Set::empty());
        while i < self.records.len()
            invariant
                i <= self.records@.len(),
                strictly_sorted(views_of(names@)),
                views_of(names@).to_set() == Set::new(
                    |k: Seq<char>| exists|j: int| 0 <= j < i && (#[trigger] self.records@[j]).0@ == k,
                ),
            decreases self.records@.len() - i,
        {
            let ghost before = views_of(names@).to_set();
            insert_sorted_unique(&mut names, self.records[i].0.clone());
            assert(views_of(names@).to_set() =~= Set::new(
                |k: Seq<char>| exists|j: int| 0 <= j < i + 1 && (#[trigger] self.records@[j]).0@ == k,
            )) by {
                assert forall|k: Seq<char>| #[trigger] views_of(names@).to_set().contains(k) <==> (
                exists|j: int| 0 <= j < i + 1 && (#[trigger] self.records@[j]).0@ == k) by {
                    if k == self.records@[i as int].0@ {
                    } else if views_of(names@).to_set().contains(k) {
                        assert(before.contains(k));
                        let j = choose|j: int| 0 <= j < i && (#[trigger] self.records@[j]).0@ == k;
                        assert(0 <= j < i + 1 && self.records@[j].0@ == k);
                    } else if exists|j: int| 0 <= j < i + 1 && (#[trigger] self.records@[j]).0@ == k {
                        let j = choose|j: int| 0 <= j < i + 1 && (#[trigger] self.records@[j]).0@ == k;
                        assert(j < i);
                        assert(before.contains(k));
                    }
                }
            }
            i = i + 1;
        }
        assert forall|k: Seq<char>| #[trigger] views_of(names@).to_set().contains(k) <==> self@.dom().contains(k) by {
            lemma_records_domain(self.records@, self.records@.len(), k);
        }
        assert(views_of(names@).to_set() =~= self@.dom());
        names
    }

    /// Whether no name is bound.
    pub fn is_empty(&self) -> (r: bool)
        ensures
            r == (self@.dom() == Set::<Seq<char>>::empty()),
    {
        proof {
            if self.records@.len() > 0 {
                let k = self.records@[self.records@.len() - 1].0@;
                lemma_records_domain(self.records@, self.records@.len(), k);
                assert(self@.dom().contains(k));
            } else {
                assert(self@.dom() =~= Set::<Seq<char>>::empty());
            }
        }
        self.records.len() == 0
    }

    /// Removes every binding.
    pub fn clear(&mut self)
        ensures
            final(self)@ == Map::<Seq<char>, V>::empty(),
    {
        self.records = Vec::new();
    }
}

} // verus!
