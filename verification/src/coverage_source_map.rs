//! Selection of coverage counters by index or by the crate that owns them.
//!
//! A [`SourceMapper`] is a set of counter indices. It can be built from
//! explicit indices, from a range, with a [`SourceMapperBuilder`], or from the
//! LLVM profile sections of a binary: the `__llvm_prf_names` section gives the
//! function names, the `__llvm_prf_data` section gives, per function, the MD5
//! of its name and its number of counters, and the crate of each function is
//! read off its (mangled) name.
use vstd::prelude::*;
use std::collections::HashSet;

verus! {

broadcast use vstd::std_specs::hash::group_hash_axioms;

// ---------------------------------------------------------------------------
// Counter sets
// ---------------------------------------------------------------------------

/// Maps coverage counters to the crates they belong to, as a whitelist of
/// counter indices.
#[derive(Debug)]
pub struct SourceMapper {
    whitelisted_counters: HashSet<usize>,
}

impl View for SourceMapper {
    type V = Set<usize>;

    closed spec fn view(&self) -> Set<usize> {
        self.whitelisted_counters@
    }
}

/// The set of indices `start <= i < end`.
pub open spec fn index_range(start: int, end: int) -> Set<usize> {
    Set::new(|i: usize| start <= i < end)
}

impl SourceMapper {
    /// A mapper whose whitelist is exactly the given indices.
    pub fn from_indices(indices: &[usize]) -> (r: Self)
        ensures
            r@ == indices@.to_set(),
    {
        let mut set: HashSet<usize> = HashSet::new();
        let mut i: usize = 0;
        while i < indices.len()
            invariant
                i <= indices.len(),
                set@ == indices@.take(i as int).to_set(),
            decreases indices.len() - i,
        {
            set.insert(indices[i]);
            proof {
                let next = indices@.take(i + 1);
                assert(next == indices@.take(i as int).push(indices@[i as int]));
                assert(next.to_set() =~= indices@.take(i as int).to_set().insert(indices@[i as int]))
                    by {
                    assert forall|x: usize| next.to_set().contains(x) implies indices@.take(
                        i as int,
                    ).to_set().insert(indices@[i as int]).contains(x) by {
                        let k = choose|k: int| 0 <= k < next.len() && next[k] == x;
                        if k < i {
                            assert(indices@.take(i as int)[k] == x);
                        }
                    }
                    assert forall|x: usize|
                        indices@.take(i as int).to_set().insert(indices@[i as int]).contains(
                            x,
                        ) implies next.to_set().contains(x) by {
                        if x == indices@[i as int] {
                            assert(next[i as int] == x);
                        } else {
                            let k = choose|k: int|
                                0 <= k < i && indices@.take(i as int)[k] == x;
                            assert(next[k] == x);
                        }
                    }
                }
            }
            i = i + 1;
        }
        assert(indices@.take(indices@.len() as int) == indices@);
        SourceMapper { whitelisted_counters: set }
    }

    /// A mapper whose whitelist is the indices `start <= i < end`.
    pub fn from_range(start_idx: usize, end_idx: usize) -> (r: Self)
        ensures
            r@ == index_range(start_idx as int, end_idx as int),
    {
        let mut set: HashSet<usize> = HashSet::new();
        let mut i: usize = start_idx;
        while i < end_idx
            invariant
                start_idx <= end_idx ==> start_idx <= i <= end_idx,
                start_idx > end_idx ==> i == start_idx,
                set@ == index_range(start_idx as int, i as int),
            decreases end_idx - i,
        {
            set.insert(i);
            assert(set@ =~= index_range(start_idx as int, i + 1));
            i = i + 1;
        }
        assert(set@ =~= index_range(start_idx as int, end_idx as int));
        SourceMapper { whitelisted_counters: set }
    }

    /// Whether counter `idx` is whitelisted.
    pub fn is_included(&self, idx: usize) -> (r: bool)
        ensures
            r == self@.contains(idx),
    {
        self.whitelisted_counters.contains(&idx)
    }

    /// The whitelisted counter indices.
    pub fn whitelisted_indices(&self) -> (r: &HashSet<usize>)
        ensures
            r@ == self@,
    {
        &self.whitelisted_counters
    }

    /// The number of whitelisted counters.
    pub fn whitelisted_count(&self) -> (r: usize)
        ensures
            r == self@.len(),
    {
        self.whitelisted_counters.len()
    }

    /// A filter that answers, for a counter index, whether it is whitelisted.
    pub fn into_filter(self) -> (f: impl Fn(usize) -> bool)
        ensures
            forall|i: usize| f.requires((i,)),
            forall|i: usize, b: bool| f.ensures((i,), b) ==> b == self@.contains(i),
    {
        let whitelist = self.whitelisted_counters;
        let f = move |idx: usize| -> (b: bool)
            ensures
                b == whitelist@.contains(idx),
            { whitelist.contains(&idx) };
        f
    }
}

impl Default for SourceMapper {
    fn default() -> (r: Self)
        ensures
            r@ == Set::<usize>::empty(),
    {
        SourceMapper { whitelisted_counters: HashSet::new() }
    }
}

/// Builder for whitelists made of single indices and ranges, minus exclusions.
#[derive(Debug)]
pub struct SourceMapperBuilder {
    included: HashSet<usize>,
}

impl View for SourceMapperBuilder {
    type V = Set<usize>;

    closed spec fn view(&self) -> Set<usize> {
        self.included@
    }
}

impl Default for SourceMapperBuilder {
    fn default() -> (r: Self)
        ensures
            r@ == Set::<usize>::empty(),
    {
        SourceMapperBuilder { included: HashSet::new() }
    }
}

impl SourceMapperBuilder {
    /// An empty builder.
    pub fn new() -> (r: Self)
        ensures
            r@ == Set::<usize>::empty(),
    {
        SourceMapperBuilder { included: HashSet::new() }
    }

    /// Adds one index.
    pub fn include_one(self, idx: usize) -> (r: Self)
        ensures
            r@ == self@.insert(idx),
    {
        let mut included = self.included;
        included.insert(idx);
        SourceMapperBuilder { included }
    }

    /// Adds the indices `start <= i < end`.
    pub fn include_range(self, start: usize, end: usize) -> (r: Self)
        ensures
            r@ == self@.union(index_range(start as int, end as int)),
    {
        let mut included = self.included;
        let ghost old_set = included@;
        let mut i: usize = start;
        while i < end
            invariant
                start <= end ==> start <= i <= end,
                start > end ==> i == start,
                included@ == old_set.union(index_range(start as int, i as int)),
            decreases end - i,
        {
            included.insert(i);
            assert(included@ =~= old_set.union(index_range(start as int, i + 1)));
            i = i + 1;
        }
        assert(included@ =~= old_set.union(index_range(start as int, end as int)));
        SourceMapperBuilder { included }
    }

    /// Removes the given indices where present.
    pub fn exclude_indices(self, indices: &[usize]) -> (r: Self)
        ensures
            r@ == self@.difference(indices@.to_set()),
    {
        let mut included = self.included;
        let ghost old_set = included@;
        let mut i: usize = 0;
        while i < indices.len()
            invariant
                i <= indices.len(),
                included@ == old_set.difference(indices@.take(i as int).to_set()),
            decreases indices.len() - i,
        {
            included.remove(&indices[i]);
            proof {
                let next = indices@.take(i + 1);
                assert(included@ =~= old_set.difference(next.to_set())) by {
                    assert forall|x: usize| #[trigger] next.to_set().contains(x) <==> (
                    indices@.take(i as int).to_set().contains(x) || x == indices@[i as int]) by {
                        if next.to_set().contains(x) {
                            let k = choose|k: int| 0 <= k < next.len() && next[k] == x;
                            if k < i {
                                assert(indices@.take(i as int)[k] == x);
                            }
                        }
                        if x == indices@[i as int] {
                            assert(next[i as int] == x);
                        }
                        if indices@.take(i as int).to_set().contains(x) {
                            let k = choose|k: int|
                                0 <= k < i && indices@.take(i as int)[k] == x;
                            assert(next[k] == x);
                        }
                    }
                }
            }
            i = i + 1;
        }
        assert(indices@.take(indices@.len() as int) == indices@);
        SourceMapperBuilder { included }
    }

    /// The mapper whose whitelist is the indices gathered so far.
    pub fn build(self) -> (r: SourceMapper)
        ensures
            r@ == self@,
    {
        SourceMapper { whitelisted_counters: self.included }
    }
}


} // verus!
