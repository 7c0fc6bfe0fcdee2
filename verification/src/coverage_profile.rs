//! Reading of the LLVM instrumentation profile: the function names of the
//! names section and the crates they belong to.
//!
//! The parser is given the contents of the `__llvm_prf_data` and
//! `__llvm_prf_names` sections and the number of counters; the names section
//! is decompressed when it is a zlib stream and taken as it is otherwise.
//! Names are separated by NUL bytes.
use vstd::prelude::*;
use crate::coverage_source_map::SourceMapper;
use crate::profile_format::{
    counters_before, data_records, lemma_counters_before_monotone, name_hash, zlib_decompress_stream,
    zlib_output, ProfDataRecord,
};
use crate::text::{
    chars_of, insert_sorted_unique, string_from_chars, string_from_utf8, strictly_sorted,
    views_of,
};
use vstd::utf8::{valid_utf8, decode_utf8};
use vstd::slice::slice_subrange;

verus! {

/// A function name and the counters attributed to it.
#[derive(Debug, Clone)]
pub struct CounterMapping {
    /// Function name.
    pub name: String,
    /// First counter index.
    pub start_idx: usize,
    /// Number of counters.
    pub num_counters: usize,
    /// Function hash.
    pub func_hash: u64,
}

/// Parser for the profile sections of an instrumented binary.
pub struct ProfileParser {
    data: Vec<u8>,
    names: Vec<u8>,
    num_counters: usize,
}

/// The names section as the parser keeps it: decompressed when it is a zlib
/// stream, as it is otherwise.
pub open spec fn inflated_names(raw: Seq<u8>) -> Seq<u8> {
    match zlib_output(raw) {
        Some(out) => out,
        None => raw,
    }
}

/// Names of NUL-terminated pieces of `b` from the piece that starts at
/// `start`, scanning from `i`: a piece counts when it is non-empty UTF-8; text
/// after the last NUL is not a name.
pub open spec fn nul_names_from(b: Seq<u8>, start: int, i: int) -> Seq<Seq<char>>
    decreases b.len() - i,
{
    if i < 0 || i >= b.len() {
        seq![]
    } else if b[i] == 0 {
        (if i > start && valid_utf8(b.subrange(start, i)) {
            seq![decode_utf8(b.subrange(start, i))]
        } else {
            seq![]
        }) + nul_names_from(b, i + 1, i + 1)
    } else {
        nul_names_from(b, start, i + 1)
    }
}

/// The names of a decompressed names section.
pub open spec fn nul_names(b: Seq<u8>) -> Seq<Seq<char>> {
    nul_names_from(b, 0, 0)
}

/// Number of ASCII digits at the start of `s`.
pub open spec fn char_digit_run(s: Seq<char>, pos: int) -> nat
    decreases s.len() - pos,
{
    if 0 <= pos < s.len() && '0' <= s[pos] <= '9' {
        1 + char_digit_run(s, pos + 1)
    } else {
        0
    }
}

/// Crate name of a legacy-mangled symbol (`_ZN` followed by length-prefixed
/// components): the text between the first length prefix and the next one
/// (or the end). `None` for other symbols and when the text after `_ZN` does
/// not start with a length followed by a name.
pub open spec fn zn_crate_name(symbol: Seq<char>) -> Option<Seq<char>> {
    if symbol.len() >= 3 && symbol[0] == '_' && symbol[1] == 'Z' && symbol[2] == 'N' {
        let rest = symbol.skip(3);
        let d = char_digit_run(rest, 0) as int;
        if d == 0 || d >= rest.len() {
            None
        } else {
            Some(rest.subrange(d, d + non_digit_run(rest, d)))
        }
    } else {
        None
    }
}

/// Number of non-digits of `s` from `pos`.
pub open spec fn non_digit_run(s: Seq<char>, pos: int) -> nat
    decreases s.len() - pos,
{
    if 0 <= pos < s.len() && !('0' <= s[pos] <= '9') {
        1 + non_digit_run(s, pos + 1)
    } else {
        0
    }
}

/// The crate names of the first `k` names.
pub open spec fn crate_set(names: Seq<Seq<char>>, k: int) -> Set<Seq<char>> {
    Set::new(
        |c: Seq<char>|
            exists|i: int| 0 <= i < k && #[trigger] zn_crate_name(names[i]) == Some(c),
    )
}

/// The first record, from the `i`-th on, whose name reference is `h`.
pub open spec fn record_named(records: Seq<ProfDataRecord>, h: u64, i: int) -> Option<int>
    decreases records.len() - i,
{
    if i < 0 || i >= records.len() {
        None
    } else if records[i].name_ref == h {
        Some(i)
    } else {
        record_named(records, h, i + 1)
    }
}

/// The counter mappings of the first `k` names: for each name that has a
/// crate name and whose function has a data record (the first whose name
/// reference is the MD5 hash of the name), the name, the record's first
/// counter (the counters of the records before it), its number of counters
/// and its function hash.
pub open spec fn mappings_of(names: Seq<Seq<char>>, records: Seq<ProfDataRecord>, k: nat) -> Seq<
    (Seq<char>, nat, nat, u64),
>
    decreases k,
{
    if k == 0 || k > names.len() {
        seq![]
    } else {
        mappings_of(names, records, (k - 1) as nat) + if zn_crate_name(names[k - 1]) is Some {
            match record_named(records, name_hash(names[k - 1]), 0) {
                Some(i) => seq![
                    (
                        names[k - 1],
                        counters_before(records, i as nat),
                        records[i].num_counters as nat,
                        records[i].func_hash,
                    ),
                ],
                None => seq![],
            }
        } else {
            seq![]
        }
    }
}

/// The counter mappings of the profile sections: none when the data
/// records cannot be read.
pub open spec fn profile_mappings(data: Seq<u8>, names: Seq<u8>, total: int) -> Seq<(Seq<char>, nat, nat, u64)> {
    match data_records(data, total) {
        Some(records) => mappings_of(nul_names(names), records, nul_names(names).len()),
        None => seq![],
    }
}

/// The crates of the first `t` mappings.
pub open spec fn mapping_crates(m: Seq<(Seq<char>, nat, nat, u64)>, t: int) -> Set<Seq<char>> {
    Set::new(|c: Seq<char>| exists|k: int| 0 <= k < t && zn_crate_name((#[trigger] m[k]).0) == Some(c))
}

/// The counters the first `t` mappings attribute to crate `c`: the ranges of
/// its functions.
pub open spec fn crate_counters(m: Seq<(Seq<char>, nat, nat, u64)>, c: Seq<char>, t: int) -> Set<usize> {
    Set::new(
        |x: usize|
            exists|k: int|
                0 <= k < t && zn_crate_name((#[trigger] m[k]).0) == Some(c) && m[k].1 <= x < m[k].1 + m[k].2,
    )
}

/// Each mapping of the first `k` names is for one of those names, one that
/// has a crate name; and when each such name has a data record, each has a
/// mapping.
proof fn lemma_mappings_cover_names(names: Seq<Seq<char>>, records: Seq<ProfDataRecord>, k: nat)
    requires
        k <= names.len(),
    ensures
        forall|t: int|
            0 <= t < mappings_of(names, records, k).len() ==> exists|i: int|
                0 <= i < k && #[trigger] names[i] == (#[trigger] mappings_of(names, records, k)[t]).0
                    && zn_crate_name(names[i]) is Some,
        (forall|i: int|
            0 <= i < k && zn_crate_name(#[trigger] names[i]) is Some ==> record_named(
                records,
                name_hash(names[i]),
                0,
            ) is Some) ==> forall|i: int|
            0 <= i < k && zn_crate_name(#[trigger] names[i]) is Some ==> exists|t: int|
                0 <= t < mappings_of(names, records, k).len() && mappings_of(names, records, k)[t].0
                    == names[i],
    decreases k,
{
    if k > 0 {
        lemma_mappings_cover_names(names, records, (k - 1) as nat);
        let prev = mappings_of(names, records, (k - 1) as nat);
        let cur = mappings_of(names, records, k);
        assert(cur.take(prev.len() as int) =~= prev);
        assert forall|t: int| 0 <= t < cur.len() implies exists|i: int|
            0 <= i < k && #[trigger] names[i] == (#[trigger] cur[t]).0 && zn_crate_name(names[i]) is Some by {
            if t < prev.len() {
                assert(cur[t] == prev[t]);
                let i = choose|i: int|
                    0 <= i < k - 1 && #[trigger] names[i] == prev[t].0 && zn_crate_name(names[i]) is Some;
                assert(names[i] == cur[t].0);
            } else {
                assert(cur[t].0 == names[k - 1]);
            }
        }
        if forall|i: int|
            0 <= i < k && zn_crate_name(#[trigger] names[i]) is Some ==> record_named(
                records,
                name_hash(names[i]),
                0,
            ) is Some {
            assert forall|i: int| 0 <= i < k && zn_crate_name(#[trigger] names[i]) is Some implies exists|t: int|
                0 <= t < cur.len() && cur[t].0 == names[i] by {
                if i < k - 1 {
                    let t = choose|t: int| 0 <= t < prev.len() && prev[t].0 == names[i];
                    assert(cur[t] == prev[t]);
                } else {
                    assert(cur[prev.len() as int].0 == names[i]);
                }
            }
        }
    }
}

/// The crates of the counter map are crates of the names section, and
/// every crate of the names section is one of them when each of its named
/// functions has a data record: `get_crate_counter_map`'s keys are then the
/// crates `get_crate_names` lists.
pub proof fn lemma_counter_map_crates(data: Seq<u8>, names: Seq<u8>, total: int)
    ensures
        ({
            let m = profile_mappings(data, names, total);
            let nn = nul_names(names);
            &&& mapping_crates(m, m.len() as int).subset_of(crate_set(nn, nn.len() as int))
            &&& (data_records(data, total) matches Some(records) && forall|i: int|
                0 <= i < nn.len() && zn_crate_name(#[trigger] nn[i]) is Some ==> record_named(
                    records,
                    name_hash(nn[i]),
                    0,
                ) is Some) ==> mapping_crates(m, m.len() as int) == crate_set(nn, nn.len() as int)
        }),
{
    let m = profile_mappings(data, names, total);
    let nn = nul_names(names);
    match data_records(data, total) {
        Some(records) => {
            lemma_mappings_cover_names(nn, records, nn.len());
            assert forall|c: Seq<char>| mapping_crates(m, m.len() as int).contains(c) implies crate_set(
                nn,
                nn.len() as int,
            ).contains(c) by {
                let t = choose|t: int| 0 <= t < m.len() && zn_crate_name((#[trigger] m[t]).0) == Some(c);
                let i = choose|i: int|
                    0 <= i < nn.len() && #[trigger] nn[i] == m[t].0 && zn_crate_name(nn[i]) is Some;
                assert(zn_crate_name(nn[i]) == Some(c));
            }
            if forall|i: int|
                0 <= i < nn.len() && zn_crate_name(#[trigger] nn[i]) is Some ==> record_named(
                    records,
                    name_hash(nn[i]),
                    0,
                ) is Some {
                assert forall|c: Seq<char>| crate_set(nn, nn.len() as int).contains(c) implies mapping_crates(
                    m,
                    m.len() as int,
                ).contains(c) by {
                    let i = choose|i: int| 0 <= i < nn.len() && #[trigger] zn_crate_name(nn[i]) == Some(c);
                    assert(zn_crate_name(nn[i]) is Some);
                    let t = choose|t: int| 0 <= t < m.len() && m[t].0 == nn[i];
                    assert(zn_crate_name((m[t]).0) == Some(c));
                }
                assert(mapping_crates(m, m.len() as int) =~= crate_set(nn, nn.len() as int));
            }
        },
        None => {
            assert(mapping_crates(m, m.len() as int) =~= Set::empty());
        },
    }
}

/// Strictly increasing.
pub open spec fn increasing(v: Seq<usize>) -> bool {
    forall|i: int, j: int| 0 <= i < j < v.len() ==> v[i] < v[j]
}

/// Inserts `x` into a strictly increasing list unless it is there.
fn insert_index(v: &mut Vec<usize>, x: usize)
    requires
        increasing(old(v)@),
    ensures
        increasing(final(v)@),
        final(v)@.to_set() == old(v)@.to_set().insert(x),
{
    let ghost o = v@;
    let mut i: usize = 0;
    while i < v.len() && v[i] < x
        invariant
            i <= v@.len(),
            v@ == o,
            forall|k: int| 0 <= k < i ==> o[k] < x,
        decreases v@.len() - i,
    {
        i = i + 1;
    }
    if i < v.len() && v[i] == x {
        assert(o.to_set() =~= o.to_set().insert(x)) by {
            assert(o.to_set().contains(x)) by {
                assert(o[i as int] == x);
            }
        }
        return;
    }
    v.insert(i, x);
    proof {
        let n = v@;
        assert(n =~= o.take(i as int).push(x) + o.skip(i as int));
        assert forall|a: int, b: int| 0 <= a < b < n.len() implies n[a] < n[b] by {
            if b < i {
                assert(n[a] == o[a] && n[b] == o[b]);
            } else if b == i {
                assert(n[a] == o[a]);
            } else if a == i {
                assert(n[b] == o[b - 1]);
                assert(o[i as int] >= x);
                if b - 1 > i {
                    assert(o[i as int] < o[b - 1]);
                }
            } else if a < i {
                assert(n[a] == o[a] && n[b] == o[b - 1]);
            } else {
                assert(n[a] == o[a - 1] && n[b] == o[b - 1]);
            }
        }
        assert forall|y: usize| n.to_set().contains(y) <==> o.to_set().insert(x).contains(y) by {
            if n.to_set().contains(y) {
                let w = choose|w: int| 0 <= w < n.len() && n[w] == y;
                if w < i {
                    assert(o[w] == y);
                } else if w > i {
                    assert(o[w - 1] == y);
                }
            }
            if o.to_set().contains(y) {
                let w = choose|w: int| 0 <= w < o.len() && o[w] == y;
                if w < i {
                    assert(n[w] == y);
                } else {
                    assert(n[w + 1] == y);
                }
            }
            if y == x {
                assert(n[i as int] == x);
            }
        }
        assert(n.to_set() =~= o.to_set().insert(x));
    }
}

fn skip_char_digits(s: &[char], pos: usize) -> (r: usize)
    requires
        pos <= s@.len(),
    ensures
        r == pos + char_digit_run(s@, pos as int),
        r <= s@.len(),
    decreases s@.len() - pos,
{
    if pos < s.len() && '0' <= s[pos] && s[pos] <= '9' {
        skip_char_digits(s, pos + 1)
    } else {
        pos
    }
}

fn skip_non_digits(s: &[char], pos: usize) -> (r: usize)
    requires
        pos <= s@.len(),
    ensures
        r == pos + non_digit_run(s@, pos as int),
        r <= s@.len(),
    decreases s@.len() - pos,
{
    if pos < s.len() && !('0' <= s[pos] && s[pos] <= '9') {
        skip_non_digits(s, pos + 1)
    } else {
        pos
    }
}

impl ProfileParser {
    /// A parser over the sections read from the binary: `None` when one of
    /// them could not be read or the data or names section is empty. The
    /// names section is decompressed when it is a zlib stream.
    pub fn new(data: Option<Vec<u8>>, names_section: Option<Vec<u8>>, num_counters: Option<usize>) -> (r:
        Option<Self>)
        ensures
            match (data, names_section, num_counters) {
                (Some(d), Some(n), Some(c)) => if d@.len() == 0 || inflated_names(n@).len() == 0 {
                    r is None
                } else {
                    r matches Some(p) && p.data_view() == d@ && p.names_view() == inflated_names(n@)
                        && p.counters_view() == c
                },
                _ => r is None,
            },
    {
        let data = match data {
            Some(d) => d,
            None => {
                return None;
            },
        };
        let names = match names_section {
            Some(n) => Self::decompress_zlib(&n),
            None => {
                return None;
            },
        };
        let num_counters = match num_counters {
            Some(c) => c,
            None => {
                return None;
            },
        };
        if data.len() == 0 || names.len() == 0 {
            return None;
        }
        Some(ProfileParser { data, names, num_counters })
    }

    /// The bytes of a zlib stream decompressed, or the bytes themselves when
    /// they do not decompress.
    pub fn decompress_zlib(data: &[u8]) -> (r: Vec<u8>)
        ensures
            r@ == inflated_names(data@),
    {
        match zlib_decompress_stream(data) {
            Some((out, _)) => out,
            None => vstd::slice::slice_to_vec(data),
        }
    }

    /// The contents of the data section.
    pub closed spec fn data_view(&self) -> Seq<u8> {
        self.data@
    }

    /// The names section, decompressed.
    pub closed spec fn names_view(&self) -> Seq<u8> {
        self.names@
    }

    /// The number of counters.
    pub closed spec fn counters_view(&self) -> usize {
        self.num_counters
    }

    /// The function names of the names section.
    pub fn parse_names_section(&self) -> (r: Vec<String>)
        ensures
            views_of(r@) == nul_names(self.names_view()),
    {
        let b = &self.names;
        let mut names: Vec<String> = Vec::new();
        let mut start: usize = 0;
        let mut i: usize = 0;
        while i < b.len()
            invariant
                start <= i <= b@.len(),
                b@ == self.names@,
                nul_names(b@) == views_of(names@) + nul_names_from(b@, start as int, i as int),
            decreases b@.len() - i,
        {
            if b[i] == 0 {
                let ghost before = views_of(names@);
                if i > start {
                    let bytes = slice_subrange(b.as_slice(), start, i);
                    match string_from_utf8(bytes) {
                        Some(name) => {
                            names.push(name);
                            assert(views_of(names@) =~= before.push(decode_utf8(
                                b@.subrange(start as int, i as int),
                            )));
                        },
                        None => {},
                    }
                }
                assert(views_of(names@) + nul_names_from(b@, i + 1, i + 1) =~= before
                    + nul_names_from(b@, start as int, i as int));
                start = i + 1;
            }
            i = i + 1;
        }
        assert(views_of(names@) + Seq::<Seq<char>>::empty() =~= views_of(names@));
        names
    }

    /// Crate name of a legacy-mangled symbol: the text between the first
    /// length prefix after `_ZN` and the next length prefix. For example
    /// `_ZN4myapp4main17h1234567890abcdefE` gives `myapp`.
    pub fn extract_crate_name(symbol: &str) -> (r: Option<String>)
        ensures
            match r {
                Some(name) => zn_crate_name(symbol@) == Some(name@),
                None => zn_crate_name(symbol@) is None,
            },
    {
        let c = chars_of(symbol);
        if c.len() >= 3 && c[0] == '_' && c[1] == 'Z' && c[2] == 'N' {
            let rest = slice_subrange(c.as_slice(), 3, c.len());
            assert(rest@ == c@.skip(3));
            let d = skip_char_digits(rest, 0);
            if d == 0 || d >= rest.len() {
                return None;
            }
            let e = skip_non_digits(rest, d);
            let name = slice_subrange(rest, d, e);
            Some(string_from_chars(name))
        } else {
            None
        }
    }

    /// The functions of the names section that have a crate name, each
    /// with the counters of its `__llvm_prf_data` record (found by the MD5
    /// hash of its name): the first counter is the number of counters of the
    /// records before it. Functions without a record are left out, and
    /// nothing is mapped when the data records cannot be read.
    pub fn get_counter_mappings(&self) -> (r: Vec<CounterMapping>)
        ensures
            ({
                let m = profile_mappings(self.data_view(), self.names_view(), self.counters_view() as int);
                &&& r@.len() == m.len()
                &&& forall|k: int|
                    0 <= k < r@.len() ==> {
                        &&& (#[trigger] r@[k]).name@ == m[k].0
                        &&& r@[k].start_idx == m[k].1
                        &&& r@[k].num_counters == m[k].2
                        &&& r@[k].func_hash == m[k].3
                        &&& r@[k].start_idx + r@[k].num_counters <= self.counters_view()
                    }
            }),
    {
        let mut mappings: Vec<CounterMapping> = Vec::new();
        let records = match SourceMapper::parse_data_records_flexible(self.data.as_slice(), self.num_counters) {
            Some(rs) => rs,
            None => {
                return mappings;
            },
        };
        let names = self.parse_names_section();
        let ghost nv = nul_names(self.names_view());
        let ghost rv = records@;
        let total = self.num_counters;
        let mut idx: usize = 0;
        while idx < names.len()
            invariant
                idx <= names@.len(),
                nv == views_of(names@),
                nv.len() == names@.len(),
                rv == records@,
                counters_before(rv, rv.len()) == total,
                mappings@.len() == mappings_of(nv, rv, idx as nat).len(),
                forall|k: int|
                    0 <= k < mappings@.len() ==> {
                        let m = mappings_of(nv, rv, idx as nat);
                        &&& (#[trigger] mappings@[k]).name@ == m[k].0
                        &&& mappings@[k].start_idx == m[k].1
                        &&& mappings@[k].num_counters == m[k].2
                        &&& mappings@[k].func_hash == m[k].3
                        &&& mappings@[k].start_idx + mappings@[k].num_counters <= total
                    },
            decreases names@.len() - idx,
        {
            let name = &names[idx];
            assert(nv[idx as int] == names@[idx as int]@);
            let ghost prev = mappings_of(nv, rv, idx as nat);
            match Self::extract_crate_name(name.as_str()) {
                Some(_) => {
                    let h = SourceMapper::llvm_name_hash(name.as_str());
                    let mut i: usize = 0;
                    let mut off: usize = 0;
                    while i < records.len() && records[i].name_ref != h
                        invariant
                            i <= rv.len(),
                            rv == records@,
                            off == counters_before(rv, i as nat),
                            counters_before(rv, rv.len()) == total,
                            record_named(rv, h, 0) == record_named(rv, h, i as int),
                        decreases rv.len() - i,
                    {
                        proof {
                            lemma_counters_before_monotone(rv, (i + 1) as nat, rv.len());
                        }
                        off = off + records[i].num_counters as usize;
                        i = i + 1;
                    }
                    if i < records.len() {
                        proof {
                            lemma_counters_before_monotone(rv, (i + 1) as nat, rv.len());
                        }
                        assert(record_named(rv, h, 0) == Some(i as int));
                        let n = name.clone();
                        let num = records[i].num_counters as usize;
                        mappings.push(CounterMapping {
                            name: n,
                            start_idx: off,
                            num_counters: num,
                            func_hash: records[i].func_hash,
                        });
                        assert(mappings_of(nv, rv, (idx + 1) as nat) =~= prev.push(
                            (nv[idx as int], off as nat, num as nat, records@[i as int].func_hash),
                        ));
                    } else {
                        assert(record_named(rv, h, 0) is None);
                        assert(mappings_of(nv, rv, (idx + 1) as nat) =~= prev);
                    }
                },
                None => {
                    assert(mappings_of(nv, rv, (idx + 1) as nat) =~= prev);
                },
            }
            idx = idx + 1;
        }
        mappings
    }

    /// The crate names of the names section, sorted, each once.
    pub fn get_crate_names(&self) -> (r: Vec<String>)
        ensures
            strictly_sorted(views_of(r@)),
            views_of(r@).to_set() == crate_set(
                nul_names(self.names_view()),
                nul_names(self.names_view()).len() as int,
            ),
    {
        let names = self.parse_names_section();
        let ghost nv = nul_names(self.names_view());
        let mut crates: Vec<String> = Vec::new();
        let mut i: usize = 0;
        while i < names.len()
            invariant
                i <= names@.len(),
                nv == views_of(names@),
                strictly_sorted(views_of(crates@)),
                views_of(crates@).to_set() == crate_set(nv, i as int),
            decreases names@.len() - i,
        {
            assert(nv[i as int] == names@[i as int]@);
            match Self::extract_crate_name(names[i].as_str()) {
                Some(c) => {
                    let ghost cv = c@;
                    insert_sorted_unique(&mut crates, c);
                    assert(crate_set(nv, i + 1) =~= crate_set(nv, i as int).insert(cv));
                },
                None => {
                    assert(crate_set(nv, i + 1) =~= crate_set(nv, i as int));
                },
            }
            i = i + 1;
        }
        crates
    }

    /// For each crate of the counter mappings, the counters its functions
    /// cover (the union of their ranges), in increasing order, each once.
    /// Each crate appears once.
    pub fn get_crate_counter_map(&self) -> (r: Vec<(String, Vec<usize>)>)
        ensures
            ({
                let m = profile_mappings(self.data_view(), self.names_view(), self.counters_view() as int);
                &&& forall|i: int, j: int|
                    0 <= i < j < r@.len() ==> (#[trigger] r@[i]).0@ != (#[trigger] r@[j]).0@
                &&& forall|c: Seq<char>|
                    mapping_crates(m, m.len() as int).contains(c) <==> exists|i: int|
                        0 <= i < r@.len() && (#[trigger] r@[i]).0@ == c
                &&& forall|i: int|
                    0 <= i < r@.len() ==> increasing((#[trigger] r@[i]).1@) && r@[i].1@.to_set()
                        == crate_counters(m, r@[i].0@, m.len() as int)
            }),
    {
        let maps = self.get_counter_mappings();
        let ghost m = profile_mappings(self.data_view(), self.names_view(), self.counters_view() as int);
        let mut keys: Vec<String> = Vec::new();
        let mut lists: Vec<Vec<usize>> = Vec::new();
        let mut t: usize = 0;
        while t < maps.len()
            invariant
                t <= maps@.len(),
                maps@.len() == m.len(),
                forall|k: int|
                    0 <= k < maps@.len() ==> {
                        &&& (#[trigger] maps@[k]).name@ == m[k].0
                        &&& maps@[k].start_idx == m[k].1
                        &&& maps@[k].num_counters == m[k].2
                        &&& maps@[k].start_idx + maps@[k].num_counters <= usize::MAX
                    },
                keys@.len() == lists@.len(),
                forall|i: int, j: int|
                    0 <= i < j < keys@.len() ==> (#[trigger] keys@[i])@ != (#[trigger] keys@[j])@,
                forall|c: Seq<char>|
                    mapping_crates(m, t as int).contains(c) <==> exists|i: int|
                        0 <= i < keys@.len() && (#[trigger] keys@[i])@ == c,
                forall|i: int|
                    0 <= i < keys@.len() ==> increasing((#[trigger] lists@[i])@) && lists@[i]@.to_set()
                        == crate_counters(m, keys@[i]@, t as int),
            decreases maps@.len() - t,
        {
            let ghost old_keys = keys@;
            let ghost old_lists = lists@;
            let mp = &maps[t];
            match Self::extract_crate_name(mp.name.as_str()) {
                Some(c) => {
                    let ghost cv = c@;
                    let mut j: usize = 0;
                    while j < keys.len() && !(keys[j] == c)
                        invariant
                            j <= keys@.len(),
                            forall|q: int| 0 <= q < j ==> (#[trigger] keys@[q])@ != c@,
                        decreases keys@.len() - j,
                    {
                        j = j + 1;
                    }
                    let is_new = j == keys.len();
                    if is_new {
                        keys.push(c);
                        lists.push(Vec::new());
                        proof {
                            assert(crate_counters(m, cv, t as int) =~= Set::<usize>::empty()) by {
                                assert forall|x: usize| !crate_counters(m, cv, t as int).contains(x) by {
                                    if crate_counters(m, cv, t as int).contains(x) {
                                        let k = choose|k: int| 0 <= k < t && zn_crate_name((#[trigger] m[k]).0)
                                            == Some(cv) && m[k].1 <= x < m[k].1 + m[k].2;
                                        assert(mapping_crates(m, t as int).contains(cv));
                                    }
                                }
                            }
                            assert(lists@[j as int]@.to_set() =~= Set::<usize>::empty());
                        }
                    }
                    let ghost keys1 = keys@;
                    let ghost lists1 = lists@;
                    let mut l = lists.remove(j);
                    let start = mp.start_idx;
                    let end = mp.start_idx + mp.num_counters;
                    let ghost l0 = l@;
                    let mut x: usize = start;
                    while x < end
                        invariant
                            start <= x <= end,
                            increasing(l@),
                            l@.to_set() == l0.to_set().union(Set::new(|y: usize| start <= y < x)),
                        decreases end - x,
                    {
                        insert_index(&mut l, x);
                        assert(l0.to_set().union(Set::new(|y: usize| start <= y < x + 1)) =~= l0.to_set().union(
                            Set::new(|y: usize| start <= y < x),
                        ).insert(x));
                        x = x + 1;
                    }
                    lists.insert(j, l);
                    proof {
                        assert(keys@ == keys1);
                        assert(lists@ =~= lists1.update(j as int, lists@[j as int]));
                        assert(zn_crate_name(m[t as int].0) == Some(cv));
                        assert forall|i: int| 0 <= i < keys@.len() implies increasing((#[trigger] lists@[i])@)
                            && lists@[i]@.to_set() == crate_counters(m, keys@[i]@, t + 1) by {
                            let ki = keys@[i]@;
                            if i == j {
                                assert(ki == cv);
                                assert forall|y: usize| crate_counters(m, ki, t + 1).contains(y) <==> lists@[i]@.to_set().contains(y) by {
                                    if crate_counters(m, ki, t + 1).contains(y) {
                                        let k = choose|k: int| 0 <= k < t + 1 && zn_crate_name((#[trigger] m[k]).0)
                                            == Some(ki) && m[k].1 <= y < m[k].1 + m[k].2;
                                        if k < t {
                                            assert(crate_counters(m, ki, t as int).contains(y));
                                        }
                                    }
                                    if lists@[i]@.to_set().contains(y) {
                                        if l0.to_set().contains(y) {
                                            assert(crate_counters(m, ki, t as int).contains(y));
                                            let k = choose|k: int| 0 <= k < t && zn_crate_name((#[trigger] m[k]).0)
                                                == Some(ki) && m[k].1 <= y < m[k].1 + m[k].2;
                                        } else {
                                            assert(start <= y < end);
                                            assert(m[t as int].1 <= y < m[t as int].1 + m[t as int].2);
                                        }
                                    }
                                }
                                assert(lists@[i]@.to_set() =~= crate_counters(m, ki, t + 1));
                            } else {
                                assert(lists@[i] == lists1[i]);
                                assert(ki != cv);
                                if i < old_keys.len() {
                                    assert(keys@[i] == old_keys[i]);
                                    assert(lists1[i] == old_lists[i]);
                                }
                                assert forall|y: usize| crate_counters(m, ki, t + 1).contains(y) <==> crate_counters(m, ki, t as int).contains(y) by {
                                    if crate_counters(m, ki, t + 1).contains(y) {
                                        let k = choose|k: int| 0 <= k < t + 1 && zn_crate_name((#[trigger] m[k]).0)
                                            == Some(ki) && m[k].1 <= y < m[k].1 + m[k].2;
                                        assert(k != t);
                                    }
                                }
                                assert(crate_counters(m, ki, t + 1) =~= crate_counters(m, ki, t as int));
                            }
                        }
                        assert forall|c2: Seq<char>| #[trigger] mapping_crates(m, t + 1).contains(c2) <==> exists|i: int|
                            0 <= i < keys@.len() && (#[trigger] keys@[i])@ == c2 by {
                            if mapping_crates(m, t + 1).contains(c2) && c2 != cv {
                                let k = choose|k: int| 0 <= k < t + 1 && zn_crate_name((#[trigger] m[k]).0) == Some(c2);
                                assert(k != t);
                                assert(mapping_crates(m, t as int).contains(c2));
                                let i = choose|i: int| 0 <= i < old_keys.len() && (#[trigger] old_keys[i])@ == c2;
                                assert(keys@[i] == old_keys[i]);
                            }
                            if c2 == cv {
                                assert(keys@[j as int]@ == c2);
                                assert(mapping_crates(m, t + 1).contains(c2)) by {
                                    assert(zn_crate_name(m[t as int].0) == Some(c2));
                                }
                            }
                            if exists|i: int| 0 <= i < keys@.len() && (#[trigger] keys@[i])@ == c2 {
                                let i = choose|i: int| 0 <= i < keys@.len() && (#[trigger] keys@[i])@ == c2;
                                if i < old_keys.len() {
                                    assert(old_keys[i]@ == c2);
                                    assert(mapping_crates(m, t as int).contains(c2));
                                    let k = choose|k: int| 0 <= k < t && zn_crate_name((#[trigger] m[k]).0) == Some(c2);
                                    assert(mapping_crates(m, t + 1).contains(c2)) by {
                                        assert(zn_crate_name(m[k].0) == Some(c2));
                                    }
                                }
                            }
                        }
                    }
                },
                None => {
                    proof {
                        assert(zn_crate_name(m[t as int].0) is None);
                        assert forall|i: int| 0 <= i < keys@.len() implies increasing((#[trigger] lists@[i])@)
                            && lists@[i]@.to_set() == crate_counters(m, keys@[i]@, t + 1) by {
                            let ki = keys@[i]@;
                            assert forall|y: usize| crate_counters(m, ki, t + 1).contains(y) <==> crate_counters(m, ki, t as int).contains(y) by {
                                if crate_counters(m, ki, t + 1).contains(y) {
                                    let k = choose|k: int| 0 <= k < t + 1 && zn_crate_name((#[trigger] m[k]).0)
                                        == Some(ki) && m[k].1 <= y < m[k].1 + m[k].2;
                                    assert(k != t);
                                }
                            }
                            assert(crate_counters(m, ki, t + 1) =~= crate_counters(m, ki, t as int));
                        }
                        assert forall|c2: Seq<char>| #[trigger] mapping_crates(m, t + 1).contains(c2)
                            <==> mapping_crates(m, t as int).contains(c2) by {
                            if mapping_crates(m, t + 1).contains(c2) {
                                let k = choose|k: int| 0 <= k < t + 1 && zn_crate_name((#[trigger] m[k]).0) == Some(c2);
                                assert(k != t);
                            }
                        }
                    }
                },
            }
            t = t + 1;
        }
        let mut out: Vec<(String, Vec<usize>)> = Vec::new();
        let ghost all_keys = keys@;
        let ghost all_lists = lists@;
        while keys.len() > 0
            invariant
                keys@.len() == lists@.len(),
                keys@ == all_keys.take(keys@.len() as int),
                lists@ == all_lists.take(lists@.len() as int),
                all_keys.len() == all_lists.len(),
                out@.len() + keys@.len() == all_keys.len(),
                forall|i: int|
                    0 <= i < out@.len() ==> (#[trigger] out@[i]).0 == all_keys[all_keys.len() - 1 - i]
                        && out@[i].1 == all_lists[all_keys.len() - 1 - i],
            decreases keys@.len(),
        {
            let k = keys.pop().unwrap();
            let l = lists.pop().unwrap();
            out.push((k, l));
        }
        assert forall|i: int, j: int| 0 <= i < j < out@.len() implies (#[trigger] out@[i]).0@ != (
        #[trigger] out@[j]).0@ by {
            assert(out@[i].0 == all_keys[all_keys.len() - 1 - i]);
            assert(out@[j].0 == all_keys[all_keys.len() - 1 - j]);
        }
        assert forall|c: Seq<char>| #[trigger] mapping_crates(m, m.len() as int).contains(c) <==> exists|i: int|
            0 <= i < out@.len() && (#[trigger] out@[i]).0@ == c by {
            if mapping_crates(m, m.len() as int).contains(c) {
                let t = choose|t: int| 0 <= t < all_keys.len() && (#[trigger] all_keys[t])@ == c;
                assert(out@[all_keys.len() - 1 - t].0@ == c);
            }
            if exists|i: int| 0 <= i < out@.len() && (#[trigger] out@[i]).0@ == c {
                let i = choose|i: int| 0 <= i < out@.len() && (#[trigger] out@[i]).0@ == c;
                assert(all_keys[all_keys.len() - 1 - i]@ == c);
            }
        }
        assert forall|i: int| 0 <= i < out@.len() implies increasing((#[trigger] out@[i]).1@) && out@[i].1@.to_set()
            == crate_counters(m, out@[i].0@, m.len() as int) by {
            let q = all_keys.len() - 1 - i;
            assert(increasing(all_lists[q]@) && all_lists[q]@.to_set() == crate_counters(m, all_keys[q]@, m.len() as int));
        }
        out
    }
}

} // verus!
