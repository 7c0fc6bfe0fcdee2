//! Binary formats of the LLVM profile sections: little-endian integers,
//! ULEB128, `__llvm_prf_data` records, `__llvm_prf_names` blocks and the
//! crate names carried by (mangled) symbol names.
use vstd::prelude::*;
use vstd::arithmetic::power2::{pow2, lemma2_to64, lemma_pow2_adds};
use crate::coverage_source_map::SourceMapper;
use crate::text::{
    bytes_of, string_from_utf8, string_from_chars, utf8_of, first_occurrence, chars_of,
    chars_find_from, lemma_first_occurrence_sound,
};
use vstd::utf8::{valid_utf8, decode_utf8};
use vstd::slice::slice_subrange;
use std::io::Read;
use std::collections::HashSet;

verus! {

broadcast use vstd::std_specs::hash::group_hash_axioms;

// ---------------------------------------------------------------------------
// Little-endian integers and ULEB128
// ---------------------------------------------------------------------------

/// The little-endian `u64` stored at `s[off..off + 8]`.
pub open spec fn le_u64_at(s: Seq<u8>, off: int) -> int {
    s[off] + 0x100 * s[off + 1] + 0x1_0000 * s[off + 2] + 0x100_0000 * s[off + 3]
        + 0x1_0000_0000 * s[off + 4] + 0x100_0000_0000 * s[off + 5]
        + 0x1_0000_0000_0000 * s[off + 6] + 0x100_0000_0000_0000 * s[off + 7]
}

/// The little-endian `u32` stored at `s[off..off + 4]`.
pub open spec fn le_u32_at(s: Seq<u8>, off: int) -> int {
    s[off] + 0x100 * s[off + 1] + 0x1_0000 * s[off + 2] + 0x100_0000 * s[off + 3]
}

/// Reads the little-endian `u64` at `off`.
pub fn read_u64_le(data: &[u8], off: usize) -> (r: u64)
    requires
        off + 8 <= data@.len(),
    ensures
        r == le_u64_at(data@, off as int),
{
    (data[off] as u64) + 0x100 * (data[off + 1] as u64) + 0x1_0000 * (data[off + 2] as u64)
        + 0x100_0000 * (data[off + 3] as u64) + 0x1_0000_0000 * (data[off + 4] as u64)
        + 0x100_0000_0000 * (data[off + 5] as u64) + 0x1_0000_0000_0000 * (data[off + 6] as u64)
        + 0x100_0000_0000_0000 * (data[off + 7] as u64)
}

/// Reads the little-endian `u32` at `off`.
pub fn read_u32_le(data: &[u8], off: usize) -> (r: u32)
    requires
        off + 4 <= data@.len(),
    ensures
        r == le_u32_at(data@, off as int),
{
    (data[off] as u32) + 0x100 * (data[off + 1] as u32) + 0x1_0000 * (data[off + 2] as u32)
        + 0x100_0000 * (data[off + 3] as u32)
}

/// Sum of the low seven bits of `s[0..k]`, the `i`-th group weighted by `2^(7i)`.
pub open spec fn uleb_value(s: Seq<u8>, k: nat) -> nat
    decreases k,
{
    if k == 0 {
        0
    } else {
        uleb_value(s, (k - 1) as nat) + (s[k - 1] % 128) as nat * pow2((7 * (k - 1)) as nat)
    }
}

/// The ULEB128 encoding at the start of `s` ends with byte `k`: bytes before
/// `k` carry the continuation bit, byte `k` does not, and at most ten bytes are
/// used.
pub open spec fn uleb_ends_at(s: Seq<u8>, k: int) -> bool {
    &&& 0 <= k < s.len()
    &&& k < 10
    &&& s[k] < 128
    &&& forall|i: int| 0 <= i < k ==> s[i] >= 128
}

/// The value and length of the ULEB128 encoding at the start of `s`, or
/// `(0, 0)` when there is none.
pub open spec fn uleb_decode(s: Seq<u8>) -> (u64, nat) {
    if exists|k: int| uleb_ends_at(s, k) {
        let k = choose|k: int| uleb_ends_at(s, k);
        ((uleb_value(s, (k + 1) as nat) % pow2(64)) as u64, (k + 1) as nat)
    } else {
        (0, 0)
    }
}

proof fn lemma_uleb_end_unique(s: Seq<u8>, k1: int, k2: int)
    requires
        uleb_ends_at(s, k1),
        uleb_ends_at(s, k2),
    ensures
        k1 == k2,
{
    if k1 < k2 {
        assert(s[k1] >= 128);
    } else if k2 < k1 {
        assert(s[k2] >= 128);
    }
}

proof fn lemma_uleb_value_bound(s: Seq<u8>, k: nat)
    ensures
        uleb_value(s, k) < pow2(7 * k),
    decreases k,
{
    lemma2_to64();
    if k > 0 {
        let km: nat = (k - 1) as nat;
        lemma_uleb_value_bound(s, km);
        lemma_pow2_adds(7 * km, 7);
        assert(7 * km + 7 == 7 * k);
        let p = pow2(7 * km);
        let d = (s[k - 1] % 128) as nat;
        assert(d * p <= 127 * p) by (nonlinear_arith)
            requires
                d <= 127,
        ;
        assert(uleb_value(s, k) == uleb_value(s, km) + d * p);
        assert(pow2(7 * k) == p * 128);
    }
}

impl SourceMapper {
/// Decodes an unsigned LEB128 value at the start of `data`: the value (taken
/// modulo 2^64) and the number of bytes read, or `(0, 0)` when the data ends
/// before the encoding does or the encoding is longer than ten bytes.
pub fn decode_uleb128(data: &[u8]) -> (r: (u64, usize))
    ensures
        (r.0, r.1 as nat) == uleb_decode(data@),
        r.1 > 0 ==> uleb_ends_at(data@, r.1 - 1) && r.0 == uleb_value(data@, r.1 as nat) % pow2(64),
        r.1 == 0 ==> r.0 == 0 && forall|k: int| !uleb_ends_at(data@, k),
{
    let mut acc: u128 = 0;
    let mut mult: u128 = 1;
    let mut i: usize = 0;
    proof {
        lemma2_to64();
    }
    while i < data.len()
        invariant
            i <= data@.len(),
            i < 10,
            acc == uleb_value(data@, i as nat),
            mult == pow2((7 * i) as nat),
            forall|j: int| 0 <= j < i ==> data@[j] >= 128,
        decreases data@.len() - i,
    {
        let byte = data[i];
        proof {
            lemma_uleb_value_bound(data@, i as nat);
            vstd::arithmetic::power2::lemma_pow2_strictly_increases((7 * i) as nat, 64);
            lemma2_to64();
            vstd::arithmetic::power2::lemma2_to64_rest();
        }
        assert(byte & 0x7f == byte % 128) by (bit_vector);
        let low: u128 = (byte & 0x7f) as u128;
        assert(low * mult <= 127 * pow2(63)) by (nonlinear_arith)
            requires
                low <= 127,
                mult <= pow2(63),
        ;
        acc = acc + low * mult;
        if byte & 0x80 == 0 {
            assert(byte & 0x80 == 0 ==> byte < 128) by (bit_vector);
            proof {
                lemma_uleb_value_bound(data@, (i + 1) as nat);
            }
            let v: u64 = (acc % 0x1_0000_0000_0000_0000u128) as u64;
            proof {
                assert(uleb_ends_at(data@, i as int));
                let k = choose|k: int| uleb_ends_at(data@, k);
                lemma_uleb_end_unique(data@, k, i as int);
            }
            return (v, i + 1);
        }
        assert(byte & 0x80 != 0 ==> byte >= 128) by (bit_vector);
        if i == 9 {
            assert forall|k: int| !uleb_ends_at(data@, k) by {
                if uleb_ends_at(data@, k) {
                    assert(k <= 9);
                    assert(data@[k] < 128);
                }
            }
            return (0, 0);
        }
        proof {
            lemma_pow2_adds((7 * i) as nat, 7);
        }
        mult = mult * 128;
        i = i + 1;
    }
    assert forall|k: int| !uleb_ends_at(data@, k) by {
        if uleb_ends_at(data@, k) {
            assert(data@[k] < 128);
        }
    }
    (0, 0)
}
}

// ---------------------------------------------------------------------------
// Profile data records
// ---------------------------------------------------------------------------

/// The fields of a `__llvm_prf_data` record that the library reads.
#[derive(Debug, Clone, Copy, PartialEq, Eq)]
pub struct ProfDataRecord {
    /// MD5 of the function name, truncated to 64 bits (little-endian).
    pub name_ref: u64,
    /// Hash of the function's control flow (`FuncHash`, at offset 8).
    pub func_hash: u64,
    /// Number of counters of the function.
    pub num_counters: u32,
}

/// Record size of the `j`-th layout tried, in the order of trial.
pub open spec fn layout_record_size(j: int) -> int {
    let k = j / 6;
    if k == 0 { 48 } else if k == 1 { 56 } else if k == 2 { 64 } else if k == 3 { 72 } else { 40 }
}

/// Offset of `NumCounters` in the `j`-th layout tried.
pub open spec fn layout_counters_offset(j: int) -> int {
    let k = j % 6;
    if k == 0 {
        40
    } else if k == 1 {
        48
    } else if k == 2 {
        32
    } else if k == 3 {
        52
    } else if k == 4 {
        44
    } else {
        36
    }
}

/// Number of layouts tried.
pub open spec fn layout_count() -> int {
    30
}

/// `NumCounters` of record `i` under record size `rs` and offset `nc`.
pub open spec fn record_counters(data: Seq<u8>, rs: int, nc: int, i: int) -> int {
    le_u32_at(data, i * rs + nc)
}

/// Sum of `NumCounters` over the first `n` records.
pub open spec fn counters_sum(data: Seq<u8>, rs: int, nc: int, n: nat) -> int
    decreases n,
{
    if n == 0 {
        0
    } else {
        counters_sum(data, rs, nc, (n - 1) as nat) + record_counters(data, rs, nc, n - 1)
    }
}

/// Sum of `num_counters` over the first `k` records.
pub open spec fn counters_before(records: Seq<ProfDataRecord>, k: nat) -> nat
    decreases k,
{
    if k == 0 || k > records.len() {
        0
    } else {
        counters_before(records, (k - 1) as nat) + records[k - 1].num_counters as nat
    }
}

proof fn lemma_counters_before_push(records: Seq<ProfDataRecord>, x: ProfDataRecord, k: nat)
    requires
        k <= records.len(),
    ensures
        counters_before(records.push(x), k) == counters_before(records, k),
    decreases k,
{
    if k > 0 {
        lemma_counters_before_push(records, x, (k - 1) as nat);
    }
}

pub proof fn lemma_counters_before_monotone(records: Seq<ProfDataRecord>, k: nat, n: nat)
    requires
        k <= n <= records.len(),
    ensures
        counters_before(records, k) <= counters_before(records, n),
    decreases n - k,
{
    if k < n {
        lemma_counters_before_monotone(records, k, (n - 1) as nat);
    }
}

/// Whether records of size `rs` with `NumCounters` at `nc` tile `data` and
/// account for exactly `total` counters, each record having at most 100000.
pub open spec fn layout_fits(data: Seq<u8>, rs: int, nc: int, total: int) -> bool {
    &&& (data.len() as int) % rs == 0
    &&& nc + 4 <= rs
    &&& forall|i: int| 0 <= i < (data.len() as int) / rs ==> record_counters(data, rs, nc, i) <= 100_000
    &&& counters_sum(data, rs, nc, ((data.len() as int) / rs) as nat) == total
}

/// The first layout, from the `j`-th on, that fits.
pub open spec fn first_fitting_layout(data: Seq<u8>, total: int, j: int) -> Option<int>
    decreases layout_count() - j,
{
    if j >= layout_count() || j < 0 {
        None
    } else if layout_fits(data, layout_record_size(j), layout_counters_offset(j), total) {
        Some(j)
    } else {
        first_fitting_layout(data, total, j + 1)
    }
}

/// The records read from `data` under the layout numbered `j`.
pub open spec fn records_under(data: Seq<u8>, j: int) -> Seq<ProfDataRecord> {
    let rs = layout_record_size(j);
    let nc = layout_counters_offset(j);
    Seq::new(
        ((data.len() as int) / rs) as nat,
        |i: int|
            ProfDataRecord {
                name_ref: le_u64_at(data, i * rs) as u64,
                func_hash: le_u64_at(data, i * rs + 8) as u64,
                num_counters: record_counters(data, rs, nc, i) as u32,
            },
    )
}

/// The records of a `__llvm_prf_data` section: the first layout that fits, if
/// any, read off the section; nothing for empty data or no counters.
pub open spec fn data_records(data: Seq<u8>, total: int) -> Option<Seq<ProfDataRecord>> {
    if data.len() == 0 || total == 0 {
        None
    } else {
        match first_fitting_layout(data, total, 0) {
            Some(j) => Some(records_under(data, j)),
            None => None,
        }
    }
}

fn layout_of(j: usize) -> (r: (usize, usize))
    requires
        j < 30,
    ensures
        r.0 == layout_record_size(j as int),
        r.1 == layout_counters_offset(j as int),
{
    let k = j / 6;
    let rs: usize = if k == 0 {
        48
    } else if k == 1 {
        56
    } else if k == 2 {
        64
    } else if k == 3 {
        72
    } else {
        40
    };
    let m = j % 6;
    let nc: usize = if m == 0 {
        40
    } else if m == 1 {
        48
    } else if m == 2 {
        32
    } else if m == 3 {
        52
    } else if m == 4 {
        44
    } else {
        36
    };
    (rs, nc)
}

/// Reads the records under one layout when it fits.
fn records_if_fitting(data: &[u8], rs: usize, nc: usize, total_counters: usize) -> (r: Option<
    Vec<ProfDataRecord>,
>)
    requires
        40 <= rs <= 72,
        32 <= nc <= 52,
    ensures
        r is Some <==> layout_fits(data@, rs as int, nc as int, total_counters as int),
        r matches Some(v) ==> counters_before(v@, v@.len()) == total_counters,
        r matches Some(v) ==> v@.len() == (data@.len() as int) / (rs as int) && forall|i: int|
            0 <= i < v@.len() ==> v@[i] == (ProfDataRecord {
                name_ref: le_u64_at(data@, i * rs) as u64,
                func_hash: le_u64_at(data@, i * rs + 8) as u64,
                num_counters: record_counters(data@, rs as int, nc as int, i) as u32,
            }),
{
    if data.len() % rs != 0 || nc + 4 > rs {
        return None;
    }
    let num_records = data.len() / rs;
    let mut records: Vec<ProfDataRecord> = Vec::new();
    let mut total: u128 = 0;
    let mut i: usize = 0;
    while i < num_records
        invariant
            num_records == (data@.len() as int) / (rs as int),
            (data@.len() as int) % (rs as int) == 0,
            nc + 4 <= rs,
            40 <= rs <= 72,
            i <= num_records,
            records@.len() == i,
            total == counters_sum(data@, rs as int, nc as int, i as nat),
            total == counters_before(records@, i as nat),
            total <= 100_000 * i,
            forall|k: int| 0 <= k < i ==> record_counters(data@, rs as int, nc as int, k) <= 100_000,
            forall|k: int|
                0 <= k < i ==> records@[k] == (ProfDataRecord {
                    name_ref: le_u64_at(data@, k * rs) as u64,
                    func_hash: le_u64_at(data@, k * rs + 8) as u64,
                    num_counters: record_counters(data@, rs as int, nc as int, k) as u32,
                }),
        decreases num_records - i,
    {
        assert((i + 1) * rs <= num_records * rs) by (nonlinear_arith)
            requires
                i + 1 <= num_records,
        ;
        assert(num_records * rs == data@.len()) by (nonlinear_arith)
            requires
                num_records == (data@.len() as int) / (rs as int),
                (data@.len() as int) % (rs as int) == 0,
                rs > 0,
        ;
        assert(i * rs + rs == (i + 1) * rs) by (nonlinear_arith);
        assert(i * rs + rs <= data.len());
        let base = i * rs;
        let name_ref = read_u64_le(data, base);
        let func_hash = read_u64_le(data, base + 8);
        let num_counters = read_u32_le(data, base + nc);
        assert(num_counters == record_counters(data@, rs as int, nc as int, i as int));
        if num_counters > 100_000 {
            return None;
        }
        total = total + num_counters as u128;
        let ghost prev = records@;
        records.push(ProfDataRecord { name_ref, func_hash, num_counters });
        proof {
            assert forall|k: nat| k <= i implies counters_before(records@, k) == counters_before(prev, k) by {
                lemma_counters_before_push(prev, ProfDataRecord { name_ref, func_hash, num_counters }, k);
            }
        }
        i = i + 1;
    }
    if total == total_counters as u128 {
        Some(records)
    } else {
        None
    }
}

impl SourceMapper {
/// Parses `__llvm_prf_data` records, detecting the layout: the first of the
/// known record sizes and `NumCounters` offsets under which the counts sum to
/// `total_counters` (each at most 100000). `NameRef` is at offset 0.
pub fn parse_data_records_flexible(data: &[u8], total_counters: usize) -> (r: Option<
    Vec<ProfDataRecord>,
>)
    ensures
        match r {
            Some(v) => data_records(data@, total_counters as int) == Some(v@),
            None => data_records(data@, total_counters as int) is None,
        },
        r matches Some(v) ==> counters_before(v@, v@.len()) == total_counters,
{
    if data.len() == 0 || total_counters == 0 {
        return None;
    }
    let mut j: usize = 0;
    while j < 30
        invariant
            j <= 30,
            data@.len() > 0,
            total_counters > 0,
            first_fitting_layout(data@, total_counters as int, 0) == first_fitting_layout(
                data@,
                total_counters as int,
                j as int,
            ),
        decreases 30 - j,
    {
        let (rs, nc) = layout_of(j);
        match records_if_fitting(data, rs, nc, total_counters) {
            Some(records) => {
                assert(records@ == records_under(data@, j as int));
                return Some(records);
            },
            None => {},
        }
        j = j + 1;
    }
    None
}
}


// ---------------------------------------------------------------------------
// Crate names in symbol names
// ---------------------------------------------------------------------------

/// Whether `c` is alphanumeric in Unicode's sense (`char::is_alphanumeric`).
pub uninterp spec fn unicode_alphanumeric(c: char) -> bool;

/// ASCII letter or digit.
pub open spec fn ascii_alphanumeric(c: char) -> bool {
    ('0' <= c <= '9') || ('a' <= c <= 'z') || ('A' <= c <= 'Z')
}

/// `char::is_alphanumeric`: whether the character is alphabetic or numeric.
/// The contract names the result, and states, as the documentation does, that
/// on ASCII it holds exactly of letters and digits.
#[verifier::external_body]
fn char_is_alphanumeric(c: char) -> (r: bool)
    ensures
        r == unicode_alphanumeric(c),
        (c as u32) < 128 ==> (r <==> ascii_alphanumeric(c)),
{
    c.is_alphanumeric()
}

/// Alphanumeric: on ASCII a letter or a digit, beyond it in Unicode's sense.
pub open spec fn alphanumeric(c: char) -> bool {
    if (c as u32) < 128 {
        ascii_alphanumeric(c)
    } else {
        unicode_alphanumeric(c)
    }
}

/// Characters a crate name may hold: alphanumerics and `_`.
pub open spec fn crate_name_chars(cs: Seq<char>) -> bool {
    forall|k: int| 0 <= k < cs.len() ==> alphanumeric(#[trigger] cs[k]) || cs[k] == '_'
}

pub(crate) fn all_crate_name_chars(cs: &[char]) -> (r: bool)
    ensures
        r == crate_name_chars(cs@),
{
    let mut i: usize = 0;
    while i < cs.len()
        invariant
            i <= cs@.len(),
            crate_name_chars(cs@.take(i as int)),
            forall|k: int| 0 <= k < i ==> alphanumeric(#[trigger] cs@[k]) || cs@[k] == '_',
        decreases cs@.len() - i,
    {
        let c = cs[i];
        if !(char_is_alphanumeric(c) || c == '_') {
            return false;
        }
        i = i + 1;
    }
    true
}

pub open spec fn is_digit_byte(b: u8) -> bool {
    48 <= b <= 57
}

pub open spec fn is_alnum_byte(b: u8) -> bool {
    (48 <= b <= 57) || (65 <= b <= 90) || (97 <= b <= 122)
}

/// Length of the run of ASCII digits in `s` from `pos`.
pub open spec fn digit_run(s: Seq<u8>, pos: int) -> nat
    decreases s.len() - pos,
{
    if 0 <= pos < s.len() && is_digit_byte(s[pos]) {
        1 + digit_run(s, pos + 1)
    } else {
        0
    }
}

/// Length of the run of ASCII letters and digits in `s` from `pos`.
pub open spec fn alnum_run(s: Seq<u8>, pos: int) -> nat
    decreases s.len() - pos,
{
    if 0 <= pos < s.len() && is_alnum_byte(s[pos]) {
        1 + alnum_run(s, pos + 1)
    } else {
        0
    }
}

/// The number written in decimal by the digits `s`.
pub open spec fn decimal_value(s: Seq<u8>) -> nat
    decreases s.len(),
{
    if s.len() == 0 {
        0
    } else {
        decimal_value(s.drop_last()) * 10 + (s.last() - 48) as nat
    }
}

fn skip_digits(s: &[u8], pos: usize) -> (r: usize)
    requires
        pos <= s@.len(),
    ensures
        r == pos + digit_run(s@, pos as int),
        r <= s@.len(),
    decreases s@.len() - pos,
{
    if pos < s.len() && 48 <= s[pos] && s[pos] <= 57 {
        skip_digits(s, pos + 1)
    } else {
        pos
    }
}

fn skip_alnum(s: &[u8], pos: usize) -> (r: usize)
    requires
        pos <= s@.len(),
    ensures
        r == pos + alnum_run(s@, pos as int),
        r <= s@.len(),
    decreases s@.len() - pos,
{
    if pos < s.len() && ((48 <= s[pos] && s[pos] <= 57) || (65 <= s[pos] && s[pos] <= 90) || (97
        <= s[pos] && s[pos] <= 122)) {
        skip_alnum(s, pos + 1)
    } else {
        pos
    }
}

proof fn lemma_digit_run_digits(s: Seq<u8>, pos: int, k: int)
    requires
        0 <= pos,
        pos <= k < pos + digit_run(s, pos),
    ensures
        k < s.len(),
        is_digit_byte(s[k]),
    decreases k - pos,
{
    if k > pos {
        lemma_digit_run_digits(s, pos + 1, k);
    }
}

/// The value of the decimal digits `s[lo..hi]`, when it fits in `usize`.
fn parse_decimal(s: &[u8], lo: usize, hi: usize) -> (r: Option<usize>)
    requires
        lo <= hi <= s@.len(),
        forall|k: int| lo <= k < hi ==> is_digit_byte(s@[k]),
    ensures
        match r {
            Some(v) => v == decimal_value(s@.subrange(lo as int, hi as int)),
            None => decimal_value(s@.subrange(lo as int, hi as int)) > usize::MAX,
        },
{
    let mut v: usize = 0;
    let mut i: usize = lo;
    while i < hi
        invariant
            lo <= i <= hi <= s@.len(),
            forall|k: int| lo <= k < hi ==> is_digit_byte(s@[k]),
            v == decimal_value(s@.subrange(lo as int, i as int)),
        decreases hi - i,
    {
        let d = (s[i] - 48) as usize;
        assert(s@.subrange(lo as int, i + 1).drop_last() == s@.subrange(lo as int, i as int));
        let next = match v.checked_mul(10) {
            Some(m) => m.checked_add(d),
            None => None,
        };
        match next {
            Some(n) => {
                v = n;
            },
            None => {
                proof {
                    lemma_decimal_value_monotone(s@.subrange(lo as int, hi as int), (i + 1 - lo) as nat);
                    assert(s@.subrange(lo as int, hi as int).take(i + 1 - lo) == s@.subrange(lo as int, i + 1));
                }
                return None;
            },
        }
        i = i + 1;
    }
    Some(v)
}

proof fn lemma_decimal_value_monotone(s: Seq<u8>, k: nat)
    requires
        k <= s.len(),
        forall|j: int| 0 <= j < s.len() ==> is_digit_byte(s[j]),
    ensures
        decimal_value(s.take(k as int)) <= decimal_value(s),
    decreases s.len(),
{
    if k < s.len() {
        assert(s.drop_last().take(k as int) == s.take(k as int));
        lemma_decimal_value_monotone(s.drop_last(), k);
        assert(decimal_value(s) == decimal_value(s.drop_last()) * 10 + (s.last() - 48) as nat);
    } else {
        assert(s.take(k as int) == s);
    }
}

/// Scan of length-prefixed components from `pos` (legacy mangling, after
/// `_ZN`): `None` when a length does not fit in `usize` or a component does not
/// cut the text at character boundaries; otherwise the byte range of the first
/// component, if there is one. The scan stops where no length is found or a
/// component would run past the end.
pub open spec fn legacy_first_component(s: Seq<u8>, pos: int) -> Option<Option<(int, int)>>
    decreases s.len() - pos,
{
    if pos < 0 || pos >= s.len() {
        Some(None)
    } else {
        let d = digit_run(s, pos) as int;
        if d == 0 {
            Some(None)
        } else {
            let v = decimal_value(s.subrange(pos, pos + d));
            if v > usize::MAX {
                None
            } else {
                let start = pos + d;
                let end = start + v;
                if end > s.len() {
                    Some(None)
                } else if !valid_utf8(s.subrange(start, end)) {
                    None
                } else {
                    match legacy_first_component(s, end) {
                        None => None,
                        Some(_) => Some(Some((start, end))),
                    }
                }
            }
        }
    }
}

/// Crate name of a legacy-mangled symbol given the text after `_ZN`: its first
/// length-prefixed component.
pub open spec fn legacy_crate(s: Seq<u8>) -> Option<Seq<char>> {
    match legacy_first_component(s, 0) {
        Some(Some((a, b))) => Some(decode_utf8(s.subrange(a, b))),
        _ => None,
    }
}

/// Outcome of a crate root `C` at byte `i` of a v0-mangled symbol: `None` when
/// its length does not fit in `usize` or its name does not cut the text at
/// character boundaries; `Some(None)` when it does not introduce a crate name;
/// otherwise the byte range of the name.
pub open spec fn v0_candidate(s: Seq<u8>, i: int) -> Option<Option<(int, int)>> {
    let p0 = i + 1;
    let has_disambiguator = p0 < s.len() && s[p0] == 115;
    let q = p0 + 1 + alnum_run(s, p0 + 1);
    if has_disambiguator && (q >= s.len() || s[q] != 95) {
        Some(None)
    } else {
        let p1 = if has_disambiguator { q + 1 } else { p0 };
        let d = digit_run(s, p1) as int;
        if d == 0 {
            Some(None)
        } else {
            let v = decimal_value(s.subrange(p1, p1 + d));
            if v > usize::MAX {
                None
            } else {
                let start = p1 + d;
                if start + v > s.len() {
                    Some(None)
                } else if !valid_utf8(s.subrange(start, start + v)) {
                    None
                } else if v > 0 && crate_name_chars(decode_utf8(s.subrange(start, start + v))) {
                    Some(Some((start, start + v)))
                } else {
                    Some(None)
                }
            }
        }
    }
}

/// Scan for the first crate root of a v0-mangled symbol from byte `i`.
pub open spec fn v0_scan(s: Seq<u8>, i: int) -> Option<Option<(int, int)>>
    decreases s.len() - i,
{
    if i < 0 || i >= s.len() {
        Some(None)
    } else if s[i] != 67 {
        v0_scan(s, i + 1)
    } else {
        match v0_candidate(s, i) {
            Some(None) => v0_scan(s, i + 1),
            other => other,
        }
    }
}

/// Crate name of a v0-mangled symbol given the text after `_R`.
pub open spec fn v0_crate(s: Seq<u8>) -> Option<Seq<char>> {
    match v0_scan(s, 0) {
        Some(Some((a, b))) => Some(decode_utf8(s.subrange(a, b))),
        _ => None,
    }
}

/// Crate name of an unmangled path `crate::...`: the text before the first
/// `::`, when it is a non-empty run of alphanumerics and `_`.
pub open spec fn path_crate(c: Seq<char>) -> Option<Seq<char>> {
    match first_occurrence(c, seq![':', ':']) {
        Some(i) => {
            let name = c.take(i);
            if name.len() > 0 && crate_name_chars(name) {
                Some(name)
            } else {
                None
            }
        },
        None => None,
    }
}

/// The crate a symbol belongs to: legacy mangling (`_ZN`), v0 mangling
/// (`_R`) or an unmangled path.
pub open spec fn symbol_crate(symbol: Seq<char>) -> Option<Seq<char>> {
    let b = utf8_of(symbol);
    if b.len() >= 3 && b[0] == 95 && b[1] == 90 && b[2] == 78 {
        legacy_crate(b.skip(3))
    } else if b.len() >= 2 && b[0] == 95 && b[1] == 82 {
        v0_crate(b.skip(2))
    } else {
        path_crate(symbol)
    }
}

/// Combines the first component found so far with the outcome of the rest of
/// a scan.
pub open spec fn keep_first(
    first: Option<(int, int)>,
    rest: Option<Option<(int, int)>>,
) -> Option<Option<(int, int)>> {
    match rest {
        None => None,
        Some(r) => Some(
            match first {
                Some(f) => Some(f),
                None => r,
            },
        ),
    }
}

impl SourceMapper {
    /// Crate name of a legacy-mangled symbol, given the text after `_ZN`.
    /// Where a component would cut a UTF-8 character in two, the result is
    /// `None`.
    pub fn parse_legacy_mangling(s: &[u8]) -> (r: Option<String>)
        ensures
            match r {
                Some(name) => legacy_crate(s@) == Some(name@),
                None => legacy_crate(s@) is None,
            },
    {
        let mut pos: usize = 0;
        let mut first: Option<(usize, usize)> = None;
        while pos < s.len()
            invariant_except_break
                legacy_first_component(s@, 0) == keep_first(
                    match first {
                        Some((a, b)) => Some((a as int, b as int)),
                        None => None,
                    },
                    legacy_first_component(s@, pos as int),
                ),
            invariant
                pos <= s@.len(),
                first matches Some((a, b)) ==> a <= b <= s@.len() && valid_utf8(
                    s@.subrange(a as int, b as int),
                ),
            ensures
                legacy_first_component(s@, 0) == Some(
                    match first {
                        Some((a, b)) => Some((a as int, b as int)),
                        None => None,
                    },
                ),
            decreases s@.len() - pos,
        {
            let digits_end = skip_digits(s, pos);
            if digits_end == pos {
                break;
            }
            proof {
                assert forall|k: int| pos <= k < digits_end implies is_digit_byte(s@[k]) by {
                    lemma_digit_run_digits(s@, pos as int, k);
                }
            }
            let len = match parse_decimal(s, pos, digits_end) {
                Some(v) => v,
                None => {
                    return None;
                },
            };
            if len > s.len() - digits_end {
                break;
            }
            let end = digits_end + len;
            let component = slice_subrange(s, digits_end, end);
            match string_from_utf8(component) {
                Some(_) => {},
                None => {
                    return None;
                },
            }
            if first.is_none() {
                first = Some((digits_end, end));
            }
            pos = end;
        }
        match first {
            Some((a, b)) => {
                let component = slice_subrange(s, a, b);
                string_from_utf8(component)
            },
            None => None,
        }
    }

    /// Crate name of a v0-mangled symbol, given the text after `_R`: the name
    /// of the first crate root `C [s<base62>_] <length><name>` whose name is a
    /// non-empty run of alphanumerics and `_`. Where the name would cut a
    /// UTF-8 character in two, the result is `None`.
    pub fn parse_v0_mangling(s: &[u8]) -> (r: Option<String>)
        ensures
            match r {
                Some(name) => v0_crate(s@) == Some(name@),
                None => v0_crate(s@) is None,
            },
    {
        let mut i: usize = 0;
        while i < s.len()
            invariant
                i <= s@.len(),
                v0_scan(s@, 0) == v0_scan(s@, i as int),
            decreases s@.len() - i,
        {
            if s[i] == 67 {
                let mut pos = i + 1;
                let mut skip = false;
                if pos < s.len() && s[pos] == 115 {
                    let q = skip_alnum(s, pos + 1);
                    if q >= s.len() || s[q] != 95 {
                        skip = true;
                    } else {
                        pos = q + 1;
                    }
                }
                if !skip {
                    let digits_end = skip_digits(s, pos);
                    if digits_end != pos {
                        proof {
                            assert forall|k: int| pos <= k < digits_end implies is_digit_byte(
                                s@[k],
                            ) by {
                                lemma_digit_run_digits(s@, pos as int, k);
                            }
                        }
                        let len = match parse_decimal(s, pos, digits_end) {
                            Some(v) => v,
                            None => {
                                return None;
                            },
                        };
                        if len <= s.len() - digits_end {
                            let name_bytes = slice_subrange(s, digits_end, digits_end + len);
                            match string_from_utf8(name_bytes) {
                                Some(name) => {
                                    let cs = chars_of(name.as_str());
                                    if len > 0 && all_crate_name_chars(&cs) {
                                        return Some(name);
                                    }
                                },
                                None => {
                                    return None;
                                },
                            }
                        }
                    }
                }
            }
            i = i + 1;
        }
        None
    }

    /// The crate a symbol belongs to, read off legacy mangling (`_ZN`), v0
    /// mangling (`_R`) or an unmangled `crate::path`.
    pub fn extract_crate_from_symbol(symbol: &str) -> (r: Option<String>)
        ensures
            match r {
                Some(name) => symbol_crate(symbol@) == Some(name@),
                None => symbol_crate(symbol@) is None,
            },
    {
        let b = bytes_of(symbol);
        if b.len() >= 3 && b[0] == 95 && b[1] == 90 && b[2] == 78 {
            let rest = slice_subrange(b.as_slice(), 3, b.len());
            assert(rest@ == b@.skip(3));
            return Self::parse_legacy_mangling(rest);
        }
        if b.len() >= 2 && b[0] == 95 && b[1] == 82 {
            let rest = slice_subrange(b.as_slice(), 2, b.len());
            assert(rest@ == b@.skip(2));
            return Self::parse_v0_mangling(rest);
        }
        let c = chars_of(symbol);
        let sep: Vec<char> = vec![':', ':'];
        assert(sep@ == seq![':', ':']);
        match chars_find_from(&c, &sep, 0) {
            Some(i) => {
                proof {
                    lemma_first_occurrence_sound(c@, sep@, 0);
                }
                let name = slice_subrange(c.as_slice(), 0, i);
                assert(name@ == c@.take(i as int));
                if i > 0 && all_crate_name_chars(name) {
                    Some(string_from_chars(name))
                } else {
                    None
                }
            },
            None => None,
        }
    }
}


// ---------------------------------------------------------------------------
// Names sections
// ---------------------------------------------------------------------------

/// What zlib decompression of a stream at the start of `data` gives: the
/// decompressed bytes and the position of the input cursor once decoding is
/// done (the decoder may have read past the end of the stream, so this can
/// exceed the stream's own length), or `None` when decompression fails.
pub uninterp spec fn zlib_stream(data: Seq<u8>) -> Option<(Seq<u8>, nat)>;

/// Decompresses the zlib stream at the start of `data` with
/// `flate2::read::ZlibDecoder` over a `std::io::Cursor`, reading to the end.
/// The contract names the result (bytes out, and the cursor position after
/// decoding), which depends on the input alone, and states that the position
/// does not pass the end of the input.
#[verifier::external_body]
pub(crate) fn zlib_decompress_stream(data: &[u8]) -> (r: Option<(Vec<u8>, usize)>)
    ensures
        match r {
            Some((out, n)) => zlib_stream(data@) == Some((out@, n as nat)) && n <= data@.len(),
            None => zlib_stream(data@) is None,
        },
{
    let mut decoder = flate2::read::ZlibDecoder::new(std::io::Cursor::new(data));
    let mut out: Vec<u8> = Vec::new();
    match decoder.read_to_end(&mut out) {
        Ok(_) => {
            let consumed = decoder.into_inner().position() as usize;
            Some((out, consumed))
        },
        Err(_) => None,
    }
}

/// The decompressed bytes of the zlib stream at the start of `data`.
pub open spec fn zlib_output(data: Seq<u8>) -> Option<Seq<u8>> {
    match zlib_stream(data) {
        Some((out, _)) => Some(out),
        None => None,
    }
}

/// The characters of each string.
pub open spec fn string_views(v: Seq<String>) -> Seq<Seq<char>> {
    v.map_values(|x: String| x@)
}

/// A piece of a names block as a name: decoded when it is non-empty UTF-8.
pub open spec fn piece_name(p: Seq<u8>) -> Seq<Seq<char>> {
    if p.len() > 0 && valid_utf8(p) {
        seq![decode_utf8(p)]
    } else {
        seq![]
    }
}

/// Names in `b` from the piece that starts at `start`, scanning from `i`:
/// pieces are separated by byte 0x01.
pub open spec fn pieces_from(b: Seq<u8>, start: int, i: int) -> Seq<Seq<char>>
    decreases b.len() - i,
{
    if i >= b.len() || i < start || start < 0 {
        piece_name(b.subrange(start, b.len() as int))
    } else if b[i] == 1 {
        piece_name(b.subrange(start, i)) + pieces_from(b, i + 1, i + 1)
    } else {
        pieces_from(b, start, i + 1)
    }
}

/// The names of a names block: its 0x01-separated pieces that are non-empty
/// UTF-8.
pub open spec fn split_names(b: Seq<u8>) -> Seq<Seq<char>> {
    pieces_from(b, 0, 0)
}

/// Alignment of a section offset to an 8-byte boundary of the address space.
pub open spec fn align_offset(base: int, pos: int) -> int {
    ((base + pos + 7) / 8) * 8 - base
}

pub proof fn lemma_align_offset_ge(base: int, pos: int)
    ensures
        align_offset(base, pos) >= pos,
        align_offset(base, pos) < pos + 8,
        (base + align_offset(base, pos)) % 8 == 0,
{
    let x = base + pos;
    assert(((x + 7) / 8) * 8 >= x && ((x + 7) / 8) * 8 < x + 8 && (((x + 7) / 8) * 8) % 8 == 0)
        by (nonlinear_arith);
}

/// Names of the blocks of a names section from `pos` on, each block headed by
/// two ULEB128 numbers: (size, uncompressed size) or, `reversed`, (uncompressed
/// size, size); a block is zlib-compressed when its uncompressed size is not
/// zero. With `align`, blocks start at 8-byte boundaries of the address space.
/// The scan stops at a malformed header or block and, without taking its
/// names, at a block that does not decompress.
pub open spec fn uleb_block_names(
    data: Seq<u8>,
    base: int,
    reversed: bool,
    align: bool,
    pos: int,
) -> Seq<Seq<char>>
    decreases data.len() - pos,
{
    if pos < 0 || pos >= data.len() {
        seq![]
    } else {
        let (first, n1) = uleb_decode(data.skip(pos));
        let p1 = pos + n1;
        if n1 == 0 || p1 >= data.len() {
            seq![]
        } else {
            let (second, n2) = uleb_decode(data.skip(p1));
            let p2 = p1 + n2;
            let size = if reversed { second as usize } else { first as usize };
            let compressed = if reversed { first as usize > 0 } else { second as usize > 0 };
            if n2 == 0 || size == 0 || size > data.len() - p2 {
                seq![]
            } else {
                let block = data.subrange(p2, p2 + size);
                let p3 = p2 + size;
                let next = if align { align_offset(base, p3) } else { p3 };
                proof {
                    lemma_align_offset_ge(base, p3);
                }
                let rest = if next >= data.len() {
                    seq![]
                } else {
                    uleb_block_names(data, base, reversed, align, next)
                };
                if compressed {
                    match zlib_output(block) {
                        Some(out) => split_names(out) + rest,
                        None => seq![],
                    }
                } else {
                    split_names(block) + rest
                }
            }
        }
    }
}

/// The longer of two name lists, the first on a tie.
pub open spec fn longer(a: Seq<Seq<char>>, b: Seq<Seq<char>>) -> Seq<Seq<char>> {
    if b.len() > a.len() {
        b
    } else {
        a
    }
}

/// The most names found by the four header layouts, tried in the order
/// (size first, aligned), (size first, unaligned), (reversed, aligned),
/// (reversed, unaligned).
pub open spec fn best_uleb_names(data: Seq<u8>, base: int) -> Seq<Seq<char>> {
    longer(
        longer(
            longer(uleb_block_names(data, base, false, true, 0), uleb_block_names(data, base, false, false, 0)),
            uleb_block_names(data, base, true, true, 0),
        ),
        uleb_block_names(data, base, true, false, 0),
    )
}

/// Whether decompressed bytes look like names: printable ASCII and 0x01.
pub open spec fn names_text(b: Seq<u8>) -> bool {
    forall|i: int| 0 <= i < b.len() ==> b[i] == 1 || (0x21 <= #[trigger] b[i] <= 0x7e)
}

/// The zlib header bytes accepted as the start of a stream.
pub open spec fn zlib_header_at(data: Seq<u8>, pos: int) -> bool {
    &&& data[pos] == 0x78
    &&& (data[pos + 1] == 0x01 || data[pos + 1] == 0x5e || data[pos + 1] == 0x9c || data[pos + 1]
        == 0xda)
}

/// Names of the zlib streams found by scanning `data` from `pos`: at each
/// zlib header whose stream decompresses to non-empty name text, the names are
/// taken and the scan goes on after the input the decoder took (at least one
/// byte); elsewhere it moves one byte on.
pub open spec fn scanned_names(data: Seq<u8>, pos: int) -> Seq<Seq<char>>
    decreases data.len() - pos,
{
    if pos < 0 || pos + 2 > data.len() {
        seq![]
    } else if zlib_header_at(data, pos) {
        match zlib_stream(data.skip(pos)) {
            Some((out, n)) => if out.len() > 0 && names_text(out) && n <= data.len() - pos {
                split_names(out) + scanned_names(data, pos + if n == 0 { 1 } else { n as int })
            } else {
                scanned_names(data, pos + 1)
            },
            None => scanned_names(data, pos + 1),
        }
    } else {
        scanned_names(data, pos + 1)
    }
}

/// The function names of a `__llvm_prf_names` section loaded at `base`: the
/// block-header reading when it finds at least ten names (or some names in a
/// section under 1 KiB); otherwise whichever of it and the zlib scan finds more.
pub open spec fn names_section(data: Seq<u8>, base: int) -> Seq<Seq<char>> {
    let u = best_uleb_names(data, base);
    if u.len() >= 10 || (u.len() > 0 && data.len() < 1024) {
        u
    } else {
        longer(u, scanned_names(data, 0))
    }
}

proof fn lemma_string_views_push(v: Seq<String>, x: String)
    ensures
        string_views(v.push(x)) == string_views(v).push(x@),
{
    assert(string_views(v.push(x)) =~= string_views(v).push(x@));
}

/// Appends the piece `b[start..end]` as a name when it is non-empty UTF-8.
fn push_piece(b: &[u8], start: usize, end: usize, names: &mut Vec<String>)
    requires
        start <= end <= b@.len(),
    ensures
        string_views(final(names)@) == string_views(old(names)@) + piece_name(
            b@.subrange(start as int, end as int),
        ),
{
    if end > start {
        let piece = slice_subrange(b, start, end);
        match string_from_utf8(piece) {
            Some(name) => {
                proof {
                    lemma_string_views_push(names@, name);
                }
                names.push(name);
            },
            None => {
                assert(string_views(names@) + seq![] =~= string_views(names@));
            },
        }
    } else {
        assert(string_views(names@) + seq![] =~= string_views(names@));
    }
}

impl SourceMapper {
    /// Splits a names block at 0x01 bytes and appends the pieces that are
    /// non-empty UTF-8.
    pub fn split_names_into(data: &[u8], names: &mut Vec<String>)
        ensures
            string_views(final(names)@) == string_views(old(names)@) + split_names(data@),
    {
        let ghost before = string_views(names@);
        let mut start: usize = 0;
        let mut i: usize = 0;
        while i < data.len()
            invariant
                start <= i <= data@.len(),
                before + split_names(data@) == string_views(names@) + pieces_from(
                    data@,
                    start as int,
                    i as int,
                ),
            decreases data@.len() - i,
        {
            if data[i] == 1 {
                let ghost mid = string_views(names@);
                push_piece(data, start, i, names);
                assert(before + split_names(data@) == string_views(names@) + pieces_from(
                    data@,
                    i + 1,
                    i + 1,
                )) by {
                    assert(mid + pieces_from(data@, start as int, i as int) == mid + (piece_name(
                        data@.subrange(start as int, i as int),
                    ) + pieces_from(data@, i + 1, i + 1)));
                    assert(mid + (piece_name(data@.subrange(start as int, i as int))
                        + pieces_from(data@, i + 1, i + 1)) =~= (mid + piece_name(
                        data@.subrange(start as int, i as int),
                    )) + pieces_from(data@, i + 1, i + 1));
                }
                start = i + 1;
            }
            i = i + 1;
        }
        push_piece(data, start, data.len(), names);
    }
}


fn is_names_text(b: &[u8]) -> (r: bool)
    ensures
        r == names_text(b@),
{
    let mut i: usize = 0;
    while i < b.len()
        invariant
            i <= b@.len(),
            forall|k: int| 0 <= k < i ==> b@[k] == 1 || (0x21 <= #[trigger] b@[k] <= 0x7e),
        decreases b@.len() - i,
    {
        if !(b[i] == 1 || (0x21 <= b[i] && b[i] <= 0x7e)) {
            return false;
        }
        i = i + 1;
    }
    true
}

impl SourceMapper {
    /// Reads the names of a names section block by block, with one of the two
    /// header layouts and with or without alignment of blocks to 8-byte
    /// boundaries of the address space (the section being loaded at
    /// `base_addr`).
    #[verifier::rlimit(40)]
    #[verifier::spinoff_prover]
    pub fn parse_names_uleb128_impl(
        data: &[u8],
        base_addr: usize,
        reversed: bool,
        use_alignment: bool,
    ) -> (r: Vec<String>)
        requires
            base_addr + data@.len() + 7 <= usize::MAX,
        ensures
            string_views(r@) == uleb_block_names(
                data@,
                base_addr as int,
                reversed,
                use_alignment,
                0,
            ),
    {
        let mut names: Vec<String> = Vec::new();
        let mut pos: usize = 0;
        assert(string_views(names@) + uleb_block_names(
            data@,
            base_addr as int,
            reversed,
            use_alignment,
            0,
        ) =~= uleb_block_names(data@, base_addr as int, reversed, use_alignment, 0));
        while pos < data.len()
            invariant_except_break
                string_views(names@) + uleb_block_names(
                    data@,
                    base_addr as int,
                    reversed,
                    use_alignment,
                    pos as int,
                ) == uleb_block_names(data@, base_addr as int, reversed, use_alignment, 0),
            invariant
                pos <= data@.len() + 7,
                base_addr + data@.len() + 7 <= usize::MAX,
            ensures
                string_views(names@) == uleb_block_names(
                    data@,
                    base_addr as int,
                    reversed,
                    use_alignment,
                    0,
                ),
            decreases data@.len() + 8 - pos,
        {
            let ghost total = uleb_block_names(data@, base_addr as int, reversed, use_alignment, 0);
            let ghost before = string_views(names@);
            let tail = slice_subrange(data, pos, data.len());
            assert(tail@ == data@.skip(pos as int));
            let (first, n1) = Self::decode_uleb128(tail);
            if n1 == 0 {
                assert(before =~= before + Seq::<Seq<char>>::empty());
                break;
            }
            let p1 = pos + n1;
            if p1 >= data.len() {
                assert(before =~= before + Seq::<Seq<char>>::empty());
                break;
            }
            let tail2 = slice_subrange(data, p1, data.len());
            assert(tail2@ == data@.skip(p1 as int));
            let (second, n2) = Self::decode_uleb128(tail2);
            if n2 == 0 {
                assert(before =~= before + Seq::<Seq<char>>::empty());
                break;
            }
            let p2 = p1 + n2;
            let size: usize = if reversed { second as usize } else { first as usize };
            let compressed: bool = if reversed { first as usize > 0 } else { second as usize > 0 };
            if size == 0 || size > data.len() - p2 {
                assert(before =~= before + Seq::<Seq<char>>::empty());
                break;
            }
            let block = slice_subrange(data, p2, p2 + size);
            let p3 = p2 + size;
            let next: usize = if use_alignment {
                let abs = base_addr + p3;
                let aligned = (abs + 7) / 8 * 8;
                proof {
                    lemma_align_offset_ge(base_addr as int, p3 as int);
                }
                aligned - base_addr
            } else {
                p3
            };
            proof {
                lemma_align_offset_ge(base_addr as int, p3 as int);
            }
            let ghost rest = if next >= data@.len() {
                Seq::<Seq<char>>::empty()
            } else {
                uleb_block_names(data@, base_addr as int, reversed, use_alignment, next as int)
            };
            if compressed {
                match zlib_decompress_stream(block) {
                    Some((out, _)) => {
                        Self::split_names_into(&out, &mut names);
                    },
                    None => {
                        assert(before =~= before + Seq::<Seq<char>>::empty());
                        return names;
                    },
                }
            } else {
                Self::split_names_into(block, &mut names);
            }
            assert(string_views(names@) + rest =~= total);
            pos = next;
            if pos >= data.len() {
                assert(string_views(names@) =~= total);
            }
        }
        names
    }

    /// Reads the names of a names section with each of the four header
    /// layouts and keeps the reading that finds the most (the first on a tie).
    pub fn parse_names_uleb128(data: &[u8], base_addr: usize) -> (r: Vec<String>)
        requires
            base_addr + data@.len() + 7 <= usize::MAX,
        ensures
            string_views(r@) == best_uleb_names(data@, base_addr as int),
    {
        let mut best: Vec<String> = Vec::new();
        let a = Self::parse_names_uleb128_impl(data, base_addr, false, true);
        if a.len() > best.len() {
            best = a;
        }
        let b = Self::parse_names_uleb128_impl(data, base_addr, false, false);
        if b.len() > best.len() {
            best = b;
        }
        let c = Self::parse_names_uleb128_impl(data, base_addr, true, true);
        if c.len() > best.len() {
            best = c;
        }
        let d = Self::parse_names_uleb128_impl(data, base_addr, true, false);
        if d.len() > best.len() {
            best = d;
        }
        best
    }

    /// Reads names by scanning for zlib streams whose contents look like
    /// names (printable ASCII separated by 0x01).
    pub fn parse_names_by_zlib_scan(data: &[u8]) -> (r: Vec<String>)
        ensures
            string_views(r@) == scanned_names(data@, 0),
    {
        let mut names: Vec<String> = Vec::new();
        let mut pos: usize = 0;
        assert(string_views(names@) + scanned_names(data@, 0) =~= scanned_names(data@, 0));
        while data.len() >= 2 && pos <= data.len() - 2
            invariant
                pos <= data@.len(),
                string_views(names@) + scanned_names(data@, pos as int) == scanned_names(data@, 0),
            decreases data@.len() - pos,
        {
            let ghost before = string_views(names@);
            let mut advance: usize = 1;
            assert(pos + advance <= data@.len());
            if data[pos] == 0x78 && (data[pos + 1] == 0x01 || data[pos + 1] == 0x5e || data[pos
                + 1] == 0x9c || data[pos + 1] == 0xda) {
                let tail = slice_subrange(data, pos, data.len());
                assert(tail@ == data@.skip(pos as int));
                match zlib_decompress_stream(tail) {
                    Some((out, n)) => {
                        if out.len() > 0 && is_names_text(&out) {
                            Self::split_names_into(&out, &mut names);
                            assert(n <= data@.len() - pos);
                            advance = if n == 0 { 1 } else { n };
                            assert(string_views(names@) + scanned_names(data@, pos + advance)
                                =~= before + scanned_names(data@, pos as int));
                        }
                    },
                    None => {},
                }
            }
            assert(pos + advance <= data@.len());
            pos = pos + advance;
        }
        assert(string_views(names@) =~= scanned_names(data@, 0));
        names
    }

    /// The function names of a `__llvm_prf_names` section loaded at
    /// `base_addr`.
    pub fn parse_names_section(data: &[u8], base_addr: usize) -> (r: Vec<String>)
        requires
            base_addr + data@.len() + 7 <= usize::MAX,
        ensures
            string_views(r@) == names_section(data@, base_addr as int),
    {
        let names = Self::parse_names_uleb128(data, base_addr);
        if names.len() >= 10 || (names.len() > 0 && data.len() < 1024) {
            return names;
        }
        let scan = Self::parse_names_by_zlib_scan(data);
        if scan.len() > names.len() {
            scan
        } else {
            names
        }
    }
}


// ---------------------------------------------------------------------------
// Counter selection by crate
// ---------------------------------------------------------------------------

/// The MD5 digest of `data`.
pub uninterp spec fn md5_digest(data: Seq<u8>) -> Seq<u8>;

/// `md5::compute`: the MD5 digest of the bytes. The contract names the result
/// and states that a digest has 16 bytes (`Digest` wraps a `[u8; 16]`).
#[verifier::external_body]
fn md5_compute(data: &[u8]) -> (r: Vec<u8>)
    ensures
        r@ == md5_digest(data@),
        r@.len() == 16,
{
    md5::compute(data).0.to_vec()
}

/// LLVM's `NameRef` of a function name: the first eight bytes of the MD5 of
/// its UTF-8 text, read little-endian.
pub open spec fn name_hash(name: Seq<char>) -> u64 {
    le_u64_at(md5_digest(utf8_of(name)), 0) as u64
}

/// Whether a function name belongs to one of the listed crates.
pub open spec fn name_in_crates(name: Seq<char>, crates: Seq<Seq<char>>) -> bool {
    match symbol_crate(name) {
        Some(c) => crates.contains(c),
        None => false,
    }
}

/// The `NameRef`s of the first `k` names that belong to the listed crates.
pub open spec fn selected_hashes(names: Seq<Seq<char>>, crates: Seq<Seq<char>>, k: int) -> Set<u64> {
    Set::new(
        |h: u64|
            exists|i: int| 0 <= i < k && name_in_crates(names[i], crates) && #[trigger] name_hash(names[i]) == h,
    )
}

/// Counter indices of the first `k` records whose `NameRef` is in `hashes`,
/// each record owning the next `num_counters` indices.
pub open spec fn selected_counters(records: Seq<ProfDataRecord>, hashes: Set<u64>, k: nat) -> Seq<usize>
    decreases k,
{
    if k == 0 || k > records.len() {
        seq![]
    } else {
        let before = counters_before(records, (k - 1) as nat);
        let r = records[k - 1];
        selected_counters(records, hashes, (k - 1) as nat) + if hashes.contains(r.name_ref) {
            Seq::new(r.num_counters as nat, |j: int| (before + j) as usize)
        } else {
            seq![]
        }
    }
}

/// The characters of each crate name.
pub open spec fn str_views(v: Seq<&str>) -> Seq<Seq<char>> {
    v.map_values(|x: &str| x@)
}

/// Counter indices of the functions of the listed crates, read off the
/// profile sections: `None` when the names section holds no names, the data
/// section has no layout that fits, or no counter is selected.
pub open spec fn profile_counters(
    names_data: Seq<u8>,
    names_base: int,
    data: Seq<u8>,
    total: int,
    crates: Seq<Seq<char>>,
) -> Option<Seq<usize>> {
    let names = names_section(names_data, names_base);
    if names.len() == 0 {
        None
    } else {
        match data_records(data, total) {
            None => None,
            Some(records) => {
                let sel = selected_counters(
                    records,
                    selected_hashes(names, crates, names.len() as int),
                    records.len(),
                );
                if sel.len() == 0 {
                    None
                } else {
                    Some(sel)
                }
            },
        }
    }
}

/// The LLVM profile sections of a running binary, as read from memory.
pub struct ProfileSections {
    /// Contents of `__llvm_prf_names`.
    pub names: Vec<u8>,
    /// Address at which `__llvm_prf_names` is loaded.
    pub names_base: usize,
    /// Contents of `__llvm_prf_data`.
    pub data: Vec<u8>,
    /// Number of counters in `__llvm_prf_cnts`.
    pub total_counters: usize,
}

fn crate_listed(crate_names: &[&str], name: &String) -> (r: bool)
    ensures
        r == str_views(crate_names@).contains(name@),
{
    let mut i: usize = 0;
    while i < crate_names.len()
        invariant
            i <= crate_names@.len(),
            forall|k: int| 0 <= k < i ==> crate_names@[k]@ != name@,
        decreases crate_names@.len() - i,
    {
        let listed: String = crate_names[i].to_owned();
        if listed == *name {
            assert(str_views(crate_names@)[i as int] == name@);
            return true;
        }
        i = i + 1;
    }
    assert forall|k: int| 0 <= k < str_views(crate_names@).len() implies str_views(crate_names@)[k]
        != name@ by {
        assert(str_views(crate_names@)[k] == crate_names@[k]@);
    }
    false
}

impl SourceMapper {
    /// LLVM's `NameRef` of a function name: the first eight bytes of its MD5,
    /// little-endian.
    pub fn llvm_name_hash(name: &str) -> (r: u64)
        ensures
            r == name_hash(name@),
    {
        let bytes = bytes_of(name);
        let digest = md5_compute(&bytes);
        read_u64_le(&digest, 0)
    }

    /// Counter indices of the functions of the listed crates: the names of
    /// the names section whose crate is listed give the `NameRef`s to keep;
    /// the data records give each function's counters, in order.
    pub fn parse_profile_sections(crate_names: &[&str], sections: &ProfileSections) -> (r: Option<
        Vec<usize>,
    >)
        requires
            sections.names_base + sections.names@.len() + 7 <= usize::MAX,
        ensures
            match r {
                Some(v) => profile_counters(
                    sections.names@,
                    sections.names_base as int,
                    sections.data@,
                    sections.total_counters as int,
                    str_views(crate_names@),
                ) == Some(v@),
                None => profile_counters(
                    sections.names@,
                    sections.names_base as int,
                    sections.data@,
                    sections.total_counters as int,
                    str_views(crate_names@),
                ) is None,
            },
    {
        let function_names = Self::parse_names_section(&sections.names, sections.names_base);
        let ghost names = string_views(function_names@);
        let ghost crates = str_views(crate_names@);
        if function_names.len() == 0 {
            return None;
        }
        let mut matching: HashSet<u64> = HashSet::new();
        let mut i: usize = 0;
        while i < function_names.len()
            invariant
                i <= function_names@.len(),
                names == string_views(function_names@),
                crates == str_views(crate_names@),
                matching@ == selected_hashes(names, crates, i as int),
            decreases function_names@.len() - i,
        {
            assert(names[i as int] == function_names@[i as int]@);
            let name = &function_names[i];
            let selected = match Self::extract_crate_from_symbol(name.as_str()) {
                Some(c) => crate_listed(crate_names, &c),
                None => false,
            };
            if selected {
                let h = Self::llvm_name_hash(name.as_str());
                matching.insert(h);
            }
            assert(matching@ =~= selected_hashes(names, crates, i + 1));
            i = i + 1;
        }
        let records = match Self::parse_data_records_flexible(&sections.data, sections.total_counters) {
            Some(rs) => rs,
            None => {
                return None;
            },
        };
        let ghost hashes = matching@;
        let mut indices: Vec<usize> = Vec::new();
        let mut offset: usize = 0;
        let mut k: usize = 0;
        while k < records.len()
            invariant
                k <= records@.len(),
                hashes == matching@,
                counters_before(records@, records@.len()) == sections.total_counters,
                offset == counters_before(records@, k as nat),
                indices@ == selected_counters(records@, hashes, k as nat),
            decreases records@.len() - k,
        {
            let rec = records[k];
            proof {
                lemma_counters_before_monotone(records@, (k + 1) as nat, records@.len());
            }
            let n = rec.num_counters as usize;
            if matching.contains(&rec.name_ref) {
                let ghost prev = indices@;
                let mut j: usize = 0;
                while j < n
                    invariant
                        j <= n,
                        offset + n <= usize::MAX,
                        indices@ == prev + Seq::new(j as nat, |t: int| (offset + t) as usize),
                    decreases n - j,
                {
                    indices.push(offset + j);
                    assert(indices@ =~= prev + Seq::new((j + 1) as nat, |t: int| (offset + t) as usize));
                    j = j + 1;
                }
            } else {
                assert(indices@ =~= indices@ + Seq::<usize>::empty());
            }
            offset = offset + n;
            k = k + 1;
        }
        if indices.len() == 0 {
            None
        } else {
            Some(indices)
        }
    }

    /// A mapper whose whitelist is the counters of the functions of the
    /// listed crates, read off the profile sections; empty when the sections
    /// could not be read or select nothing.
    pub fn from_crates(crate_names: &[&str], sections: Option<ProfileSections>) -> (r: Self)
        requires
            sections matches Some(s) ==> s.names_base + s.names@.len() + 7 <= usize::MAX,
        ensures
            match sections {
                Some(s) => match profile_counters(
                    s.names@,
                    s.names_base as int,
                    s.data@,
                    s.total_counters as int,
                    str_views(crate_names@),
                ) {
                    Some(v) => r@ == v.to_set(),
                    None => r@ == Set::<usize>::empty(),
                },
                None => r@ == Set::<usize>::empty(),
            },
    {
        match sections {
            Some(s) => match Self::parse_profile_sections(crate_names, &s) {
                Some(indices) => Self::from_indices(&indices),
                None => Self::default(),
            },
            None => Self::default(),
        }
    }
}

} // verus!
