//! Character- and byte-level operations on strings, with their specifications.
//!
//! String values are modelled by their character sequence (`String::view`) and,
//! where a position is counted in bytes, by their UTF-8 encoding.
use vstd::prelude::*;
use vstd::utf8::*;

verus! {

// ---------------------------------------------------------------------------
// Specifications
// ---------------------------------------------------------------------------

/// `p` occurs in `s` starting at position `i`.
pub open spec fn occurs_at<A>(s: Seq<A>, p: Seq<A>, i: int) -> bool {
    0 <= i && i + p.len() <= s.len() && s.subrange(i, i + p.len()) == p
}

/// `p` occurs somewhere in `s`.
pub open spec fn seq_contains_sub<A>(s: Seq<A>, p: Seq<A>) -> bool {
    exists|i: int| occurs_at(s, p, i)
}

/// `p` is a prefix of `s`.
pub open spec fn seq_starts_with<A>(s: Seq<A>, p: Seq<A>) -> bool {
    occurs_at(s, p, 0)
}

/// `p` is a suffix of `s`.
pub open spec fn seq_ends_with<A>(s: Seq<A>, p: Seq<A>) -> bool {
    p.len() <= s.len() && occurs_at(s, p, s.len() - p.len())
}

/// Position of the first occurrence of `p` in `s` at or after `from`.
pub open spec fn first_occurrence_from<A>(s: Seq<A>, p: Seq<A>, from: int) -> Option<int>
    decreases s.len() + 1 - from,
{
    if from < 0 || from + p.len() > s.len() {
        None
    } else if occurs_at(s, p, from) {
        Some(from)
    } else {
        first_occurrence_from(s, p, from + 1)
    }
}

/// Position of the first occurrence of `p` in `s`.
pub open spec fn first_occurrence<A>(s: Seq<A>, p: Seq<A>) -> Option<int> {
    first_occurrence_from(s, p, 0)
}

/// `r` inserted before every element of `s` and once more at its end
/// (what replacing the empty pattern does).
pub open spec fn interleave<A>(s: Seq<A>, r: Seq<A>) -> Seq<A>
    decreases s.len(),
{
    if s.len() == 0 {
        r
    } else {
        r + seq![s[0]] + interleave(s.drop_first(), r)
    }
}

/// Every non-overlapping occurrence of the non-empty `p`, scanning from the
/// left, replaced by `r`.
pub open spec fn replace_nonempty<A>(s: Seq<A>, p: Seq<A>, r: Seq<A>) -> Seq<A>
    recommends
        p.len() > 0,
    decreases s.len(),
{
    if p.len() == 0 || s.len() < p.len() {
        s
    } else if occurs_at(s, p, 0) {
        r + replace_nonempty(s.skip(p.len() as int), p, r)
    } else {
        seq![s[0]] + replace_nonempty(s.drop_first(), p, r)
    }
}

/// `s` with every match of `p` replaced by `r` (as `str::replace`).
pub open spec fn replace_all_spec<A>(s: Seq<A>, p: Seq<A>, r: Seq<A>) -> Seq<A> {
    if p.len() == 0 {
        interleave(s, r)
    } else {
        replace_nonempty(s, p, r)
    }
}

/// `s` with the first match of `p` replaced by `r` (as `str::replacen(p, r, 1)`).
pub open spec fn replace_first_spec<A>(s: Seq<A>, p: Seq<A>, r: Seq<A>) -> Seq<A> {
    match first_occurrence(s, p) {
        Some(i) => s.subrange(0, i) + r + s.skip(i + p.len()),
        None => s,
    }
}

/// Strict lexicographic order on byte strings.
pub open spec fn bytes_lt(a: Seq<u8>, b: Seq<u8>) -> bool
    decreases a.len(),
{
    if b.len() == 0 {
        false
    } else if a.len() == 0 {
        true
    } else if a[0] != b[0] {
        a[0] < b[0]
    } else {
        bytes_lt(a.drop_first(), b.drop_first())
    }
}

/// Lexicographic order on byte strings.
pub open spec fn bytes_le(a: Seq<u8>, b: Seq<u8>) -> bool {
    bytes_lt(a, b) || a == b
}

/// The UTF-8 bytes of a character sequence.
pub open spec fn utf8_of(s: Seq<char>) -> Seq<u8> {
    encode_utf8(s)
}

// ---------------------------------------------------------------------------
// Trusted conversions between strings, characters and bytes
// ---------------------------------------------------------------------------

/// Builds a `String` from its characters (`FromIterator<char>` for `String`).
/// The contract claims that the string's characters are exactly `v`, in order.
#[verifier::external_body]
pub(crate) fn string_from_chars(v: &[char]) -> (r: String)
    ensures
        r@ == v@,
{
    v.iter().collect()
}

/// Decodes bytes as UTF-8 (`std::str::from_utf8`, then an owned copy).
/// The contract claims: the result is `Some` exactly when the bytes are valid
/// UTF-8, and then holds the decoded characters.
#[verifier::external_body]
pub(crate) fn string_from_utf8(b: &[u8]) -> (r: Option<String>)
    ensures
        r is Some <==> valid_utf8(b@),
        r matches Some(s) ==> s@ == decode_utf8(b@),
{
    match std::str::from_utf8(b) {
        Ok(s) => Some(s.to_string()),
        Err(_) => None,
    }
}

/// Renders a character as a one-character string (`char::to_string`).
#[verifier::external_body]
pub(crate) fn string_of_char(c: char) -> (r: String)
    ensures
        r@ == seq![c],
{
    c.to_string()
}

// ---------------------------------------------------------------------------
// Executable operations
// ---------------------------------------------------------------------------

/// The characters of `s`, in order.
pub fn chars_of(s: &str) -> (v: Vec<char>)
    ensures
        v@ == s@,
{
    let mut v: Vec<char> = Vec::new();
    for c in it: s.chars()
        invariant
            v@ == it.seq().take(it.index() as int),
            it.seq() == s@,
    {
        v.push(c);
    }
    v
}

/// The UTF-8 bytes of `s`.
pub fn bytes_of(s: &str) -> (v: Vec<u8>)
    ensures
        v@ == utf8_of(s@),
{
    let b = s.as_bytes();
    let mut v: Vec<u8> = Vec::new();
    let mut i: usize = 0;
    while i < b.len()
        invariant
            i <= b@.len(),
            b@ == utf8_of(s@),
            v@ == b@.take(i as int),
        decreases b@.len() - i,
    {
        v.push(b[i]);
        i = i + 1;
        assert(v@ == b@.take(i as int));
    }
    assert(b@.take(b@.len() as int) == b@);
    v
}

/// Does `p` occur in `s` at position `i`?
pub fn chars_occur_at(s: &[char], p: &[char], i: usize) -> (r: bool)
    ensures
        r == occurs_at(s@, p@, i as int),
{
    let n = s.len();
    if i > n || p.len() > n - i {
        return false;
    }
    let mut k: usize = 0;
    while k < p.len()
        invariant
            n == s@.len(),
            i <= s@.len(),
            i + p@.len() <= s@.len(),
            k <= p@.len(),
            forall|j: int| 0 <= j < k ==> s@[i + j] == p@[j],
        decreases p@.len() - k,
    {
        if s[i + k] != p[k] {
            assert(s@.subrange(i as int, i + p@.len())[k as int] != p@[k as int]);
            return false;
        }
        k = k + 1;
    }
    assert(s@.subrange(i as int, i + p@.len()) =~= p@);
    true
}

/// Position of the first occurrence of `p` in `s` at or after `from`.
pub fn chars_find_from(s: &[char], p: &[char], from: usize) -> (r: Option<usize>)
    ensures
        r matches Some(i) ==> first_occurrence_from(s@, p@, from as int) == Some(i as int),
        r is None ==> first_occurrence_from(s@, p@, from as int) is None,
    decreases s@.len() + 1 - from,
{
    if from > s.len() || p.len() > s.len() - from {
        return None;
    }
    if chars_occur_at(s, p, from) {
        Some(from)
    } else {
        proof {
            if p@.len() == 0 {
                lemma_empty_occurs(s@, p@, from as int);
            }
        }
        chars_find_from(s, p, from + 1)
    }
}

/// Does `s` contain `p`?
pub fn chars_contain(s: &[char], p: &[char]) -> (r: bool)
    ensures
        r == seq_contains_sub(s@, p@),
{
    let f = chars_find_from(s, p, 0);
    proof {
        lemma_first_occurrence_complete(s@, p@, 0);
        if let Some(i) = f {
            lemma_first_occurrence_sound(s@, p@, 0);
        }
    }
    f.is_some()
}

/// The empty sequence occurs at every position up to the length.
pub proof fn lemma_empty_occurs<A>(s: Seq<A>, p: Seq<A>, i: int)
    requires
        0 <= i <= s.len(),
        p.len() == 0,
    ensures
        occurs_at(s, p, i),
{
    assert(s.subrange(i, i) =~= p);
}

/// A found first occurrence is an occurrence.
pub proof fn lemma_first_occurrence_sound<A>(s: Seq<A>, p: Seq<A>, from: int)
    ensures
        first_occurrence_from(s, p, from) matches Some(i) ==> occurs_at(s, p, i) && from <= i,
    decreases s.len() + 1 - from,
{
    if from < 0 || from + p.len() > s.len() {
    } else if occurs_at(s, p, from) {
    } else {
        lemma_first_occurrence_sound(s, p, from + 1);
    }
}

/// No occurrence at or after `from` exists when none is found, and a found one
/// is the first.
pub proof fn lemma_first_occurrence_complete<A>(s: Seq<A>, p: Seq<A>, from: int)
    requires
        0 <= from,
    ensures
        first_occurrence_from(s, p, from) is None ==> forall|i: int|
            from <= i ==> !occurs_at(s, p, i),
        first_occurrence_from(s, p, from) matches Some(k) ==> forall|i: int|
            from <= i < k ==> !occurs_at(s, p, i),
    decreases s.len() + 1 - from,
{
    if from + p.len() > s.len() {
    } else if occurs_at(s, p, from) {
    } else {
        lemma_first_occurrence_complete(s, p, from + 1);
    }
}

/// Is `p` a prefix of `s`?
pub fn chars_start_with(s: &[char], p: &[char]) -> (r: bool)
    ensures
        r == seq_starts_with(s@, p@),
{
    chars_occur_at(s, p, 0)
}

/// Is `p` a suffix of `s`?
pub fn chars_end_with(s: &[char], p: &[char]) -> (r: bool)
    ensures
        r == seq_ends_with(s@, p@),
{
    if p.len() > s.len() {
        false
    } else {
        chars_occur_at(s, p, s.len() - p.len())
    }
}

/// Appends `src[lo..hi]` to `dst`.
fn extend_chars(dst: &mut Vec<char>, src: &[char], lo: usize, hi: usize)
    requires
        lo <= hi <= src@.len(),
    ensures
        final(dst)@ == old(dst)@ + src@.subrange(lo as int, hi as int),
{
    let mut k = lo;
    while k < hi
        invariant
            lo <= k <= hi <= src@.len(),
            dst@ == old(dst)@ + src@.subrange(lo as int, k as int),
        decreases hi - k,
    {
        dst.push(src[k]);
        k = k + 1;
        assert(dst@ =~= old(dst)@ + src@.subrange(lo as int, k as int));
    }
}

/// `s` with the first match of `p` replaced by `r`.
pub fn chars_replace_first(s: &[char], p: &[char], r: &[char]) -> (out: Vec<char>)
    ensures
        out@ == replace_first_spec(s@, p@, r@),
{
    let mut out: Vec<char> = Vec::new();
    match chars_find_from(s, p, 0) {
        Some(i) => {
            proof {
                lemma_first_occurrence_sound(s@, p@, 0);
            }
            let n = s.len();
            assert(i + p@.len() <= n);
            extend_chars(&mut out, s, 0, i);
            extend_chars(&mut out, r, 0, r.len());
            extend_chars(&mut out, s, i + p.len(), s.len());
            assert(r@.subrange(0, r@.len() as int) == r@);
            assert(s@.subrange(i + p@.len(), s@.len() as int) == s@.skip(i + p@.len()));
        },
        None => {
            extend_chars(&mut out, s, 0, s.len());
            assert(s@.subrange(0, s@.len() as int) == s@);
        },
    }
    out
}

/// `s` with every match of `p` replaced by `r`.
pub fn chars_replace_all(s: &[char], p: &[char], r: &[char]) -> (out: Vec<char>)
    ensures
        out@ == replace_all_spec(s@, p@, r@),
{
    let mut out: Vec<char> = Vec::new();
    if p.len() == 0 {
        let mut i: usize = 0;
        assert(s@.skip(0) == s@);
        assert(out@ + interleave(s@, r@) =~= interleave(s@, r@));
        while i < s.len()
            invariant
                p@.len() == 0,
                i <= s@.len(),
                out@ + interleave(s@.skip(i as int), r@) == interleave(s@, r@),
            decreases s@.len() - i,
        {
            let ghost rest = s@.skip(i as int);
            assert(rest.drop_first() == s@.skip(i + 1));
            assert(rest[0] == s@[i as int]);
            extend_chars(&mut out, r, 0, r.len());
            out.push(s[i]);
            assert(r@.subrange(0, r@.len() as int) == r@);
            assert(out@ + interleave(s@.skip(i + 1), r@) =~= interleave(s@, r@));
            i = i + 1;
        }
        assert(s@.skip(s@.len() as int).len() == 0);
        extend_chars(&mut out, r, 0, r.len());
        assert(r@.subrange(0, r@.len() as int) == r@);
        return out;
    }
    let mut i: usize = 0;
    assert(s@.skip(0) == s@);
    assert(out@ + replace_nonempty(s@, p@, r@) =~= replace_nonempty(s@, p@, r@));
    while i < s.len()
        invariant
            p@.len() > 0,
            i <= s@.len(),
            out@ + replace_nonempty(s@.skip(i as int), p@, r@) == replace_nonempty(s@, p@, r@),
        decreases s@.len() - i,
    {
        let ghost rest = s@.skip(i as int);
        if p.len() <= s.len() - i && chars_occur_at(s, p, i) {
            assert(occurs_at(rest, p@, 0)) by {
                assert(rest.subrange(0, p@.len() as int) =~= s@.subrange(
                    i as int,
                    i + p@.len(),
                ));
            }
            assert(rest.skip(p@.len() as int) == s@.skip(i + p@.len()));
            extend_chars(&mut out, r, 0, r.len());
            assert(r@.subrange(0, r@.len() as int) == r@);
            assert(out@ + replace_nonempty(s@.skip(i + p@.len()), p@, r@) =~= replace_nonempty(
                s@,
                p@,
                r@,
            ));
            i = i + p.len();
        } else {
            if p.len() <= s.len() - i {
                assert(!occurs_at(rest, p@, 0)) by {
                    if occurs_at(rest, p@, 0) {
                        assert(rest.subrange(0, p@.len() as int) =~= s@.subrange(
                            i as int,
                            i + p@.len(),
                        ));
                    }
                }
                assert(rest.drop_first() == s@.skip(i + 1));
                assert(rest[0] == s@[i as int]);
                out.push(s[i]);
                assert(out@ + replace_nonempty(s@.skip(i + 1), p@, r@) =~= replace_nonempty(
                    s@,
                    p@,
                    r@,
                ));
                i = i + 1;
            } else {
                assert(rest.len() < p@.len());
                extend_chars(&mut out, s, i, s.len());
                assert(s@.subrange(i as int, s@.len() as int) == rest);
                i = s.len();
                assert(out@ + replace_nonempty(s@.skip(i as int), p@, r@) =~= replace_nonempty(
                    s@,
                    p@,
                    r@,
                ));
            }
        }
    }
    assert(s@.skip(s@.len() as int).len() == 0);
    assert(out@ + seq![] =~= out@);
    out
}

/// Position, in bytes, of the first occurrence of `p` in `s` at or after `from`.
pub fn bytes_find_from(s: &[u8], p: &[u8], from: usize) -> (r: Option<usize>)
    ensures
        r matches Some(i) ==> first_occurrence_from(s@, p@, from as int) == Some(i as int),
        r is None ==> first_occurrence_from(s@, p@, from as int) is None,
    decreases s@.len() + 1 - from,
{
    let n = s.len();
    if from > n || p.len() > n - from {
        return None;
    }
    let mut k: usize = 0;
    let mut matched = true;
    while k < p.len()
        invariant
            n == s@.len(),
            from <= s@.len(),
            from + p@.len() <= s@.len(),
            k <= p@.len(),
            matched ==> forall|j: int| 0 <= j < k ==> s@[from + j] == p@[j],
            !matched ==> !occurs_at(s@, p@, from as int),
        decreases p@.len() - k,
    {
        if matched && s[from + k] != p[k] {
            assert(s@.subrange(from as int, from + p@.len())[k as int] != p@[k as int]);
            matched = false;
        }
        k = k + 1;
    }
    if matched {
        assert(s@.subrange(from as int, from + p@.len()) =~= p@);
        Some(from)
    } else {
        proof {
            if p@.len() == 0 {
                lemma_empty_occurs(s@, p@, from as int);
            }
        }
        bytes_find_from(s, p, from + 1)
    }
}

/// Byte-wise strict lexicographic comparison.
pub fn bytes_less(a: &[u8], b: &[u8]) -> (r: bool)
    ensures
        r == bytes_lt(a@, b@),
{
    let mut i: usize = 0;
    assert(a@.skip(0) == a@ && b@.skip(0) == b@);
    assert(a@.take(0) =~= b@.take(0));
    while i < a.len() && i < b.len()
        invariant
            i <= a@.len(),
            i <= b@.len(),
            a@.take(i as int) == b@.take(i as int),
            bytes_lt(a@, b@) == bytes_lt(a@.skip(i as int), b@.skip(i as int)),
        decreases a@.len() - i,
    {
        let ghost sa = a@.skip(i as int);
        let ghost sb = b@.skip(i as int);
        assert(sa[0] == a@[i as int] && sb[0] == b@[i as int]);
        if a[i] != b[i] {
            return a[i] < b[i];
        }
        assert(sa.drop_first() == a@.skip(i + 1));
        assert(sb.drop_first() == b@.skip(i + 1));
        assert(a@.take(i + 1) =~= a@.take(i as int).push(a@[i as int]));
        assert(b@.take(i + 1) =~= b@.take(i as int).push(b@[i as int]));
        i = i + 1;
    }
    i < b.len()
}

/// Byte-wise lexicographic comparison (less or equal).
pub fn bytes_less_eq(a: &[u8], b: &[u8]) -> (r: bool)
    ensures
        r == bytes_le(a@, b@),
{
    if bytes_less(a, b) {
        true
    } else {
        bytes_equal(a, b)
    }
}

/// Byte-wise equality.
pub fn bytes_equal(a: &[u8], b: &[u8]) -> (r: bool)
    ensures
        r == (a@ == b@),
{
    if a.len() != b.len() {
        return false;
    }
    let mut i: usize = 0;
    while i < a.len()
        invariant
            a@.len() == b@.len(),
            i <= a@.len(),
            forall|j: int| 0 <= j < i ==> a@[j] == b@[j],
        decreases a@.len() - i,
    {
        if a[i] != b[i] {
            return false;
        }
        i = i + 1;
    }
    assert(a@ =~= b@);
    true
}


// ---------------------------------------------------------------------------
// Ordered sets of strings
// ---------------------------------------------------------------------------

pub proof fn lemma_bytes_lt_irreflexive(a: Seq<u8>)
    ensures
        !bytes_lt(a, a),
    decreases a.len(),
{
    if a.len() > 0 {
        lemma_bytes_lt_irreflexive(a.drop_first());
    }
}

pub proof fn lemma_bytes_lt_transitive(a: Seq<u8>, b: Seq<u8>, c: Seq<u8>)
    requires
        bytes_lt(a, b),
        bytes_lt(b, c),
    ensures
        bytes_lt(a, c),
    decreases a.len(),
{
    if a.len() > 0 && b.len() > 0 && c.len() > 0 && a[0] == b[0] && b[0] == c[0] {
        lemma_bytes_lt_transitive(a.drop_first(), b.drop_first(), c.drop_first());
    }
}

pub proof fn lemma_bytes_lt_total(a: Seq<u8>, b: Seq<u8>)
    ensures
        a == b || bytes_lt(a, b) || bytes_lt(b, a),
    decreases a.len(),
{
    if a.len() > 0 && b.len() > 0 && a[0] == b[0] {
        lemma_bytes_lt_total(a.drop_first(), b.drop_first());
        if a.drop_first() == b.drop_first() {
            assert(a =~= seq![a[0]] + a.drop_first());
            assert(b =~= seq![b[0]] + b.drop_first());
        }
    } else if a.len() == 0 && b.len() == 0 {
        assert(a =~= b);
    }
}

pub proof fn lemma_bytes_lt_asymmetric(a: Seq<u8>, b: Seq<u8>)
    requires
        bytes_lt(a, b),
    ensures
        !bytes_lt(b, a),
{
    if bytes_lt(b, a) {
        lemma_bytes_lt_transitive(a, b, a);
        lemma_bytes_lt_irreflexive(a);
    }
}

/// Order of strings as Rust orders `str`: by their UTF-8 bytes.
pub open spec fn str_lt(a: Seq<char>, b: Seq<char>) -> bool {
    bytes_lt(utf8_of(a), utf8_of(b))
}

/// Strictly increasing, hence without repetition.
pub open spec fn strictly_sorted(v: Seq<Seq<char>>) -> bool {
    forall|i: int, j: int| 0 <= i < j < v.len() ==> str_lt(#[trigger] v[i], #[trigger] v[j])
}

/// The characters of each string.
pub open spec fn views_of(v: Seq<String>) -> Seq<Seq<char>> {
    v.map_values(|x: String| x@)
}

pub proof fn lemma_str_lt_total(a: Seq<char>, b: Seq<char>)
    ensures
        a == b || str_lt(a, b) || str_lt(b, a),
{
    lemma_bytes_lt_total(utf8_of(a), utf8_of(b));
    if utf8_of(a) == utf8_of(b) {
        vstd::utf8::encode_utf8_decode_utf8(a);
        vstd::utf8::encode_utf8_decode_utf8(b);
    }
}

/// Whether `a` comes before `b` in the order of `str`.
pub fn str_less(a: &str, b: &str) -> (r: bool)
    ensures
        r == str_lt(a@, b@),
{
    let ab = bytes_of(a);
    let bb = bytes_of(b);
    bytes_less(&ab, &bb)
}

/// Inserts `x` into a strictly sorted list of strings unless it is there.
pub fn insert_sorted_unique(v: &mut Vec<String>, x: String)
    requires
        strictly_sorted(views_of(old(v)@)),
    ensures
        strictly_sorted(views_of(final(v)@)),
        views_of(final(v)@).to_set() == views_of(old(v)@).to_set().insert(x@),
{
    let ghost old_views = views_of(v@);
    let mut i: usize = 0;
    while i < v.len() && str_less(v[i].as_str(), x.as_str())
        invariant
            i <= v@.len(),
            views_of(v@) == old_views,
            strictly_sorted(old_views),
            forall|k: int| 0 <= k < i ==> str_lt(#[trigger] old_views[k], x@),
        decreases v@.len() - i,
    {
        assert(old_views[i as int] == v@[i as int]@);
        i = i + 1;
    }
    if i < v.len() {
        assert(old_views[i as int] == v@[i as int]@);
        if v[i] == x {
            assert(old_views.to_set() =~= old_views.to_set().insert(x@));
            return;
        }
        proof {
            lemma_str_lt_total(old_views[i as int], x@);
        }
    }
    v.insert(i, x);
    proof {
        let nv = views_of(v@);
        assert(nv =~= old_views.take(i as int).push(x@) + old_views.skip(i as int));
        assert forall|a: int, b: int| 0 <= a < b < nv.len() implies str_lt(
            #[trigger] nv[a],
            #[trigger] nv[b],
        ) by {
            if b == i {
                assert(nv[a] == old_views[a]);
            } else if a == i {
                assert(nv[b] == old_views[b - 1]);
                if b - 1 > i {
                    assert(str_lt(old_views[i as int], old_views[b - 1]));
                    lemma_bytes_lt_transitive(
                        utf8_of(x@),
                        utf8_of(old_views[i as int]),
                        utf8_of(old_views[b - 1]),
                    );
                }
            } else if a < i && b > i {
                assert(nv[a] == old_views[a]);
                assert(nv[b] == old_views[b - 1]);
            } else if a < i {
                assert(nv[a] == old_views[a]);
                assert(nv[b] == old_views[b]);
            } else {
                assert(nv[a] == old_views[a - 1]);
                assert(nv[b] == old_views[b - 1]);
            }
        }
        assert forall|y: Seq<char>| nv.to_set().contains(y) <==> old_views.to_set().insert(
            x@,
        ).contains(y) by {
            if nv.to_set().contains(y) {
                let k = choose|k: int| 0 <= k < nv.len() && nv[k] == y;
                if k < i {
                    assert(old_views[k] == y);
                } else if k > i {
                    assert(old_views[k - 1] == y);
                }
            }
            if old_views.to_set().contains(y) {
                let k = choose|k: int| 0 <= k < old_views.len() && old_views[k] == y;
                if k < i {
                    assert(nv[k] == y);
                } else {
                    assert(nv[k + 1] == y);
                }
            }
            if y == x@ {
                assert(nv[i as int] == y);
            }
        }
        assert(nv.to_set() =~= old_views.to_set().insert(x@));
    }
}


/// Appends the characters of `s` to `out`.
pub fn push_text(out: &mut Vec<char>, s: &str)
    ensures
        final(out)@ == old(out)@ + s@,
{
    let cs = chars_of(s);
    push_chars(out, &cs);
}

/// Appends `src` to `out`.
pub fn push_chars(out: &mut Vec<char>, src: &[char])
    ensures
        final(out)@ == old(out)@ + src@,
{
    let ghost start = out@;
    let mut k: usize = 0;
    while k < src.len()
        invariant
            k <= src@.len(),
            out@ == start + src@.take(k as int),
        decreases src@.len() - k,
    {
        out.push(src[k]);
        k = k + 1;
        assert(out@ =~= start + src@.take(k as int));
    }
    assert(src@.take(src@.len() as int) == src@);
}

} // verus!
