//! Character-level building blocks: whitespace, trimming, substring search
//! and decimal numerals, each with its mathematical model over `Seq<char>`.

use vstd::prelude::*;

verus! {

/// Whether `c` has the Unicode `White_Space` property (what `str::trim`
/// removes).
pub open spec fn is_space(c: char) -> bool {
    let u = c as u32;
    ||| 0x09 <= u <= 0x0D
    ||| u == 0x20
    ||| u == 0x85
    ||| u == 0xA0
    ||| u == 0x1680
    ||| 0x2000 <= u <= 0x200A
    ||| u == 0x2028
    ||| u == 0x2029
    ||| u == 0x202F
    ||| u == 0x205F
    ||| u == 0x3000
}

/// Whether `c` is one of the ASCII digits `0` to `9`.
pub open spec fn is_digit(c: char) -> bool {
    0x30 <= c as u32 <= 0x39
}

/// The value of the ASCII digit `c`.
pub open spec fn digit_value(c: char) -> nat
    recommends
        is_digit(c),
{
    (c as u32 - 0x30) as nat
}

/// The index just past the run of whitespace that starts at `from`.
pub open spec fn spaces_end(s: Seq<char>, from: int) -> int
    decreases s.len() - from,
{
    if 0 <= from < s.len() && is_space(s[from]) {
        spaces_end(s, from + 1)
    } else {
        from
    }
}

/// The index at which the run of whitespace that ends at `hi` starts, not
/// going below `lo`.
pub open spec fn spaces_start(s: Seq<char>, lo: int, hi: int) -> int
    decreases hi - lo,
{
    if 0 <= lo < hi <= s.len() && is_space(s[hi - 1]) {
        spaces_start(s, lo, hi - 1)
    } else {
        hi
    }
}

/// Where the trimmed part of `s` begins.
pub open spec fn trim_lo(s: Seq<char>) -> int {
    spaces_end(s, 0)
}

/// Where the trimmed part of `s` ends (exclusive).
pub open spec fn trim_hi(s: Seq<char>) -> int {
    spaces_start(s, trim_lo(s), s.len() as int)
}

/// `s` without its leading and trailing whitespace.
pub open spec fn trimmed(s: Seq<char>) -> Seq<char> {
    s.subrange(trim_lo(s), trim_hi(s))
}

/// Whether `needle` occurs in `hay` at index `i`.
pub open spec fn matches_at(hay: Seq<char>, needle: Seq<char>, i: int) -> bool {
    &&& 0 <= i
    &&& i + needle.len() <= hay.len()
    &&& hay.subrange(i, i + needle.len()) == needle
}

/// Whether `i` is the least index at which `needle` occurs in `hay`.
pub open spec fn is_first_match(hay: Seq<char>, needle: Seq<char>, i: int) -> bool {
    &&& matches_at(hay, needle, i)
    &&& forall|j: int| 0 <= j < i ==> !matches_at(hay, needle, j)
}

/// Whether `needle` occurs somewhere in `hay`.
pub open spec fn occurs_in(hay: Seq<char>, needle: Seq<char>) -> bool {
    exists|i: int| matches_at(hay, needle, i)
}

/// The least index at which `needle` occurs in `hay`, if it occurs at all.
pub open spec fn first_match(hay: Seq<char>, needle: Seq<char>) -> Option<int> {
    if occurs_in(hay, needle) {
        Some(choose|i: int| is_first_match(hay, needle, i))
    } else {
        None
    }
}

/// Whether `i` is the greatest index at which `s` holds `c`.
pub open spec fn is_last_index_of(s: Seq<char>, c: char, i: int) -> bool {
    &&& 0 <= i < s.len()
    &&& s[i] == c
    &&& forall|j: int| i < j < s.len() ==> s[j] != c
}

/// The greatest index at which `s` holds `c`, if it holds `c` at all.
pub open spec fn last_index_of(s: Seq<char>, c: char) -> Option<int> {
    if s.contains(c) {
        Some(choose|i: int| is_last_index_of(s, c, i))
    } else {
        None
    }
}

/// Whether `s` is a non-empty run of ASCII digits.
pub open spec fn is_digits(s: Seq<char>) -> bool {
    &&& s.len() > 0
    &&& forall|i: int| 0 <= i < s.len() ==> is_digit(#[trigger] s[i])
}

/// The number that the decimal numeral `s` denotes.
pub open spec fn decimal_value(s: Seq<char>) -> nat
    decreases s.len(),
{
    if s.len() == 0 {
        0
    } else {
        10 * decimal_value(s.drop_last()) + digit_value(s.last())
    }
}

/// What `s` reads as: a number when `s` is a decimal numeral whose value
/// fits in 32 bits, nothing otherwise.
pub open spec fn decimal_of(s: Seq<char>) -> Option<u32> {
    if is_digits(s) && decimal_value(s) <= u32::MAX {
        Some(decimal_value(s) as u32)
    } else {
        None
    }
}

/// The trimmed part of a sequence is a range of it, whitespace lies on both
/// sides of it, and it neither starts nor ends with whitespace.
pub proof fn lemma_trim_bounds(s: Seq<char>)
    ensures
        0 <= trim_lo(s) <= trim_hi(s) <= s.len(),
        forall|k: int| 0 <= k < trim_lo(s) ==> is_space(#[trigger] s[k]),
        forall|k: int| trim_hi(s) <= k < s.len() ==> is_space(#[trigger] s[k]),
        trim_lo(s) < trim_hi(s) ==> !is_space(s[trim_lo(s)]) && !is_space(s[trim_hi(s) - 1]),
{
    lemma_spaces_end(s, 0);
    lemma_spaces_start(s, trim_lo(s), s.len() as int);
}

/// `spaces_end` stops at the first character from `from` on that is not
/// whitespace, or at the end.
pub proof fn lemma_spaces_end(s: Seq<char>, from: int)
    requires
        0 <= from <= s.len(),
    ensures
        from <= spaces_end(s, from) <= s.len(),
        forall|k: int| from <= k < spaces_end(s, from) ==> is_space(#[trigger] s[k]),
        spaces_end(s, from) < s.len() ==> !is_space(s[spaces_end(s, from)]),
    decreases s.len() - from,
{
    if from < s.len() && is_space(s[from]) {
        lemma_spaces_end(s, from + 1);
    }
}

/// `spaces_start` stops just after the last character before `hi` that is not
/// whitespace, or at `lo`.
pub proof fn lemma_spaces_start(s: Seq<char>, lo: int, hi: int)
    requires
        0 <= lo <= hi <= s.len(),
    ensures
        lo <= spaces_start(s, lo, hi) <= hi,
        forall|k: int| spaces_start(s, lo, hi) <= k < hi ==> is_space(#[trigger] s[k]),
        lo < spaces_start(s, lo, hi) ==> !is_space(s[spaces_start(s, lo, hi) - 1]),
    decreases hi - lo,
{
    if lo < hi && is_space(s[hi - 1]) {
        lemma_spaces_start(s, lo, hi - 1);
    }
}

/// At most one index is the first match of a needle.
pub proof fn lemma_first_match_is(hay: Seq<char>, needle: Seq<char>, i: int)
    requires
        is_first_match(hay, needle, i),
    ensures
        first_match(hay, needle) == Some(i),
{
    let c = choose|k: int| is_first_match(hay, needle, k);
    assert(is_first_match(hay, needle, c));
    if c < i {
        assert(!matches_at(hay, needle, c));
    }
    if i < c {
        assert(!matches_at(hay, needle, i));
    }
}

/// A needle that occurs has a first match, and that is what `first_match`
/// gives.
pub proof fn lemma_first_match_some(hay: Seq<char>, needle: Seq<char>)
    requires
        occurs_in(hay, needle),
    ensures
        first_match(hay, needle) is Some,
        is_first_match(hay, needle, first_match(hay, needle).unwrap()),
{
    let w = choose|i: int| matches_at(hay, needle, i);
    lemma_least_match(hay, needle, w, 0);
}

proof fn lemma_least_match(hay: Seq<char>, needle: Seq<char>, w: int, from: int)
    requires
        matches_at(hay, needle, w),
        0 <= from <= w,
        forall|j: int| 0 <= j < from ==> !matches_at(hay, needle, j),
    ensures
        exists|i: int| is_first_match(hay, needle, i),
    decreases w - from,
{
    if matches_at(hay, needle, from) {
        assert(is_first_match(hay, needle, from));
    } else {
        lemma_least_match(hay, needle, w, from + 1);
    }
}

/// At most one index is the last one that holds a character.
pub proof fn lemma_last_index_is(s: Seq<char>, c: char, i: int)
    requires
        is_last_index_of(s, c, i),
    ensures
        last_index_of(s, c) == Some(i),
{
    assert(s.contains(c));
    let k = choose|k: int| is_last_index_of(s, c, k);
    assert(is_last_index_of(s, c, k));
}

/// A character that a sequence holds has a last index, and that is what
/// `last_index_of` gives.
pub proof fn lemma_last_index_some(s: Seq<char>, c: char)
    requires
        s.contains(c),
    ensures
        last_index_of(s, c) is Some,
        is_last_index_of(s, c, last_index_of(s, c).unwrap()),
{
    let w = choose|i: int| 0 <= i < s.len() && s[i] == c;
    lemma_greatest_index(s, c, w, s.len() as int);
}

proof fn lemma_greatest_index(s: Seq<char>, c: char, w: int, below: int)
    requires
        0 <= w < below <= s.len(),
        s[w] == c,
        forall|j: int| below <= j < s.len() ==> s[j] != c,
    ensures
        exists|i: int| is_last_index_of(s, c, i),
    decreases below - w,
{
    if s[below - 1] == c {
        assert(is_last_index_of(s, c, below - 1));
    } else {
        lemma_greatest_index(s, c, w, below - 1);
    }
}

/// The value of a numeral is at least the value of each of its prefixes.
pub proof fn lemma_decimal_prefix(s: Seq<char>, k: int)
    requires
        0 <= k <= s.len(),
    ensures
        decimal_value(s.take(k)) <= decimal_value(s),
    decreases s.len(),
{
    if k == s.len() {
        assert(s.take(k) == s);
    } else {
        lemma_decimal_prefix(s.drop_last(), k);
        assert(s.drop_last().take(k) == s.take(k));
    }
}

/// Whether `c` has the Unicode `White_Space` property.
pub fn is_whitespace(c: char) -> (r: bool)
    ensures
        r == is_space(c),
{
    let u: u32 = c as u32;
    (0x09 <= u && u <= 0x0D) || u == 0x20 || u == 0x85 || u == 0xA0 || u == 0x1680 || (0x2000 <= u
        && u <= 0x200A) || u == 0x2028 || u == 0x2029 || u == 0x202F || u == 0x205F || u == 0x3000
}

/// The characters of `s`, in order.
pub fn chars_of(s: &str) -> (v: Vec<char>)
    ensures
        v@ == s@,
{
    let mut v: Vec<char> = Vec::new();
    let chars = s.chars();
    for c in it: chars
        invariant
            it.seq() == s@,
            v@ == s@.take(it.index() as int),
    {
        v.push(c);
    }
    v
}

/// A copy of `s[lo..hi]`.
pub fn slice_of(s: &Vec<char>, lo: usize, hi: usize) -> (v: Vec<char>)
    requires
        lo <= hi <= s.len(),
    ensures
        v@ == s@.subrange(lo as int, hi as int),
{
    let mut v: Vec<char> = Vec::new();
    let mut i: usize = lo;
    while i < hi
        invariant
            lo <= i <= hi <= s.len(),
            v@ == s@.subrange(lo as int, i as int),
        decreases hi - i,
    {
        v.push(s[i]);
        i += 1;
    }
    v
}

/// The bounds of `s` without its leading and trailing whitespace.
pub fn trim_bounds(s: &Vec<char>) -> (r: (usize, usize))
    ensures
        r.0 == trim_lo(s@),
        r.1 == trim_hi(s@),
        r.0 <= r.1 <= s.len(),
{
    let n: usize = s.len();
    let mut lo: usize = 0;
    while lo < n && is_whitespace(s[lo])
        invariant
            n == s.len(),
            lo <= n,
            spaces_end(s@, lo as int) == spaces_end(s@, 0),
        decreases n - lo,
    {
        lo += 1;
    }
    let mut hi: usize = n;
    while lo < hi && is_whitespace(s[hi - 1])
        invariant
            n == s.len(),
            lo <= hi <= n,
            spaces_start(s@, lo as int, hi as int) == spaces_start(s@, lo as int, n as int),
        decreases hi - lo,
    {
        hi -= 1;
    }
    (lo, hi)
}

/// The least index at which `needle` occurs in `hay`.
pub fn find_first(hay: &Vec<char>, needle: &Vec<char>) -> (r: Option<usize>)
    ensures
        r is Some <==> occurs_in(hay@, needle@),
        match r {
            Some(i) => first_match(hay@, needle@) == Some(i as int) && is_first_match(
                hay@,
                needle@,
                i as int,
            ),
            None => first_match(hay@, needle@) is None,
        },
{
    let n: usize = hay.len();
    let m: usize = needle.len();
    if m > n {
        assert(forall|j: int| !matches_at(hay@, needle@, j));
        return None;
    }
    let limit: usize = n - m;
    let mut i: usize = 0;
    while i < limit
        invariant
            n == hay.len(),
            m == needle.len(),
            limit == n - m,
            i <= limit,
            forall|j: int| 0 <= j < i ==> !matches_at(hay@, needle@, j),
        decreases limit - i,
    {
        if occurs_at(hay, needle, i) {
            proof {
                lemma_first_match_is(hay@, needle@, i as int);
            }
            return Some(i);
        }
        i += 1;
    }
    if occurs_at(hay, needle, limit) {
        proof {
            lemma_first_match_is(hay@, needle@, limit as int);
        }
        return Some(limit);
    }
    assert(forall|j: int| !matches_at(hay@, needle@, j));
    None
}

/// Whether `needle` occurs in `hay` at index `i`.
pub fn occurs_at(hay: &Vec<char>, needle: &Vec<char>, i: usize) -> (r: bool)
    requires
        i + needle.len() <= hay.len(),
    ensures
        r == matches_at(hay@, needle@, i as int),
{
    let m: usize = needle.len();
    let mut k: usize = 0;
    while k < m
        invariant
            m == needle.len(),
            i + m <= hay.len(),
            k <= m,
            forall|j: int| 0 <= j < k ==> hay@[i + j] == needle@[j],
        decreases m - k,
    {
        if hay[i + k] != needle[k] {
            assert(hay@.subrange(i as int, i + m)[k as int] != needle@[k as int]);
            return false;
        }
        k += 1;
    }
    assert(hay@.subrange(i as int, i + m) =~= needle@);
    true
}

/// The greatest index at which `s` holds `c`.
pub fn find_last(s: &Vec<char>, c: char) -> (r: Option<usize>)
    ensures
        r is Some <==> s@.contains(c),
        match r {
            Some(i) => last_index_of(s@, c) == Some(i as int) && is_last_index_of(s@, c, i as int),
            None => last_index_of(s@, c) is None,
        },
{
    let mut i: usize = s.len();
    while i > 0
        invariant
            i <= s.len(),
            forall|j: int| i <= j < s.len() ==> s@[j] != c,
        decreases i,
    {
        i -= 1;
        if s[i] == c {
            proof {
                lemma_last_index_is(s@, c, i as int);
            }
            return Some(i);
        }
    }
    None
}

/// Reads `s[lo..hi]` as a decimal numeral.
pub fn read_decimal(s: &Vec<char>, lo: usize, hi: usize) -> (r: Option<u32>)
    requires
        lo <= hi <= s.len(),
    ensures
        r == decimal_of(s@.subrange(lo as int, hi as int)),
{
    let ghost t = s@.subrange(lo as int, hi as int);
    if lo == hi {
        return None;
    }
    let mut acc: u32 = 0;
    let mut i: usize = lo;
    while i < hi
        invariant
            lo <= i <= hi <= s.len(),
            t == s@.subrange(lo as int, hi as int),
            forall|j: int| 0 <= j < i - lo ==> is_digit(#[trigger] t[j]),
            acc == decimal_value(t.take(i - lo)),
        decreases hi - i,
    {
        let c: char = s[i];
        let u: u32 = c as u32;
        if u < 0x30 || u > 0x39 {
            assert(!is_digit(t[i - lo]));
            return None;
        }
        let d: u32 = u - 0x30;
        proof {
            let next = t.take(i - lo + 1);
            assert(next.drop_last() == t.take(i - lo));
            assert(next.last() == c);
            assert(decimal_value(next) == 10 * acc + d);
            lemma_decimal_prefix(t, i - lo + 1);
        }
        if acc > (u32::MAX - d) / 10 {
            return None;
        }
        acc = acc * 10 + d;
        i += 1;
    }
    assert(t.take(hi - lo) == t);
    Some(acc)
}

} // verus!
