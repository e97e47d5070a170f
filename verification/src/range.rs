//! Episode sub-range selection: reading `"start-end"` and narrowing an
//! episode list to the chosen inclusive range.

use crate::text::{
    chars_of, decimal_of, find_first, first_match, is_digits, is_space, lemma_first_match_some,
    lemma_trim_bounds, read_decimal, slice_of, trim_bounds, trim_hi, trim_lo, trimmed,
};
use vstd::prelude::*;

verus! {

/// Number of episodes above which a sub-range has to be chosen.
pub const RANGE_THRESHOLD: usize = 25;

/// Why a range could not be selected.
#[derive(Debug, Clone, Copy, PartialEq, Eq, Structural)]
pub enum SelectionError {
    /// The text is not two numerals separated by one `-`.
    FormatError,
    /// The numerals do not satisfy `start <= end < episode count`.
    RangeError,
}

/// An inclusive range of episode indices, `start <= end`.
#[derive(Debug, Clone, Copy, PartialEq, Eq, Structural)]
pub struct RangeSelection {
    start: u32,
    end: u32,
}

impl View for RangeSelection {
    type V = (nat, nat);

    closed spec fn view(&self) -> (nat, nat) {
        (self.start as nat, self.end as nat)
    }
}

/// The separator between the two numerals.
pub open spec fn dash() -> Seq<char> {
    seq!['-']
}

/// What a range text means for a list of `episode_count` episodes.
///
/// The text is trimmed; what is left must be a numeral, the first `-`, and a
/// numeral, so a second `-` or a sign makes it malformed. Well-formed bounds
/// are then held against the episode count.
pub open spec fn selection_of(input: Seq<char>, episode_count: nat) -> Result<
    (nat, nat),
    SelectionError,
> {
    let t = trimmed(input);
    match first_match(t, dash()) {
        None => Err(SelectionError::FormatError),
        Some(d) => match (decimal_of(t.subrange(0, d)), decimal_of(t.subrange(d + 1, t.len() as int))) {
            (Some(a), Some(b)) => if a <= b && b < episode_count {
                Ok((a as nat, b as nat))
            } else {
                Err(SelectionError::RangeError)
            },
            _ => Err(SelectionError::FormatError),
        },
    }
}

/// Whether every character of `s` is whitespace.
pub open spec fn all_spaces(s: Seq<char>) -> bool {
    forall|i: int| 0 <= i < s.len() ==> is_space(#[trigger] s[i])
}

/// Whether `s` is a numeral with an optional `-` in front.
pub open spec fn is_signed_digits(s: Seq<char>) -> bool {
    is_digits(s) || (s.len() > 0 && s[0] == '-' && is_digits(s.drop_first()))
}

/// Whether the six parts are whitespace, a signed numeral, whitespace,
/// whitespace, a signed numeral and whitespace, and `s` is made of them with
/// a `-` between the third and the fourth.
pub open spec fn loose_parts(
    s: Seq<char>,
    w0: Seq<char>,
    n1: Seq<char>,
    w1: Seq<char>,
    w2: Seq<char>,
    n2: Seq<char>,
    w3: Seq<char>,
) -> bool {
    &&& all_spaces(w0)
    &&& is_signed_digits(n1)
    &&& all_spaces(w1)
    &&& all_spaces(w2)
    &&& is_signed_digits(n2)
    &&& all_spaces(w3)
    &&& s == w0 + n1 + w1 + dash() + w2 + n2 + w3
}

/// The loose shape of a range text: optional whitespace, an optionally
/// signed numeral, optional whitespace, `-`, optional whitespace, an
/// optionally signed numeral, optional whitespace.
pub open spec fn is_loose_range(s: Seq<char>) -> bool {
    exists|w0: Seq<char>, n1: Seq<char>, w1: Seq<char>, w2: Seq<char>, n2: Seq<char>, w3: Seq<char>|
        loose_parts(s, w0, n1, w1, w2, n2, w3)
}

/// A text that does not even have the loose shape of a range is malformed,
/// whatever the episode count.
pub proof fn lemma_not_loose_is_format_error(input: Seq<char>, episode_count: nat)
    requires
        !is_loose_range(input),
    ensures
        selection_of(input, episode_count) == Err::<(nat, nat), _>(SelectionError::FormatError),
{
    let t = trimmed(input);
    lemma_trim_bounds(input);
    if first_match(t, dash()) is Some {
        let d = first_match(t, dash()).unwrap();
        let left = t.subrange(0, d);
        let right = t.subrange(d + 1, t.len() as int);
        lemma_first_match_some(t, dash());
        if decimal_of(left) is Some && decimal_of(right) is Some {
            let w0 = input.subrange(0, trim_lo(input));
            let w3 = input.subrange(trim_hi(input), input.len() as int);
            let e = Seq::<char>::empty();
            assert(t.subrange(d, d + 1) == dash());
            assert(t =~= left + dash() + right);
            assert(input =~= w0 + t + w3);
            assert(input =~= w0 + left + e + dash() + e + right + w3);
            assert(loose_parts(input, w0, left, e, e, right, w3));
        }
    }
}

impl RangeSelection {
    #[verifier::type_invariant]
    spec fn ordered(self) -> bool {
        self.start <= self.end
    }

    /// The range from `start` to `end`, both included, of a list of
    /// `episode_count` episodes.
    pub fn new(start: u32, end: u32, episode_count: usize) -> (r: Result<Self, SelectionError>)
        ensures
            start <= end < episode_count ==> r is Ok && r.unwrap()@ == (start as nat, end as nat),
            !(start <= end < episode_count) ==> r == Err::<Self, _>(SelectionError::RangeError),
    {
        if start <= end && (end as usize) < episode_count {
            Ok(RangeSelection { start, end })
        } else {
            Err(SelectionError::RangeError)
        }
    }

    /// Index of the first episode of the range.
    pub fn start(&self) -> (r: u32)
        ensures
            r == self@.0,
            r <= self@.1,
    {
        proof {
            use_type_invariant(self);
        }
        self.start
    }

    /// Index of the last episode of the range.
    pub fn end(&self) -> (r: u32)
        ensures
            r == self@.1,
            self@.0 <= r,
    {
        proof {
            use_type_invariant(self);
        }
        self.end
    }
}

/// Whether a list of `episode_count` episodes is long enough that a
/// sub-range has to be chosen before downloading.
pub fn needs_range(episode_count: usize) -> (r: bool)
    ensures
        r == (episode_count > RANGE_THRESHOLD),
{
    episode_count > RANGE_THRESHOLD
}

/// Reads a range text such as `"3-7"` against a list of `episode_count`
/// episodes.
pub fn parse_range(input: &str, episode_count: usize) -> (r: Result<RangeSelection, SelectionError>)
    ensures
        match selection_of(input@, episode_count as nat) {
            Ok(bounds) => r is Ok && r.unwrap()@ == bounds,
            Err(e) => r == Err::<RangeSelection, _>(e),
        },
{
    let chars = chars_of(input);
    let (lo, hi) = trim_bounds(&chars);
    let t = slice_of(&chars, lo, hi);
    let mut sep: Vec<char> = Vec::new();
    sep.push('-');
    assert(sep@ == dash());
    match find_first(&t, &sep) {
        None => Err(SelectionError::FormatError),
        Some(d) => {
            let first = read_decimal(&t, 0, d);
            let second = read_decimal(&t, d + 1, t.len());
            match (first, second) {
                (Some(a), Some(b)) => RangeSelection::new(a, b, episode_count),
                _ => Err(SelectionError::FormatError),
            }
        },
    }
}

/// The episodes of the selected range, in order.
pub fn narrow(episodes: &Vec<String>, selection: &RangeSelection) -> (r: Result<
    Vec<String>,
    SelectionError,
>)
    ensures
        selection@.1 < episodes.len() ==> r is Ok && r.unwrap()@ == episodes@.subrange(
            selection@.0 as int,
            selection@.1 as int + 1,
        ),
        selection@.1 >= episodes.len() ==> r is Err && r->Err_0 == SelectionError::RangeError,
{
    let start = selection.start() as usize;
    let end = selection.end() as usize;
    if end >= episodes.len() {
        return Err(SelectionError::RangeError);
    }
    let mut kept: Vec<String> = Vec::new();
    let mut i: usize = start;
    while i <= end
        invariant
            start <= i <= end + 1,
            end < episodes.len(),
            kept@ == episodes@.subrange(start as int, i as int),
        decreases end + 1 - i,
    {
        kept.push(episodes[i].clone());
        i += 1;
    }
    Ok(kept)
}

} // verus!
