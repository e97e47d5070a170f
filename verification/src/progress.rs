//! Reading one line of downloader output: the percentage word and the
//! transfer-rate annotation of a progress line.

use crate::text::{
    chars_of, find_first, find_last, first_match, is_space, is_whitespace, last_index_of,
    matches_at, occurs_in, slice_of, trim_bounds, trimmed,
};
use vstd::prelude::*;

verus! {

/// The tag that marks a progress line.
pub open spec fn progress_tag() -> Seq<char> {
    "[download]"@
}

/// The marker after which the transfer rate stands.
pub open spec fn rate_opening() -> Seq<char> {
    " at "@
}

/// The marker before which the transfer rate stands.
pub open spec fn rate_closing() -> Seq<char> {
    " ETA "@
}

/// Where the word that ends just before index `end` starts: the run of
/// characters that are not whitespace, as far back as it goes.
pub open spec fn word_start(s: Seq<char>, end: int) -> int
    decreases end,
{
    if 0 < end <= s.len() && !is_space(s[end - 1]) {
        word_start(s, end - 1)
    } else {
        end
    }
}

/// Start and end of the word in front of the last `%` of `line`.
pub open spec fn percent_span(line: Seq<char>) -> Option<(int, int)> {
    match last_index_of(line, '%') {
        Some(p) => Some((word_start(line, p), p)),
        None => None,
    }
}

/// The word in front of the last `%` of `line`, without the `%`. It is empty
/// when whitespace or nothing precedes the `%`.
pub open spec fn percent_word(line: Seq<char>) -> Option<Seq<char>> {
    match percent_span(line) {
        Some((from, to)) => Some(line.subrange(from, to)),
        None => None,
    }
}

/// Start and end of the text between the first `" at "` and the first
/// `" ETA "` of `line`, where the one ends before the other begins.
pub open spec fn rate_span(line: Seq<char>) -> Option<(int, int)> {
    match (first_match(line, rate_opening()), first_match(line, rate_closing())) {
        (Some(a), Some(e)) => if a + rate_opening().len() <= e {
            Some((a + rate_opening().len(), e))
        } else {
            None
        },
        _ => None,
    }
}

/// The transfer-rate annotation of `line`: the trimmed text between the
/// two rate markers.
pub open spec fn rate_text(line: Seq<char>) -> Option<Seq<char>> {
    match rate_span(line) {
        Some((from, to)) => Some(trimmed(line.subrange(from, to))),
        None => None,
    }
}

/// Whether `line` is a progress line with a percentage on it.
pub open spec fn bears_progress(line: Seq<char>) -> bool {
    occurs_in(line, progress_tag()) && line.contains('%')
}

/// What one line of downloader output says.
#[derive(Debug, Clone, PartialEq, Eq)]
pub enum LineSignal {
    /// The line is no progress line, or has no percentage.
    NoSignal,
    /// The line is a progress line.
    Progress(ProgressSignal),
}

/// What a progress line carries.
#[derive(Debug, Clone, PartialEq, Eq)]
pub struct ProgressSignal {
    /// The word in front of the last `%`, to be read as a number.
    pub percent: String,
    /// The transfer rate, where the line gives one.
    pub rate: Option<String>,
}

impl ProgressSignal {
    /// Whether the signal is what `line` carries.
    pub open spec fn is_signal_of(self, line: Seq<char>) -> bool {
        &&& percent_word(line) == Some(self.percent@)
        &&& match rate_text(line) {
            Some(rate) => self.rate is Some && self.rate.unwrap()@ == rate,
            None => self.rate is None,
        }
    }
}

impl LineSignal {
    /// Whether the signal is what `line` says.
    pub open spec fn is_signal_of(self, line: Seq<char>) -> bool {
        match self {
            LineSignal::NoSignal => !bears_progress(line),
            LineSignal::Progress(signal) => bears_progress(line) && signal.is_signal_of(line),
        }
    }
}

/// The word of a run that ends at `end` starts where `word_start` says.
fn word_start_of(s: &Vec<char>, end: usize) -> (r: usize)
    requires
        end <= s.len(),
    ensures
        r == word_start(s@, end as int),
        r <= end,
{
    let mut i: usize = end;
    while i > 0 && !is_whitespace(s[i - 1])
        invariant
            i <= end <= s.len(),
            word_start(s@, i as int) == word_start(s@, end as int),
        decreases i,
    {
        i -= 1;
    }
    i
}

fn percent_bounds(line: &Vec<char>) -> (r: Option<(usize, usize)>)
    ensures
        match r {
            Some((from, to)) => percent_span(line@) == Some((from as int, to as int)) && from <= to
                <= line.len(),
            None => percent_span(line@) is None,
        },
        r is Some <==> line@.contains('%'),
{
    match find_last(line, '%') {
        Some(p) => Some((word_start_of(line, p), p)),
        None => None,
    }
}

fn rate_bounds(line: &Vec<char>) -> (r: Option<(usize, usize)>)
    ensures
        match r {
            Some((from, to)) => {
                &&& from <= to <= line.len()
                &&& rate_text(line@) == Some(line@.subrange(from as int, to as int))
            },
            None => rate_text(line@) is None,
        },
{
    let opening = chars_of(" at ");
    let closing = chars_of(" ETA ");
    match find_first(line, &opening) {
        None => None,
        Some(a) => match find_first(line, &closing) {
            None => None,
            Some(e) => {
                assert(a + opening.len() <= line.len()) by {
                    assert(matches_at(line@, opening@, a as int));
                }
                let from = a + opening.len();
                if from <= e {
                    let between = slice_of(line, from, e);
                    let (lo, hi) = trim_bounds(&between);
                    assert(line@.subrange(from + lo, from + hi) == between@.subrange(
                        lo as int,
                        hi as int,
                    ));
                    Some((from + lo, from + hi))
                } else {
                    None
                }
            },
        },
    }
}

fn text_of(line: &str, from: usize, to: usize) -> (r: String)
    requires
        from <= to <= line@.len(),
    ensures
        r@ == line@.subrange(from as int, to as int),
{
    line.substring_char(from, to).to_owned()
}

/// The word in front of the last `%` of `line`, for the caller to read as a
/// number; nothing where `line` holds no `%`.
pub fn extract_percent(line: &str) -> (r: Option<String>)
    ensures
        match percent_word(line@) {
            Some(word) => r is Some && r.unwrap()@ == word,
            None => r is None,
        },
{
    let chars = chars_of(line);
    match percent_bounds(&chars) {
        Some((from, to)) => Some(text_of(line, from, to)),
        None => None,
    }
}

/// The transfer rate on `line`: the trimmed text between the first `" at "`
/// and the first `" ETA "`; nothing where either is missing or they are out
/// of order.
pub fn extract_speed(line: &str) -> (r: Option<String>)
    ensures
        match rate_text(line@) {
            Some(rate) => r is Some && r.unwrap()@ == rate,
            None => r is None,
        },
{
    let chars = chars_of(line);
    match rate_bounds(&chars) {
        Some((from, to)) => Some(text_of(line, from, to)),
        None => None,
    }
}

/// Reads one line of downloader output.
pub fn parse_line(line: &str) -> (r: LineSignal)
    ensures
        r.is_signal_of(line@),
{
    let chars = chars_of(line);
    let tag = chars_of("[download]");
    if find_first(&chars, &tag).is_none() {
        return LineSignal::NoSignal;
    }
    match percent_bounds(&chars) {
        None => LineSignal::NoSignal,
        Some((from, to)) => {
            let percent = text_of(line, from, to);
            let rate = match rate_bounds(&chars) {
                Some((rate_from, rate_to)) => Some(text_of(line, rate_from, rate_to)),
                None => None,
            };
            LineSignal::Progress(ProgressSignal { percent, rate })
        },
    }
}

} // verus!
