//! The look of a task's progress bar, checked before any task starts.

use crate::text::{chars_of, is_digit};
use indicatif::style::TemplateError;
use indicatif::ProgressStyle;
use vstd::prelude::*;

verus! {

/// indicatif's `ProgressStyle`, the look of a progress bar. Nothing is known
/// of what a value holds; it is made here and handed on.
#[verifier::external_type_specification]
#[verifier::external_body]
pub struct ExProgressStyle(ProgressStyle);

/// indicatif's `TemplateError`, which says where a template is malformed.
/// Nothing is known of what a value holds.
#[verifier::external_type_specification]
#[verifier::external_body]
pub struct ExTemplateError(TemplateError);

/// Whether `indicatif::ProgressStyle::with_template` accepts `template`,
/// which its grammar decides from the characters of the template alone.
pub uninterp spec fn template_accepted(template: Seq<char>) -> bool;

/// Why a bar style could not be made.
#[derive(Debug, Clone, Copy, PartialEq, Eq, Structural)]
pub enum StyleError {
    /// The template holds more digits than a width may have.
    WidthTooLong,
    /// The template is malformed.
    Malformed,
}

/// The most digits a template may hold.
pub const MAX_TEMPLATE_DIGITS: usize = 4;

/// The template of a task's progress bar.
pub open spec fn bar_template() -> Seq<char> {
    "{spinner:.cyan} [{elapsed_precise}] [{bar:40.green/white}] {percent:>3}% {msg}"@
}

/// The characters that a bar is drawn with: done, head, to do.
pub open spec fn bar_chars() -> Seq<char> {
    "=>-"@
}

/// How many ASCII digits `s` holds.
pub open spec fn digit_count(s: Seq<char>) -> nat
    decreases s.len(),
{
    if s.len() == 0 {
        0
    } else {
        digit_count(s.drop_last()) + if is_digit(s.last()) {
            1nat
        } else {
            0nat
        }
    }
}

/// Whether `s` is at least two printable ASCII characters.
pub open spec fn is_bar_chars(s: Seq<char>) -> bool {
    &&& s.len() >= 2
    &&& forall|i: int| 0 <= i < s.len() ==> 0x20 <= (#[trigger] s[i]) as u32 <= 0x7E
}

/// Calls `indicatif::ProgressStyle::with_template`, which parses the
/// template in one pass and keeps it in the style it returns. It fails on
/// a character that its grammar does not expect; `template_accepted` names
/// the templates on which it does not. The parser reads the digits of a
/// placeholder's width into a 16-bit number and panics where they do not
/// fit; with at most four digits in the whole template they do.
#[verifier::external_body]
fn parse_template(template: &str) -> (r: Result<ProgressStyle, TemplateError>)
    requires
        digit_count(template@) <= MAX_TEMPLATE_DIGITS,
    ensures
        r is Ok <==> template_accepted(template@),
{
    ProgressStyle::with_template(template)
}

/// Calls `indicatif::ProgressStyle::progress_chars`, which sets the
/// characters that the bar is drawn with. It panics on fewer than two
/// characters and on characters of unequal display width; printable ASCII
/// characters are one column wide each.
#[verifier::external_body]
fn with_bar_chars(style: ProgressStyle, chars: &str) -> (r: ProgressStyle)
    requires
        is_bar_chars(chars@),
{
    style.progress_chars(chars)
}

/// How many ASCII digits `s` holds.
fn count_digits(s: &Vec<char>) -> (r: usize)
    ensures
        r == digit_count(s@),
{
    let mut count: usize = 0;
    let mut i: usize = 0;
    while i < s.len()
        invariant
            i <= s.len(),
            count <= i,
            count == digit_count(s@.take(i as int)),
        decreases s.len() - i,
    {
        let u: u32 = s[i] as u32;
        proof {
            let upto = s@.take(i + 1);
            assert(upto.drop_last() == s@.take(i as int));
            assert(upto.last() == s@[i as int]);
        }
        if 0x30 <= u && u <= 0x39 {
            count += 1;
        }
        i += 1;
    }
    assert(s@.take(i as int) == s@);
    count
}

/// A bar style with the given template, drawn with `=>-`.
///
/// A template with more than `MAX_TEMPLATE_DIGITS` digits is refused
/// unread; any other is handed to indicatif's parser, and is malformed
/// where that refuses it.
pub fn style_from_template(template: &str) -> (r: Result<ProgressStyle, StyleError>)
    ensures
        digit_count(template@) > MAX_TEMPLATE_DIGITS ==> r is Err && r->Err_0
            == StyleError::WidthTooLong,
        digit_count(template@) <= MAX_TEMPLATE_DIGITS && !template_accepted(template@) ==> r is Err
            && r->Err_0 == StyleError::Malformed,
        digit_count(template@) <= MAX_TEMPLATE_DIGITS && template_accepted(template@) ==> r is Ok,
{
    let chars = chars_of(template);
    if count_digits(&chars) > MAX_TEMPLATE_DIGITS {
        return Err(StyleError::WidthTooLong);
    }
    match parse_template(template) {
        Ok(style) => {
            proof {
                reveal_strlit("=>-");
            }
            Ok(with_bar_chars(style, "=>-"))
        },
        Err(_) => Err(StyleError::Malformed),
    }
}

/// The style of a task's progress bar: a spinner, the time elapsed, a bar
/// of forty columns, the percentage and a message.
pub fn progress_style() -> (r: Result<ProgressStyle, StyleError>)
    ensures
        r is Ok <==> template_accepted(bar_template()),
        r is Err ==> r->Err_0 == StyleError::Malformed,
{
    proof {
        lemma_bar_template_digits();
    }
    style_from_template(
        "{spinner:.cyan} [{elapsed_precise}] [{bar:40.green/white}] {percent:>3}% {msg}",
    )
}

/// The bar template holds three digits, those of its two widths.
pub proof fn lemma_bar_template_digits()
    ensures
        digit_count(bar_template()) <= 3,
{
    reveal_strlit("{spinner:.cyan} [{elapsed_precise}] [{bar:40.green/white}] {percent:>3}% {msg}");
    let t = bar_template();
    assert(t.len() == 78);
    assert forall|i: int| 0 <= i < t.len() && is_digit(#[trigger] t[i]) implies set![
        42int,
        43int,
        69int,
    ].contains(i) by {
        if i < 20 {
        } else if i < 40 {
        } else if i < 60 {
        } else {
        }
    }
    lemma_digits_within(t, set![42int, 43int, 69int]);
}

/// A text whose digits all stand at positions of a finite set holds at
/// most as many digits as the set has members.
pub proof fn lemma_digits_within(s: Seq<char>, positions: Set<int>)
    requires
        positions.finite(),
        forall|i: int| 0 <= i < s.len() && is_digit(#[trigger] s[i]) ==> positions.contains(i),
    ensures
        digit_count(s) <= positions.len(),
    decreases s.len(),
{
    if s.len() > 0 {
        let front = s.drop_last();
        let last = s.len() - 1;
        assert forall|i: int| 0 <= i < front.len() && is_digit(#[trigger] front[i]) implies positions.remove(
            last,
        ).contains(i) by {
            assert(front[i] == s[i]);
        }
        lemma_digits_within(front, positions.remove(last));
        if is_digit(s.last()) {
            assert(positions.contains(last));
        }
    }
}

} // verus!
