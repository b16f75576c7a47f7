//! Scheduling periods ("Fall 2023"): reading them, ordering them, and the
//! decisions of the navigation that steps a schedule to a target period.

use crate::text::{
    chars_of, digits_value, find_last_digit_run, last_digit_run, lemma_last_digit_run_is_digits,
    parse_digits, parse_unsigned, split_words, views, words,
};
use std::cmp::Ordering;
use vstd::prelude::*;

verus! {

/// A period within a year.
#[derive(Copy, Clone, PartialEq, Eq, Structural, Debug)]
pub enum Semester {
    Winter,
    Summer,
    Fall,
}

/// A period identifier: a semester of a year.
#[derive(Copy, Clone, PartialEq, Eq, Structural, Debug)]
pub struct Date {
    pub semester: Semester,
    pub year: u32,
}

/// Why text is not a period identifier or holds no number.
#[derive(Copy, Clone, PartialEq, Eq, Structural, Debug)]
pub enum ParseError {
    /// Not exactly two white-space-separated words.
    InvalidFormat,
    /// The first word names no semester.
    InvalidSemester,
    /// The year, or the number, is not a decimal that fits.
    InvalidNumber,
    /// The text holds no digit.
    NoNumber,
}

/// The fixed rank of a semester within a year.
pub open spec fn rank(s: Semester) -> nat {
    match s {
        Semester::Fall => 1,
        Semester::Summer => 2,
        Semester::Winter => 3,
    }
}

pub open spec fn compare_nat(a: nat, b: nat) -> Ordering {
    if a < b {
        Ordering::Less
    } else if a == b {
        Ordering::Equal
    } else {
        Ordering::Greater
    }
}

/// Periods order by year first, then by semester rank.
pub open spec fn compare_dates(a: Date, b: Date) -> Ordering {
    if a.year != b.year {
        compare_nat(a.year as nat, b.year as nat)
    } else {
        compare_nat(rank(a.semester), rank(b.semester))
    }
}

pub open spec fn semester_of(w: Seq<char>) -> Option<Semester> {
    if w == seq!['W', 'i', 'n', 't', 'e', 'r'] {
        Some(Semester::Winter)
    } else if w == seq!['S', 'u', 'm', 'm', 'e', 'r'] {
        Some(Semester::Summer)
    } else if w == seq!['F', 'a', 'l', 'l'] {
        Some(Semester::Fall)
    } else {
        None
    }
}

/// A period identifier is a semester name and a year, separated by white space.
pub open spec fn parse_date(s: Seq<char>) -> Result<Date, ParseError> {
    let ws = words(s);
    if ws.len() != 2 {
        Err(ParseError::InvalidFormat)
    } else {
        match semester_of(ws[0]) {
            None => Err(ParseError::InvalidSemester),
            Some(semester) => match parse_unsigned(ws[1], u32::MAX as nat) {
                None => Err(ParseError::InvalidNumber),
                Some(y) => Ok(Date { semester, year: y as u32 }),
            },
        }
    }
}

/// Period comparison is a total order: it says `Equal` exactly for equal
/// periods, swapping the operands reverses it, and `Less` is transitive.
pub proof fn lemma_compare_dates_total_order(a: Date, b: Date, c: Date)
    ensures
        compare_dates(a, b) == Ordering::Equal <==> a == b,
        compare_dates(a, b) == Ordering::Less <==> compare_dates(b, a) == Ordering::Greater,
        compare_dates(a, b) == Ordering::Less && compare_dates(b, c) == Ordering::Less
            ==> compare_dates(a, c) == Ordering::Less,
        a.year < b.year ==> compare_dates(a, b) == Ordering::Less,
{
    if compare_dates(a, b) == Ordering::Equal {
        assert(a.year == b.year);
        assert(rank(a.semester) == rank(b.semester));
        assert(a.semester == b.semester);
    }
}

impl Semester {
    /// The fixed rank of this semester within a year.
    pub fn rank(&self) -> (r: u8)
        ensures
            r == rank(*self),
    {
        match self {
            Semester::Fall => 1,
            Semester::Summer => 2,
            Semester::Winter => 3,
        }
    }
}

fn semester_from_word(w: &Vec<char>) -> (r: Option<Semester>)
    ensures
        r == semester_of(w@),
{
    if w.len() == 6 && w[0] == 'W' && w[1] == 'i' && w[2] == 'n' && w[3] == 't' && w[4] == 'e'
        && w[5] == 'r' {
        assert(w@ =~= seq!['W', 'i', 'n', 't', 'e', 'r']);
        Some(Semester::Winter)
    } else if w.len() == 6 && w[0] == 'S' && w[1] == 'u' && w[2] == 'm' && w[3] == 'm' && w[4]
        == 'e' && w[5] == 'r' {
        assert(w@ =~= seq!['S', 'u', 'm', 'm', 'e', 'r']);
        assert(w@ != seq!['W', 'i', 'n', 't', 'e', 'r']);
        Some(Semester::Summer)
    } else if w.len() == 4 && w[0] == 'F' && w[1] == 'a' && w[2] == 'l' && w[3] == 'l' {
        assert(w@ =~= seq!['F', 'a', 'l', 'l']);
        Some(Semester::Fall)
    } else {
        proof {
            if w@ == seq!['W', 'i', 'n', 't', 'e', 'r'] {
                assert(w@[0] == 'W' && w@[5] == 'r');
            }
            if w@ == seq!['S', 'u', 'm', 'm', 'e', 'r'] {
                assert(w@[0] == 'S' && w@[5] == 'r');
            }
            if w@ == seq!['F', 'a', 'l', 'l'] {
                assert(w@[0] == 'F' && w@[3] == 'l');
            }
        }
        None
    }
}

impl Date {
    /// Reads a period identifier such as `"Fall 2023"`: exactly two
    /// white-space-separated words, a semester name (`Winter`, `Summer`,
    /// `Fall`) and a year that fits in a `u32`.
    pub fn from_str(input: &str) -> (r: Result<Date, ParseError>)
        ensures
            r == parse_date(input@),
    {
        let chars = chars_of(input);
        let ws = split_words(&chars);
        assert(ws@.len() == views(ws@).len());
        if ws.len() != 2 {
            return Err(ParseError::InvalidFormat);
        }
        assert(views(ws@)[0] == ws@[0]@);
        assert(views(ws@)[1] == ws@[1]@);
        let semester = match semester_from_word(&ws[0]) {
            Some(s) => s,
            None => return Err(ParseError::InvalidSemester),
        };
        let y = &ws[1];
        let start: usize = if y.len() > 0 && y[0] == '+' {
            1
        } else {
            0
        };
        assert(y@.subrange(start as int, y@.len() as int) =~= (if y@.len() > 0 && y@[0] == '+' {
            y@.drop_first()
        } else {
            y@
        }));
        match parse_digits(y, start, y.len(), u32::MAX as u64) {
            Some(v) => Ok(Date { semester, year: v as u32 }),
            None => Err(ParseError::InvalidNumber),
        }
    }

    /// Compares two periods: by year first, then by semester rank.
    pub fn compare(&self, other: &Date) -> (r: Ordering)
        ensures
            r == compare_dates(*self, *other),
    {
        if self.year < other.year {
            Ordering::Less
        } else if self.year > other.year {
            Ordering::Greater
        } else {
            let a = self.semester.rank();
            let b = other.semester.rank();
            if a < b {
                Ordering::Less
            } else if a == b {
                Ordering::Equal
            } else {
                Ordering::Greater
            }
        }
    }
}

impl PartialOrd for Date {
    fn partial_cmp(&self, other: &Date) -> (r: Option<Ordering>) {
        Some(self.compare(other))
    }
}

impl vstd::std_specs::cmp::PartialOrdSpecImpl for Date {
    open spec fn obeys_partial_cmp_spec() -> bool {
        true
    }

    open spec fn partial_cmp_spec(&self, other: &Date) -> Option<Ordering> {
        Some(compare_dates(*self, *other))
    }
}

impl PartialOrd for Semester {
    fn partial_cmp(&self, other: &Semester) -> (r: Option<Ordering>) {
        let a = self.rank();
        let b = other.rank();
        if a < b {
            Some(Ordering::Less)
        } else if a == b {
            Some(Ordering::Equal)
        } else {
            Some(Ordering::Greater)
        }
    }
}

impl vstd::std_specs::cmp::PartialOrdSpecImpl for Semester {
    open spec fn obeys_partial_cmp_spec() -> bool {
        true
    }

    open spec fn partial_cmp_spec(&self, other: &Semester) -> Option<Ordering> {
        Some(compare_nat(rank(*self), rank(*other)))
    }
}

/// The number that the last run of digits in `s` spells, if it fits in an `i64`.
pub open spec fn extract_number_of(s: Seq<char>) -> Result<i64, ParseError> {
    let run = last_digit_run(s);
    if run.len() == 0 {
        Err(ParseError::NoNumber)
    } else if digits_value(run) <= i64::MAX {
        Ok(digits_value(run) as i64)
    } else {
        Err(ParseError::InvalidNumber)
    }
}

/// Reads the last run of ASCII digits in `input` as a number: `NoNumber` when
/// there is no digit, `InvalidNumber` when the run does not fit in an `i64`.
pub fn extract_number(input: &str) -> (r: Result<i64, ParseError>)
    ensures
        r == extract_number_of(input@),
{
    let chars = chars_of(input);
    let (start, end) = find_last_digit_run(&chars);
    proof {
        lemma_last_digit_run_is_digits(chars@);
    }
    if start == end {
        return Err(ParseError::NoNumber);
    }
    match parse_digits(&chars, start, end, i64::MAX as u64) {
        Some(v) => Ok(v as i64),
        None => Err(ParseError::InvalidNumber),
    }
}

/// Which control to use to bring the schedule's shown period to the target.
#[derive(Copy, Clone, PartialEq, Eq, Structural, Debug)]
pub enum NavStep {
    /// Press the control for the previous period.
    Previous,
    /// Press the control for the next period.
    Next,
    /// The target period is shown.
    Done,
}

/// The navigation decision: a shown period before the target calls for the
/// previous-period control, one after it for the next-period control.
pub fn navigation_step(current: &Date, target: &Date) -> (r: NavStep)
    ensures
        r == match compare_dates(*current, *target) {
            Ordering::Less => NavStep::Previous,
            Ordering::Equal => NavStep::Done,
            Ordering::Greater => NavStep::Next,
        },
{
    match current.compare(target) {
        Ordering::Less => NavStep::Previous,
        Ordering::Equal => NavStep::Done,
        Ordering::Greater => NavStep::Next,
    }
}

/// How many times a page interaction is attempted.
pub const INTERACTION_ATTEMPTS: u32 = 3;

/// Pause after a failed interaction.
pub const INTERACTION_PAUSE_MS: u64 = 1_000;

/// After the `failed_attempts`-th failed interaction (and its pause), whether
/// to try again.
pub fn retry_after_failure(failed_attempts: u32) -> (r: bool)
    ensures
        r == (failed_attempts < INTERACTION_ATTEMPTS),
{
    failed_attempts < INTERACTION_ATTEMPTS
}

} // verus!
