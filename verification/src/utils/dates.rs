//! Calendar dates and the operative date range of a notice.

use chrono::Datelike;
use std::fmt::Write;
use vstd::prelude::*;
use crate::error::PipelineError;
use crate::utils::pattern::find_captures;
use crate::utils::pattern::pattern_captures;
use crate::utils::pattern::texts_view;
use crate::utils::text::chars_of;
use crate::utils::text::find_from;
use crate::utils::text::first_occurrence;
use crate::utils::text::number_chars;
use crate::utils::text::number_text;
use crate::utils::text::push_all;
use crate::utils::text::remove_char;
use crate::utils::text::slice_of;
use crate::utils::text::text_of;
use crate::utils::text::trim;
use crate::utils::text::trimmed;
use crate::utils::text::without_char;

verus! {

/// The tokens that look like a date: a day of one or two digits, a word
/// that starts like the name of a month, and perhaps a year of four digits.
pub const DATE_PATTERN: &'static str = r"\b\d{1,2}\s+[ADFJMNOS]\w+(?:\s+\d{4})?\b";

/// The form in which a date token is read: day, name of the month, year.
pub const DATE_FORMAT: &'static str = "%e %B %Y";

/// The phrases that open the clause on the period of a declaration, in the
/// order in which they are looked for.
pub const ANCHOR_IN_PLACE: &'static str = "This declaration will be in place";

pub const ANCHOR_OPERATE: &'static str = "This declaration will operate as follows";

pub const ANCHOR_OPERATING: &'static str = "The declared Designated Area will be operating";

/// The form in which a date is written out: year, month and day.
pub const DATE_TEXT_FORMAT: &'static str = "%Y-%m-%d";

/// What ends the clause.
pub const SENTENCE_END: &'static str = ". ";

/// A day of the calendar.
#[derive(Clone, Copy, Debug, PartialEq, Eq, Structural)]
pub struct CalendarDate {
    pub year: i32,
    pub month: u32,
    pub day: u32,
}

impl CalendarDate {
    /// Whether this day comes before `other`.
    pub open spec fn before(self, other: CalendarDate) -> bool {
        ||| self.year < other.year
        ||| (self.year == other.year && self.month < other.month)
        ||| (self.year == other.year && self.month == other.month && self.day < other.day)
    }

    /// Whether this day comes before `other`.
    pub fn is_before(&self, other: &CalendarDate) -> (r: bool)
        ensures
            r == self.before(*other),
    {
        self.year < other.year || (self.year == other.year && self.month < other.month) || (
        self.year == other.year && self.month == other.month && self.day < other.day)
    }
}

#[verifier::external_type_specification]
#[verifier::external_body]
pub struct ExParseError(chrono::ParseError);

/// The day that `text` names when it is read in the form `format`, as year,
/// month and day; nothing where `text` does not have that form or names no
/// day of the calendar.
pub uninterp spec fn parsed_date(text: Seq<char>, format: Seq<char>) -> Option<(i32, u32, u32)>;

/// `NaiveDate::parse_from_str` of the crate `chrono`: the result is its
/// error where it gives one, else the year, month and day of the date that
/// it read.
#[verifier::external_body]
fn parse_date(text: &str, format: &str) -> (r: Result<CalendarDate, chrono::ParseError>)
    ensures
        match r {
            Ok(date) => parsed_date(text@, format@) == Some((date.year, date.month, date.day)),
            Err(_) => parsed_date(text@, format@) is None,
        },
{
    let date = chrono::NaiveDate::parse_from_str(text, format)?;
    Ok(CalendarDate { year: date.year(), month: date.month(), day: date.day() })
}

/// The day `year`, `month`, `day` written in the form `format`; nothing
/// where there is no such day in the calendar or `format` is no form.
pub uninterp spec fn formatted_date(year: i32, month: u32, day: u32, format: Seq<char>) -> Option<
    Seq<char>,
>;

/// `NaiveDate::from_ymd_opt` and `NaiveDate::format` of the crate `chrono`:
/// the date written in the given form, or nothing where the first gives no
/// date or writing it fails.
#[verifier::external_body]
fn format_date(date: &CalendarDate, format: &str) -> (r: Option<String>)
    ensures
        match r {
            Some(text) => formatted_date(date.year, date.month, date.day, format@) == Some(
                text@,
            ),
            None => formatted_date(date.year, date.month, date.day, format@) is None,
        },
{
    let day = chrono::NaiveDate::from_ymd_opt(date.year, date.month, date.day)?;
    let mut text = String::new();
    write!(text, "{}", day.format(format)).ok()?;
    Some(text)
}

/// `Local::now` of the crate `chrono`, and the year of that moment. Nothing
/// is known of it beforehand.
#[verifier::external_body]
pub(crate) fn current_year() -> (year: i32) {
    chrono::Local::now().year()
}

/// `token` with a space and the year behind it.
pub open spec fn with_year(token: Seq<char>, year: int) -> Seq<char> {
    token.push(' ') + number_text(year)
}

/// The day that `token` names: as it stands where it holds a year, else
/// with `year` put behind it.
pub open spec fn token_date(token: Seq<char>, year: int) -> Option<CalendarDate> {
    match parsed_date(token, DATE_FORMAT@) {
        Some(date) => Some(CalendarDate { year: date.0, month: date.1, day: date.2 }),
        None => match parsed_date(with_year(token, year), DATE_FORMAT@) {
            Some(date) => Some(CalendarDate { year: date.0, month: date.1, day: date.2 }),
            None => None,
        },
    }
}

/// The days that `tokens` name, in their order; a token that names none is
/// passed over.
pub open spec fn token_dates(tokens: Seq<Option<Seq<char>>>, year: int) -> Seq<CalendarDate>
    decreases tokens.len(),
{
    if tokens.len() == 0 {
        Seq::empty()
    } else {
        let earlier = token_dates(tokens.drop_last(), year);
        match tokens.last() {
            Some(token) => match token_date(token, year) {
                Some(date) => earlier.push(date),
                None => earlier,
            },
            None => earlier,
        }
    }
}

/// The days named in `text`, with `year` for those that name none; an
/// error stands for a date pattern that could not be used.
pub open spec fn dates_in_text(text: Seq<char>, year: int) -> Option<Seq<CalendarDate>> {
    match pattern_captures(DATE_PATTERN@, text, 0) {
        Some(tokens) => Some(token_dates(tokens, year)),
        None => None,
    }
}

/// The day that `token` names, with `year` where it names none.
pub fn read_token(token: &str, year: i32) -> (r: Option<CalendarDate>)
    ensures
        r == token_date(token@, year as int),
{
    match parse_date(token, DATE_FORMAT) {
        Ok(date) => Some(date),
        Err(_) => {
            let mut longer = chars_of(token);
            longer.push(' ');
            let digits = number_chars(year as i64);
            push_all(&mut longer, &digits);
            let text = text_of(&longer);
            match parse_date(text.as_str(), DATE_FORMAT) {
                Ok(date) => Some(date),
                Err(_) => None,
            }
        },
    }
}

/// The days that `tokens` name, in their order.
pub fn dates_in_tokens(tokens: &Vec<Option<String>>, year: i32) -> (r: Vec<CalendarDate>)
    ensures
        r@ == token_dates(texts_view(tokens@), year as int),
{
    let mut dates: Vec<CalendarDate> = Vec::new();
    let mut i: usize = 0;
    while i < tokens.len()
        invariant
            i <= tokens@.len(),
            dates@ == token_dates(texts_view(tokens@).take(i as int), year as int),
        decreases tokens@.len() - i,
    {
        proof {
            let next = texts_view(tokens@).take(i + 1);
            assert(next.drop_last() == texts_view(tokens@).take(i as int));
            assert(next.last() == texts_view(tokens@)[i as int]);
        }
        match &tokens[i] {
            Some(token) => {
                match read_token(token.as_str(), year) {
                    Some(date) => {
                        dates.push(date);
                    },
                    None => {},
                }
            },
            None => {},
        }
        i = i + 1;
    }
    proof {
        assert(texts_view(tokens@).take(tokens@.len() as int) == texts_view(tokens@));
    }
    dates
}

/// The days named in `date_string`, with `year` for those that name no
/// year.
pub fn parse_date_text_in_year(date_string: &str, year: i32) -> (r: Result<
    Vec<CalendarDate>,
    PipelineError,
>)
    ensures
        match r {
            Ok(dates) => dates_in_text(date_string@, year as int) == Some(dates@),
            Err(e) => e == PipelineError::Parse && dates_in_text(date_string@, year as int)
                is None,
        },
{
    match find_captures(DATE_PATTERN, date_string, 0) {
        Ok(tokens) => Ok(dates_in_tokens(&tokens, year)),
        Err(e) => Err(e),
    }
}

/// The index of the earliest day of `s`, the first one where several are
/// equal.
pub open spec fn earliest_index(s: Seq<CalendarDate>) -> int
    decreases s.len(),
{
    if s.len() <= 1 {
        0
    } else {
        let earlier = earliest_index(s.drop_last());
        if s.last().before(s[earlier]) {
            s.len() - 1
        } else {
            earlier
        }
    }
}

/// The range of the days `s`: from the earliest to the next after it in
/// ascending order, which is the earliest again where `s` holds one day
/// only. There is none where `s` is empty.
pub open spec fn range_of(s: Seq<CalendarDate>) -> Option<(CalendarDate, CalendarDate)> {
    if s.len() == 0 {
        None
    } else {
        let first = earliest_index(s);
        let rest = s.remove(first);
        if rest.len() == 0 {
            Some((s[first], s[first]))
        } else {
            Some((s[first], rest[earliest_index(rest)]))
        }
    }
}

fn earliest(dates: &Vec<CalendarDate>) -> (first: usize)
    requires
        dates@.len() > 0,
    ensures
        first < dates@.len(),
        first == earliest_index(dates@),
{
    let mut first: usize = 0;
    let mut k: usize = 1;
    proof {
        assert(earliest_index(dates@.take(1)) == 0);
    }
    while k < dates.len()
        invariant
            1 <= k <= dates@.len(),
            first < k,
            first == earliest_index(dates@.take(k as int)),
        decreases dates@.len() - k,
    {
        proof {
            let next = dates@.take(k + 1);
            assert(next.drop_last() == dates@.take(k as int));
            assert(next.last() == dates@[k as int]);
            assert(next[first as int] == dates@[first as int]);
        }
        if dates[k].is_before(&dates[first]) {
            first = k;
        }
        k = k + 1;
    }
    proof {
        assert(dates@.take(dates@.len() as int) == dates@);
    }
    first
}

fn all_but(dates: &Vec<CalendarDate>, skip: usize) -> (rest: Vec<CalendarDate>)
    requires
        skip < dates@.len(),
    ensures
        rest@ == dates@.remove(skip as int),
{
    let mut rest: Vec<CalendarDate> = Vec::new();
    let mut i: usize = 0;
    while i < dates.len()
        invariant
            i <= dates@.len(),
            skip < dates@.len(),
            i <= skip ==> rest@ == dates@.take(i as int),
            i > skip ==> rest@ == dates@.take(i as int).remove(skip as int),
        decreases dates@.len() - i,
    {
        if i != skip {
            rest.push(dates[i]);
        }
        proof {
            let next = dates@.take(i + 1);
            if i < skip {
                assert(next == dates@.take(i as int).push(dates@[i as int]));
            } else if i == skip {
                assert(next.remove(skip as int) == dates@.take(i as int));
            } else {
                assert(next.remove(skip as int) == dates@.take(i as int).remove(
                    skip as int,
                ).push(dates@[i as int]));
            }
        }
        i = i + 1;
    }
    proof {
        assert(dates@.take(dates@.len() as int) == dates@);
    }
    rest
}

/// The range of the days `dates`.
pub fn date_range(dates: &Vec<CalendarDate>) -> (r: Option<(CalendarDate, CalendarDate)>)
    ensures
        r == range_of(dates@),
{
    if dates.len() == 0 {
        return None;
    }
    let first = earliest(dates);
    let rest = all_but(dates, first);
    if rest.len() == 0 {
        return Some((dates[first], dates[first]));
    }
    let second = earliest(&rest);
    Some((dates[first], rest[second]))
}

/// Where the clause on the period starts in `text` and how long its
/// opening phrase is: the first phrase of the list that occurs in `text`
/// counts, at its first place.
pub open spec fn anchor_in(text: Seq<char>) -> Option<(int, int)> {
    match first_occurrence(text, ANCHOR_IN_PLACE@, 0) {
        Some(at) => Some((at, ANCHOR_IN_PLACE@.len() as int)),
        None => match first_occurrence(text, ANCHOR_OPERATE@, 0) {
            Some(at) => Some((at, ANCHOR_OPERATE@.len() as int)),
            None => match first_occurrence(text, ANCHOR_OPERATING@, 0) {
                Some(at) => Some((at, ANCHOR_OPERATING@.len() as int)),
                None => None,
            },
        },
    }
}

/// Where the clause that starts at `from` ends: at the next full stop with
/// a space behind it, or at the end of `text`.
pub open spec fn clause_end(text: Seq<char>, from: int) -> int {
    match first_occurrence(text, SENTENCE_END@, from) {
        Some(at) => at,
        None => text.len() as int,
    }
}

/// The clause on the period of the declaration in `text`: what stands
/// between the opening phrase and the end of its sentence, in `text`
/// without its line breaks, trimmed. There is none where no opening phrase
/// occurs.
pub open spec fn declaration_clause(text: Seq<char>) -> Option<Seq<char>> {
    let flat = without_char(text, '\n');
    match anchor_in(flat) {
        Some((at, length)) => Some(
            trimmed(flat.subrange(at + length, clause_end(flat, at + length))),
        ),
        None => None,
    }
}

/// The operative date range that `text` declares, read in the year `year`.
pub open spec fn range_in_text(text: Seq<char>, year: int) -> Result<
    (CalendarDate, CalendarDate),
    PipelineError,
> {
    match declaration_clause(text) {
        None => Err(PipelineError::ExtractionNotFound),
        Some(clause) => match dates_in_text(clause, year) {
            None => Err(PipelineError::Parse),
            Some(dates) => match range_of(dates) {
                Some(range) => Ok(range),
                None => Err(PipelineError::ExtractionNotFound),
            },
        },
    }
}

fn find_anchor(flat: &Vec<char>) -> (r: Option<(usize, usize)>)
    ensures
        match r {
            Some((at, length)) => anchor_in(flat@) == Some((at as int, length as int)) && at
                + length <= flat@.len(),
            None => anchor_in(flat@) is None,
        },
{
    let first = chars_of(ANCHOR_IN_PLACE);
    let second = chars_of(ANCHOR_OPERATE);
    let third = chars_of(ANCHOR_OPERATING);
    proof {
        crate::utils::text::lemma_first_occurrence(flat@, first@, 0);
        crate::utils::text::lemma_first_occurrence(flat@, second@, 0);
        crate::utils::text::lemma_first_occurrence(flat@, third@, 0);
    }
    match find_from(flat, &first, 0) {
        Some(at) => Some((at, first.len())),
        None => match find_from(flat, &second, 0) {
            Some(at) => Some((at, second.len())),
            None => match find_from(flat, &third, 0) {
                Some(at) => Some((at, third.len())),
                None => None,
            },
        },
    }
}

/// The clause on the period of the declaration in `text`.
pub fn find_declaration_clause(text: &str) -> (r: Option<String>)
    ensures
        match r {
            Some(clause) => declaration_clause(text@) == Some(clause@),
            None => declaration_clause(text@) is None,
        },
{
    let all = chars_of(text);
    let flat = remove_char(&all, '\n');
    match find_anchor(&flat) {
        Some((at, length)) => {
            let size: usize = flat.len();
            assert(at + length <= size);
            let from: usize = at + length;
            let stop = chars_of(SENTENCE_END);
            proof {
                crate::utils::text::lemma_first_occurrence(flat@, stop@, from as int);
            }
            let to: usize = match find_from(&flat, &stop, from) {
                Some(end) => end,
                None => flat.len(),
            };
            let clause = slice_of(&flat, from, to);
            let clean = trim(&clause);
            Some(text_of(&clean))
        },
        None => None,
    }
}

/// The operative date range that `text` declares, read in the year `year`:
/// from the earliest day named in the clause on the period to the next
/// after it. It fails with `ExtractionNotFound` where `text` has no such
/// clause or the clause names no day.
pub fn date_range_in_text(text: &str, year: i32) -> (r: Result<
    (CalendarDate, CalendarDate),
    PipelineError,
>)
    ensures
        r == range_in_text(text@, year as int),
{
    match find_declaration_clause(text) {
        None => Err(PipelineError::ExtractionNotFound),
        Some(clause) => match parse_date_text_in_year(clause.as_str(), year) {
            Err(e) => Err(e),
            Ok(dates) => match date_range(&dates) {
                Some(range) => Ok(range),
                None => Err(PipelineError::ExtractionNotFound),
            },
        },
    }
}

/// The start of a range is its earliest day: none of the days is before
/// it, and none but the start itself is before the end.
pub proof fn lemma_range_is_ordered(s: Seq<CalendarDate>)
    requires
        s.len() > 0,
    ensures
        !range_of(s)->Some_0.1.before(range_of(s)->Some_0.0),
        s.contains(range_of(s)->Some_0.0),
        s.contains(range_of(s)->Some_0.1),
        forall|k: int| 0 <= k < s.len() ==> !(#[trigger] s[k]).before(range_of(s)->Some_0.0),
        forall|k: int|
            0 <= k < s.len() && k != earliest_index(s) ==> !(#[trigger] s[k]).before(
                range_of(s)->Some_0.1,
            ),
{
    lemma_earliest_index(s);
    let first = earliest_index(s);
    let rest = s.remove(first);
    if rest.len() > 0 {
        lemma_earliest_index(rest);
        let second = earliest_index(rest);
        let place = if second < first {
            second
        } else {
            second + 1
        };
        assert(rest[second] == s[place]);
        assert forall|k: int| 0 <= k < s.len() && k != first implies !(#[trigger] s[k]).before(
            rest[second],
        ) by {
            let from = if k < first {
                k
            } else {
                k - 1
            };
            assert(rest[from] == s[k]);
        }
    }
}

/// The earliest index is an index of `s`, and no day of `s` is before the
/// day there.
pub proof fn lemma_earliest_index(s: Seq<CalendarDate>)
    requires
        s.len() > 0,
    ensures
        0 <= earliest_index(s) < s.len(),
        forall|k: int| 0 <= k < s.len() ==> !(#[trigger] s[k]).before(s[earliest_index(s)]),
    decreases s.len(),
{
    if s.len() > 1 {
        let front = s.drop_last();
        lemma_earliest_index(front);
        let earlier = earliest_index(front);
        assert(front[earlier] == s[earlier]);
        assert forall|k: int| 0 <= k < s.len() implies !(#[trigger] s[k]).before(
            s[earliest_index(s)],
        ) by {
            if k < s.len() - 1 {
                assert(front[k] == s[k]);
            }
        }
    }
}

/// The date `date` as it is written out, the empty text where it is none
/// or no day of the calendar.
pub open spec fn date_text_of(date: Option<CalendarDate>) -> Seq<char> {
    match date {
        Some(d) => match formatted_date(d.year, d.month, d.day, DATE_TEXT_FORMAT@) {
            Some(text) => text,
            None => Seq::<char>::empty(),
        },
        None => Seq::<char>::empty(),
    }
}

/// The date `date` as it is written out: year, month and day.
pub fn date_text(date: &Option<CalendarDate>) -> (r: String)
    ensures
        r@ == date_text_of(*date),
{
    match date {
        Some(d) => match format_date(d, DATE_TEXT_FORMAT) {
            Some(text) => text,
            None => String::new(),
        },
        None => String::new(),
    }
}

} // verus!
