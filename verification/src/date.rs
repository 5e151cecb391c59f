//! Normalizing RFC 822 and ISO 8601 timestamps to `YYYY-MM-DD`.
//!
//! A comma marks the RFC 822 form (`Sun, 9 May 2002 15:21:36 GMT`); without
//! one the text is read as ISO 8601 and its first ten characters are the
//! date. No time zone is applied: the result shows the calendar fields as
//! they are written.

use vstd::prelude::*;
use vstd::string::StrSliceExecFns;
use vstd::string::StringExecFns;
use crate::error::FeedError;
use crate::text::chars_of;
use crate::text::text_result_is;
use crate::text::texts_of;

verus! {

/// The text is in the RFC 822 form.
pub open spec fn is_rfc822(date: Seq<char>) -> bool {
    date.contains(',')
}

/// In the RFC 822 form, the day of the month has one digit: the character
/// after it, at offset 6, is then the space before the month.
pub open spec fn one_digit_day(date: Seq<char>) -> bool {
    date[6] == ' '
}

/// The text is long enough to hold every field that its form is read from.
pub open spec fn date_complete(date: Seq<char>) -> bool {
    if is_rfc822(date) {
        date.len() >= 7 && if one_digit_day(date) {
            date.len() >= 15
        } else {
            date.len() >= 16
        }
    } else {
        date.len() >= 10
    }
}

/// The two-digit number of a month, by its English abbreviation; `00` for
/// any other text.
pub open spec fn month_number(month: Seq<char>) -> Seq<char> {
    if month == seq!['J', 'a', 'n'] {
        seq!['0', '1']
    } else if month == seq!['F', 'e', 'b'] {
        seq!['0', '2']
    } else if month == seq!['M', 'a', 'r'] {
        seq!['0', '3']
    } else if month == seq!['A', 'p', 'r'] {
        seq!['0', '4']
    } else if month == seq!['M', 'a', 'y'] {
        seq!['0', '5']
    } else if month == seq!['J', 'u', 'n'] {
        seq!['0', '6']
    } else if month == seq!['J', 'u', 'l'] {
        seq!['0', '7']
    } else if month == seq!['A', 'u', 'g'] {
        seq!['0', '8']
    } else if month == seq!['S', 'e', 'p'] {
        seq!['0', '9']
    } else if month == seq!['O', 'c', 't'] {
        seq!['1', '0']
    } else if month == seq!['N', 'o', 'v'] {
        seq!['1', '1']
    } else if month == seq!['D', 'e', 'c'] {
        seq!['1', '2']
    } else {
        seq!['0', '0']
    }
}

/// What normalizing a timestamp gives: its canonical date, or the failure
/// for text that is too short.
pub open spec fn date_outcome(date: Seq<char>) -> Result<Seq<char>, FeedError> {
    if date_complete(date) {
        Ok(canonical_date(date))
    } else {
        Err(FeedError::MalformedDate)
    }
}

/// The outcomes for a list of timestamps, in order.
pub open spec fn date_outcomes(dates: Seq<Seq<char>>) -> Seq<Result<Seq<char>, FeedError>> {
    dates.map_values(|date: Seq<char>| date_outcome(date))
}

/// What a list of results stands for.
pub open spec fn outcomes_of(results: Seq<Result<String, FeedError>>) -> Seq<
    Result<Seq<char>, FeedError>,
> {
    results.map_values(
        |result: Result<String, FeedError>|
            match result {
                Ok(text) => Ok(text@),
                Err(e) => Err(e),
            },
    )
}

/// The canonical date of a complete timestamp.
pub open spec fn canonical_date(date: Seq<char>) -> Seq<char> {
    if !is_rfc822(date) {
        date.subrange(0, 10)
    } else if one_digit_day(date) {
        date.subrange(11, 15) + seq!['-'] + month_number(date.subrange(7, 10)) + seq!['-', '0']
            + date.subrange(5, 6)
    } else {
        date.subrange(12, 16) + seq!['-'] + month_number(date.subrange(8, 11)) + seq!['-']
            + date.subrange(5, 7)
    }
}

fn has_comma(chars: &Vec<char>) -> (found: bool)
    ensures
        found == is_rfc822(chars@),
{
    let mut i: usize = 0;
    while i < chars.len()
        invariant
            i <= chars.len(),
            forall|j: int| 0 <= j < i ==> chars@[j] != ',',
        decreases chars.len() - i,
    {
        if chars[i] == ',' {
            return true;
        }
        i += 1;
    }
    false
}

fn month_digits(a: char, b: char, c: char) -> (digits: &'static str)
    ensures
        digits@ == month_number(seq![a, b, c]),
{
    proof {
        reveal_strlit("01");
        reveal_strlit("02");
        reveal_strlit("03");
        reveal_strlit("04");
        reveal_strlit("05");
        reveal_strlit("06");
        reveal_strlit("07");
        reveal_strlit("08");
        reveal_strlit("09");
        reveal_strlit("10");
        reveal_strlit("11");
        reveal_strlit("12");
        reveal_strlit("00");
    }
    if a == 'J' && b == 'a' && c == 'n' {
        "01"
    } else if a == 'F' && b == 'e' && c == 'b' {
        "02"
    } else if a == 'M' && b == 'a' && c == 'r' {
        "03"
    } else if a == 'A' && b == 'p' && c == 'r' {
        "04"
    } else if a == 'M' && b == 'a' && c == 'y' {
        "05"
    } else if a == 'J' && b == 'u' && c == 'n' {
        "06"
    } else if a == 'J' && b == 'u' && c == 'l' {
        "07"
    } else if a == 'A' && b == 'u' && c == 'g' {
        "08"
    } else if a == 'S' && b == 'e' && c == 'p' {
        "09"
    } else if a == 'O' && b == 'c' && c == 't' {
        "10"
    } else if a == 'N' && b == 'o' && c == 'v' {
        "11"
    } else if a == 'D' && b == 'e' && c == 'c' {
        "12"
    } else {
        "00"
    }
}

/// Normalizes a timestamp to `YYYY-MM-DD`.
///
/// Fails with [`FeedError::MalformedDate`] exactly when the text is too
/// short for its form. An unknown month abbreviation is no failure: it gives
/// the month `00`.
pub fn date_parse(date: &str) -> (result: Result<String, FeedError>)
    ensures
        text_result_is(result, date_outcome(date@)),
{
    let chars = chars_of(date);
    let n = chars.len();
    if !has_comma(&chars) {
        if n < 10 {
            return Err(FeedError::MalformedDate);
        }
        return Ok(String::from_str(date.substring_char(0, 10)));
    }
    if n < 7 {
        return Err(FeedError::MalformedDate);
    }
    proof {
        reveal_strlit("-");
        reveal_strlit("-0");
    }
    if chars[6] == ' ' {
        if n < 15 {
            return Err(FeedError::MalformedDate);
        }
        let month = month_digits(chars[7], chars[8], chars[9]);
        assert(date@.subrange(7, 10) =~= seq![chars@[7], chars@[8], chars@[9]]);
        let mut text = String::from_str(date.substring_char(11, 15));
        text.append("-");
        text.append(month);
        text.append("-0");
        text.append(date.substring_char(5, 6));
        assert(text@ =~= canonical_date(date@));
        Ok(text)
    } else {
        if n < 16 {
            return Err(FeedError::MalformedDate);
        }
        let month = month_digits(chars[8], chars[9], chars[10]);
        assert(date@.subrange(8, 11) =~= seq![chars@[8], chars@[9], chars@[10]]);
        let mut text = String::from_str(date.substring_char(12, 16));
        text.append("-");
        text.append(month);
        text.append("-");
        text.append(date.substring_char(5, 7));
        assert(text@ =~= canonical_date(date@));
        Ok(text)
    }
}

/// Normalizes each timestamp of a list. One that is malformed fails alone:
/// the others keep their places.
pub fn normalize_dates(dates: &Vec<String>) -> (results: Vec<Result<String, FeedError>>)
    ensures
        outcomes_of(results@) == date_outcomes(texts_of(dates@)),
{
    let mut results: Vec<Result<String, FeedError>> = Vec::new();
    let mut i: usize = 0;
    while i < dates.len()
        invariant
            i <= dates.len(),
            results.len() == i,
            forall|j: int| 0 <= j < i ==> text_result_is(#[trigger] results@[j], date_outcome(dates@[j]@)),
        decreases dates.len() - i,
    {
        results.push(date_parse(dates[i].as_str()));
        i += 1;
    }
    results
}

} // verus!
