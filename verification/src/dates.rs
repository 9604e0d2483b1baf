//! Dates as plain values, and the three fixed date-string formats.
//!
//! The external tool emits either an ISO-8601 date with a numeric
//! offset (`2024-01-02T10:00:00+00:00`) or its default locale format
//! (`Tue Jan 2 10:00:00 2024 +0000`).  Both are normalized to one
//! canonical display format, `MM/DD/YYYY HH:MM`.  The display format
//! never shifts the clock: the fields are carried over as written, so a
//! date here is just five numbers with a calendar invariant.

use vstd::prelude::*;
use vstd::string::*;

use vstd::arithmetic::div_mod::{
    lemma_fundamental_div_mod, lemma_fundamental_div_mod_converse_div,
    lemma_fundamental_div_mod_converse_mod,
};

use crate::errors::GitApiError;
use crate::strutil::{
    digit_char_of, digit_val, is_digit_char, lemma_digit_roundtrip, lemma_seq_num_2,
    lemma_seq_num_4, lemma_seq_num_bound, parse_num, push_char, push_digit, seq_num, split_on,
    split_str, str_eq,
};

verus! {

/// A calendar date and wall-clock minute, as plain numbers.
#[derive(Clone, Copy, Debug, PartialEq, Eq, Structural)]
pub struct Date {
    pub year: u32,
    pub month: u32,
    pub day: u32,
    pub hour: u32,
    pub minute: u32,
}

/// Gregorian leap year.
pub open spec fn is_leap_year(y: int) -> bool {
    (y % 4 == 0 && y % 100 != 0) || y % 400 == 0
}

/// Days in a month of the Gregorian calendar.
pub open spec fn spec_days_in_month(y: int, m: int) -> int {
    if m == 2 {
        if is_leap_year(y) {
            29
        } else {
            28
        }
    } else if m == 4 || m == 6 || m == 9 || m == 11 {
        30
    } else {
        31
    }
}

/// A well-formed date: real calendar day, 24-hour clock, four-digit
/// year.
pub open spec fn valid_date(d: Date) -> bool {
    &&& d.year <= 9999
    &&& 1 <= d.month <= 12
    &&& 1 <= d.day <= spec_days_in_month(d.year as int, d.month as int)
    &&& d.hour <= 23
    &&& d.minute <= 59
}

/// All characters of `s` in `from..to` are decimal digits.
pub open spec fn digits_in(s: Seq<char>, from: int, to: int) -> bool {
    forall|k: int| from <= k < to ==> is_digit_char(#[trigger] s[k])
}

/// The canonical display string of a date: `MM/DD/YYYY HH:MM`, all
/// fields zero-padded.
pub open spec fn spec_render_date(d: Date) -> Seq<char> {
    seq![
        digit_char_of(d.month as int / 10),
        digit_char_of(d.month as int % 10),
        '/',
        digit_char_of(d.day as int / 10),
        digit_char_of(d.day as int % 10),
        '/',
        digit_char_of(d.year as int / 1000),
        digit_char_of(d.year as int / 100 % 10),
        digit_char_of(d.year as int / 10 % 10),
        digit_char_of(d.year as int % 10),
        ' ',
        digit_char_of(d.hour as int / 10),
        digit_char_of(d.hour as int % 10),
        ':',
        digit_char_of(d.minute as int / 10),
        digit_char_of(d.minute as int % 10),
    ]
}

/// Parse of the canonical `MM/DD/YYYY HH:MM` format: fixed width,
/// zero-padded, with the calendar checked.
pub open spec fn spec_parse_canonical(s: Seq<char>) -> Option<Date> {
    if s.len() == 16 && s[2] == '/' && s[5] == '/' && s[10] == ' ' && s[13] == ':' && digits_in(
        s,
        0,
        2,
    ) && digits_in(s, 3, 5) && digits_in(s, 6, 10) && digits_in(s, 11, 13) && digits_in(
        s,
        14,
        16,
    ) {
        let month = seq_num(s.subrange(0, 2));
        let day = seq_num(s.subrange(3, 5));
        let year = seq_num(s.subrange(6, 10));
        let hour = seq_num(s.subrange(11, 13));
        let minute = seq_num(s.subrange(14, 16));
        if 1 <= month <= 12 && 1 <= day <= spec_days_in_month(year, month) && hour <= 23 && minute
            <= 59 {
            Some(
                Date {
                    year: year as u32,
                    month: month as u32,
                    day: day as u32,
                    hour: hour as u32,
                    minute: minute as u32,
                },
            )
        } else {
            None
        }
    } else {
        None
    }
}

/// Shape of the offset tail of an ISO-8601 date: `Z`, or a sign with
/// `HH:MM` in range.
pub open spec fn iso_offset_ok(s: Seq<char>) -> bool {
    if s.len() == 25 {
        &&& (s[19] == '+' || s[19] == '-')
        &&& digits_in(s, 20, 22)
        &&& s[22] == ':'
        &&& digits_in(s, 23, 25)
        &&& seq_num(s.subrange(20, 22)) <= 23
        &&& seq_num(s.subrange(23, 25)) <= 59
    } else {
        s.len() == 20 && s[19] == 'Z'
    }
}

/// Parse of the ISO-8601 format `YYYY-MM-DDTHH:MM:SS` followed by an
/// offset (`+HH:MM`, `-HH:MM` or `Z`).  The offset is validated and
/// discarded: the display format shows the fields as written.
pub open spec fn spec_parse_iso(s: Seq<char>) -> Option<Date> {
    if (s.len() == 20 || s.len() == 25) && s[4] == '-' && s[7] == '-' && s[10] == 'T' && s[13]
        == ':' && s[16] == ':' && digits_in(s, 0, 4) && digits_in(s, 5, 7) && digits_in(s, 8, 10)
        && digits_in(s, 11, 13) && digits_in(s, 14, 16) && digits_in(s, 17, 19) && iso_offset_ok(
        s,
    ) {
        let year = seq_num(s.subrange(0, 4));
        let month = seq_num(s.subrange(5, 7));
        let day = seq_num(s.subrange(8, 10));
        let hour = seq_num(s.subrange(11, 13));
        let minute = seq_num(s.subrange(14, 16));
        let sec = seq_num(s.subrange(17, 19));
        if 1 <= month <= 12 && 1 <= day <= spec_days_in_month(year, month) && hour <= 23 && minute
            <= 59 && sec <= 59 {
            Some(
                Date {
                    year: year as u32,
                    month: month as u32,
                    day: day as u32,
                    hour: hour as u32,
                    minute: minute as u32,
                },
            )
        } else {
            None
        }
    } else {
        None
    }
}

/// The month number of a three-letter month name, or 0 if unknown.
pub open spec fn month_num(t: Seq<char>) -> int {
    if t == seq!['J', 'a', 'n'] {
        1
    } else if t == seq!['F', 'e', 'b'] {
        2
    } else if t == seq!['M', 'a', 'r'] {
        3
    } else if t == seq!['A', 'p', 'r'] {
        4
    } else if t == seq!['M', 'a', 'y'] {
        5
    } else if t == seq!['J', 'u', 'n'] {
        6
    } else if t == seq!['J', 'u', 'l'] {
        7
    } else if t == seq!['A', 'u', 'g'] {
        8
    } else if t == seq!['S', 'e', 'p'] {
        9
    } else if t == seq!['O', 'c', 't'] {
        10
    } else if t == seq!['N', 'o', 'v'] {
        11
    } else if t == seq!['D', 'e', 'c'] {
        12
    } else {
        0
    }
}

/// The three-letter weekday names.
pub open spec fn is_weekday_name(t: Seq<char>) -> bool {
    t == seq!['M', 'o', 'n'] || t == seq!['T', 'u', 'e'] || t == seq!['W', 'e', 'd'] || t == seq![
        'T',
        'h',
        'u',
    ] || t == seq!['F', 'r', 'i'] || t == seq!['S', 'a', 't'] || t == seq!['S', 'u', 'n']
}

/// The whitespace-separated tokens of a default-format date line (the
/// day number is space-padded, so empty pieces are dropped).
pub open spec fn date_tokens(s: Seq<char>) -> Seq<Seq<char>> {
    split_on(s, ' ').filter(|p: Seq<char>| p.len() > 0)
}

/// An `HH:MM:SS` clock token in range.
pub open spec fn time_token_ok(t: Seq<char>) -> bool {
    &&& t.len() == 8
    &&& t[2] == ':'
    &&& t[5] == ':'
    &&& digits_in(t, 0, 2)
    &&& digits_in(t, 3, 5)
    &&& digits_in(t, 6, 8)
    &&& seq_num(t.subrange(0, 2)) <= 23
    &&& seq_num(t.subrange(3, 5)) <= 59
    &&& seq_num(t.subrange(6, 8)) <= 59
}

/// A `+HHMM` / `-HHMM` numeric offset token in range.
pub open spec fn offset_token_ok(t: Seq<char>) -> bool {
    &&& t.len() == 5
    &&& (t[0] == '+' || t[0] == '-')
    &&& digits_in(t, 1, 5)
    &&& seq_num(t.subrange(1, 3)) <= 23
    &&& seq_num(t.subrange(3, 5)) <= 59
}

/// Parse of the tool's default date format, for example
/// `Tue Jan 2 10:00:00 2024 +0000`: weekday name, month name,
/// space-padded day, clock, four-digit year, numeric offset.
pub open spec fn spec_parse_default(s: Seq<char>) -> Option<Date> {
    let toks = date_tokens(s);
    if toks.len() == 6 && is_weekday_name(toks[0]) && 1 <= month_num(toks[1]) && 1 <= toks[2].len()
        <= 2 && digits_in(toks[2], 0, toks[2].len() as int) && time_token_ok(toks[3])
        && toks[4].len() == 4 && digits_in(toks[4], 0, 4) && offset_token_ok(toks[5]) {
        let month = month_num(toks[1]);
        let day = seq_num(toks[2]);
        let year = seq_num(toks[4]);
        let hour = seq_num(toks[3].subrange(0, 2));
        let minute = seq_num(toks[3].subrange(3, 5));
        if 1 <= day <= spec_days_in_month(year, month) {
            Some(
                Date {
                    year: year as u32,
                    month: month as u32,
                    day: day as u32,
                    hour: hour as u32,
                    minute: minute as u32,
                },
            )
        } else {
            None
        }
    } else {
        None
    }
}

/// What `parse_date_to_string` accepts and returns: the ISO pattern is
/// tried first, then the default pattern.
pub open spec fn spec_parse_date(s: Seq<char>) -> Option<Date> {
    if spec_parse_iso(s) is Some {
        spec_parse_iso(s)
    } else {
        spec_parse_default(s)
    }
}

/// Whether `t` is a three-letter weekday name.
fn weekday_name(t: &str) -> (r: bool)
    ensures
        r == is_weekday_name(t@),
{
    proof {
        reveal_strlit("Mon");
        reveal_strlit("Tue");
        reveal_strlit("Wed");
        reveal_strlit("Thu");
        reveal_strlit("Fri");
        reveal_strlit("Sat");
        reveal_strlit("Sun");
        assert("Mon"@ =~= seq!['M', 'o', 'n']);
        assert("Tue"@ =~= seq!['T', 'u', 'e']);
        assert("Wed"@ =~= seq!['W', 'e', 'd']);
        assert("Thu"@ =~= seq!['T', 'h', 'u']);
        assert("Fri"@ =~= seq!['F', 'r', 'i']);
        assert("Sat"@ =~= seq!['S', 'a', 't']);
        assert("Sun"@ =~= seq!['S', 'u', 'n']);
    }
    str_eq(t, "Mon") || str_eq(t, "Tue") || str_eq(t, "Wed") || str_eq(t, "Thu") || str_eq(
        t,
        "Fri",
    ) || str_eq(t, "Sat") || str_eq(t, "Sun")
}

/// The month number of a three-letter month name, or 0 if unknown.
fn month_from_name(t: &str) -> (r: u32)
    ensures
        r as int == month_num(t@),
        r <= 12,
{
    proof {
        reveal_strlit("Jan");
        reveal_strlit("Feb");
        reveal_strlit("Mar");
        reveal_strlit("Apr");
        reveal_strlit("May");
        reveal_strlit("Jun");
        reveal_strlit("Jul");
        reveal_strlit("Aug");
        reveal_strlit("Sep");
        reveal_strlit("Oct");
        reveal_strlit("Nov");
        reveal_strlit("Dec");
        assert("Jan"@ =~= seq!['J', 'a', 'n']);
        assert("Feb"@ =~= seq!['F', 'e', 'b']);
        assert("Mar"@ =~= seq!['M', 'a', 'r']);
        assert("Apr"@ =~= seq!['A', 'p', 'r']);
        assert("May"@ =~= seq!['M', 'a', 'y']);
        assert("Jun"@ =~= seq!['J', 'u', 'n']);
        assert("Jul"@ =~= seq!['J', 'u', 'l']);
        assert("Aug"@ =~= seq!['A', 'u', 'g']);
        assert("Sep"@ =~= seq!['S', 'e', 'p']);
        assert("Oct"@ =~= seq!['O', 'c', 't']);
        assert("Nov"@ =~= seq!['N', 'o', 'v']);
        assert("Dec"@ =~= seq!['D', 'e', 'c']);
    }
    if str_eq(t, "Jan") {
        1
    } else if str_eq(t, "Feb") {
        2
    } else if str_eq(t, "Mar") {
        3
    } else if str_eq(t, "Apr") {
        4
    } else if str_eq(t, "May") {
        5
    } else if str_eq(t, "Jun") {
        6
    } else if str_eq(t, "Jul") {
        7
    } else if str_eq(t, "Aug") {
        8
    } else if str_eq(t, "Sep") {
        9
    } else if str_eq(t, "Oct") {
        10
    } else if str_eq(t, "Nov") {
        11
    } else if str_eq(t, "Dec") {
        12
    } else {
        0
    }
}

/// Parse an ISO-8601 date with offset, validating the calendar.
pub fn parse_iso(s: &str) -> (r: Option<Date>)
    ensures
        r == spec_parse_iso(s@),
        r matches Some(d) ==> valid_date(d),
{
    let n = s.unicode_len();
    if n != 20 && n != 25 {
        return None;
    }
    if !(s.get_char(4) == '-' && s.get_char(7) == '-' && s.get_char(10) == 'T' && s.get_char(13)
        == ':' && s.get_char(16) == ':') {
        return None;
    }
    let year = match parse_num(s, 0, 4) {
        Some(v) => v,
        None => {
            return None;
        },
    };
    let month = match parse_num(s, 5, 7) {
        Some(v) => v,
        None => {
            return None;
        },
    };
    let day = match parse_num(s, 8, 10) {
        Some(v) => v,
        None => {
            return None;
        },
    };
    let hour = match parse_num(s, 11, 13) {
        Some(v) => v,
        None => {
            return None;
        },
    };
    let minute = match parse_num(s, 14, 16) {
        Some(v) => v,
        None => {
            return None;
        },
    };
    let sec = match parse_num(s, 17, 19) {
        Some(v) => v,
        None => {
            return None;
        },
    };
    if n == 25 {
        let sign = s.get_char(19);
        if !(sign == '+' || sign == '-') {
            return None;
        }
        let oh = match parse_num(s, 20, 22) {
            Some(v) => v,
            None => {
                return None;
            },
        };
        if s.get_char(22) != ':' {
            return None;
        }
        let om = match parse_num(s, 23, 25) {
            Some(v) => v,
            None => {
                return None;
            },
        };
        if !(oh <= 23 && om <= 59) {
            return None;
        }
    } else {
        if s.get_char(19) != 'Z' {
            return None;
        }
    }
    if !(1 <= month && month <= 12) {
        return None;
    }
    if !(1 <= day && day <= days_in_month(year, month)) {
        return None;
    }
    if !(hour <= 23 && minute <= 59 && sec <= 59) {
        return None;
    }
    proof {
        lemma_seq_num_bound(s@.subrange(0, 4));
    }
    Some(Date { year, month, day, hour, minute })
}

/// Parse the tool's default date format, validating the calendar.
pub fn parse_default(s: &str) -> (r: Option<Date>)
    ensures
        r == spec_parse_default(s@),
        r matches Some(d) ==> valid_date(d),
{
    let pieces = split_str(s, ' ');
    let ghost pv = pieces@.map_values(|p: String| p@);
    let ghost pred = |p: Seq<char>| p.len() > 0;
    let mut toks: Vec<String> = Vec::new();
    let mut i: usize = 0;
    proof {
        reveal(Seq::filter);
        assert(pv.take(0) =~= Seq::<Seq<char>>::empty());
        assert(toks@.map_values(|p: String| p@) =~= pv.take(0).filter(pred));
    }
    while i < pieces.len()
        invariant
            0 <= i <= pieces@.len(),
            pv == pieces@.map_values(|p: String| p@),
            pred == (|p: Seq<char>| p.len() > 0),
            toks@.map_values(|p: String| p@) == pv.take(i as int).filter(pred),
        decreases pieces@.len() - i,
    {
        let ghost old_toks = toks@;
        let piece = &pieces[i];
        if piece.unicode_len() > 0 {
            toks.push(piece.clone());
        }
        proof {
            reveal(Seq::filter);
            assert(pv.take(i + 1).drop_last() =~= pv.take(i as int));
            assert(pv.take(i + 1).last() == pv[i as int]);
            if piece@.len() > 0 {
                assert(toks@.map_values(|p: String| p@) =~= old_toks.map_values(
                    |p: String| p@,
                ).push(pv[i as int]));
            }
        }
        i += 1;
    }
    proof {
        assert(pv.take(pv.len() as int) =~= pv);
        assert(toks@.map_values(|p: String| p@) == date_tokens(s@));
    }
    let ghost tv = date_tokens(s@);
    if toks.len() != 6 {
        return None;
    }
    if !weekday_name(toks[0].as_str()) {
        return None;
    }
    let month = month_from_name(toks[1].as_str());
    if month == 0 {
        return None;
    }
    let dl = toks[2].as_str().unicode_len();
    if dl < 1 || dl > 2 {
        return None;
    }
    let day = match parse_num(toks[2].as_str(), 0, dl) {
        Some(v) => v,
        None => {
            proof {
                assert(tv[2].subrange(0, dl as int) =~= tv[2]);
            }
            return None;
        },
    };
    proof {
        assert(tv[2].subrange(0, dl as int) =~= tv[2]);
    }
    let t3 = &toks[3];
    if t3.as_str().unicode_len() != 8 {
        return None;
    }
    if !(t3.as_str().get_char(2) == ':' && t3.as_str().get_char(5) == ':') {
        return None;
    }
    let hour = match parse_num(t3.as_str(), 0, 2) {
        Some(v) => v,
        None => {
            return None;
        },
    };
    let minute = match parse_num(t3.as_str(), 3, 5) {
        Some(v) => v,
        None => {
            return None;
        },
    };
    let sec = match parse_num(t3.as_str(), 6, 8) {
        Some(v) => v,
        None => {
            return None;
        },
    };
    if !(hour <= 23 && minute <= 59 && sec <= 59) {
        return None;
    }
    let t4 = &toks[4];
    if t4.as_str().unicode_len() != 4 {
        return None;
    }
    let year = match parse_num(t4.as_str(), 0, 4) {
        Some(v) => v,
        None => {
            proof {
                assert(tv[4].subrange(0, 4) =~= tv[4]);
            }
            return None;
        },
    };
    proof {
        assert(tv[4].subrange(0, 4) =~= tv[4]);
    }
    let t5 = &toks[5];
    if t5.as_str().unicode_len() != 5 {
        return None;
    }
    let sign = t5.as_str().get_char(0);
    if !(sign == '+' || sign == '-') {
        return None;
    }
    let oh = match parse_num(t5.as_str(), 1, 3) {
        Some(v) => v,
        None => {
            return None;
        },
    };
    let om = match parse_num(t5.as_str(), 3, 5) {
        Some(v) => v,
        None => {
            return None;
        },
    };
    if !(oh <= 23 && om <= 59) {
        return None;
    }
    if !(1 <= day && day <= days_in_month(year, month)) {
        return None;
    }
    proof {
        lemma_seq_num_bound(tv[4]);
    }
    Some(Date { year, month, day, hour, minute })
}

/// Render a date in the canonical `MM/DD/YYYY HH:MM` display format.
pub fn render_date(d: &Date) -> (r: String)
    requires
        valid_date(*d),
    ensures
        r@ == spec_render_date(*d),
{
    let mut out = String::new();
    push_digit(&mut out, d.month / 10);
    push_digit(&mut out, d.month % 10);
    push_char(&mut out, '/');
    push_digit(&mut out, d.day / 10);
    push_digit(&mut out, d.day % 10);
    push_char(&mut out, '/');
    push_digit(&mut out, d.year / 1000);
    push_digit(&mut out, d.year / 100 % 10);
    push_digit(&mut out, d.year / 10 % 10);
    push_digit(&mut out, d.year % 10);
    push_char(&mut out, ' ');
    push_digit(&mut out, d.hour / 10);
    push_digit(&mut out, d.hour % 10);
    push_char(&mut out, ':');
    push_digit(&mut out, d.minute / 10);
    push_digit(&mut out, d.minute % 10);
    proof {
        assert(out@ =~= spec_render_date(*d));
    }
    out
}

/// Parse a date string in either accepted format and render it in the
/// canonical display format.
///
/// Succeeds exactly when the string matches the ISO pattern or the
/// default pattern; everything else is a `DateParseError`.
pub fn parse_date_to_string(date: &str) -> (r: Result<String, GitApiError>)
    ensures
        r is Ok <==> spec_parse_date(date@) is Some,
        r matches Ok(v) ==> v@ == spec_render_date(spec_parse_date(date@)->0),
        r matches Err(e) ==> e is DateParseError,
{
    match parse_iso(date) {
        Some(d) => Ok(render_date(&d)),
        None => {
            match parse_default(date) {
                Some(d) => Ok(render_date(&d)),
                None => Err(GitApiError::DateParseError),
            }
        },
    }
}

/// Parse a canonical `MM/DD/YYYY HH:MM` display string back into a
/// date value.
///
/// Succeeds exactly on well-formed canonical strings; everything else
/// is a `DateParseError`.
pub fn parse_string_to_date(date: &str) -> (r: Result<Date, GitApiError>)
    ensures
        r is Ok <==> spec_parse_canonical(date@) is Some,
        r matches Ok(d) ==> Some(d) == spec_parse_canonical(date@) && valid_date(d),
        r matches Err(e) ==> e is DateParseError,
{
    let n = date.unicode_len();
    if n != 16 {
        return Err(GitApiError::DateParseError);
    }
    if !(date.get_char(2) == '/' && date.get_char(5) == '/' && date.get_char(10) == ' '
        && date.get_char(13) == ':') {
        return Err(GitApiError::DateParseError);
    }
    let month = match parse_num(date, 0, 2) {
        Some(v) => v,
        None => {
            return Err(GitApiError::DateParseError);
        },
    };
    let day = match parse_num(date, 3, 5) {
        Some(v) => v,
        None => {
            return Err(GitApiError::DateParseError);
        },
    };
    let year = match parse_num(date, 6, 10) {
        Some(v) => v,
        None => {
            return Err(GitApiError::DateParseError);
        },
    };
    let hour = match parse_num(date, 11, 13) {
        Some(v) => v,
        None => {
            return Err(GitApiError::DateParseError);
        },
    };
    let minute = match parse_num(date, 14, 16) {
        Some(v) => v,
        None => {
            return Err(GitApiError::DateParseError);
        },
    };
    if !(1 <= month && month <= 12) {
        return Err(GitApiError::DateParseError);
    }
    if !(1 <= day && day <= days_in_month(year, month)) {
        return Err(GitApiError::DateParseError);
    }
    if !(hour <= 23 && minute <= 59) {
        return Err(GitApiError::DateParseError);
    }
    proof {
        lemma_seq_num_bound(date@.subrange(6, 10));
    }
    Ok(Date { year, month, day, hour, minute })
}

/// Whatever either date pattern accepts is a well-formed date.
pub proof fn lemma_spec_parse_date_valid(s: Seq<char>)
    requires
        spec_parse_date(s) is Some,
    ensures
        valid_date(spec_parse_date(s)->0),
{
    if spec_parse_iso(s) is Some {
        lemma_seq_num_bound(s.subrange(0, 4));
        lemma_seq_num_bound(s.subrange(5, 7));
        lemma_seq_num_bound(s.subrange(8, 10));
        lemma_seq_num_bound(s.subrange(11, 13));
        lemma_seq_num_bound(s.subrange(14, 16));
    } else {
        let toks = date_tokens(s);
        lemma_seq_num_bound(toks[4]);
        lemma_seq_num_bound(toks[2]);
        lemma_seq_num_bound(toks[3].subrange(0, 2));
        lemma_seq_num_bound(toks[3].subrange(3, 5));
    }
}

/// A two-digit value splits into its digits by `/ 10` and `% 10`.
proof fn lemma_two_digit_split(x: int, a: int, b: int)
    requires
        x == 10 * a + b,
        0 <= a,
        0 <= b < 10,
    ensures
        x / 10 == a,
        x % 10 == b,
{
    lemma_fundamental_div_mod_converse_div(x, 10, a, b);
    lemma_fundamental_div_mod_converse_mod(x, 10, a, b);
}

/// A four-digit value yields its digits back through division and
/// remainder by powers of ten.
proof fn lemma_four_digit_split(y: int, a: int, b: int, c: int, e: int)
    requires
        y == 1000 * a + 100 * b + 10 * c + e,
        0 <= a < 10,
        0 <= b < 10,
        0 <= c < 10,
        0 <= e < 10,
    ensures
        y / 1000 == a,
        y / 100 % 10 == b,
        y / 10 % 10 == c,
        y % 10 == e,
{
    lemma_fundamental_div_mod_converse_div(y, 1000, a, 100 * b + 10 * c + e);
    lemma_fundamental_div_mod_converse_div(y, 100, 10 * a + b, 10 * c + e);
    lemma_fundamental_div_mod_converse_mod(10 * a + b, 10, a, b);
    lemma_fundamental_div_mod_converse_div(y, 10, 100 * a + 10 * b + c, e);
    lemma_fundamental_div_mod_converse_mod(100 * a + 10 * b + c, 10, 10 * a + b, c);
    lemma_fundamental_div_mod_converse_mod(y, 10, 100 * a + 10 * b + c, e);
}

/// A four-digit value is the weighted sum of its digits.
proof fn lemma_four_digit_join(y: int)
    requires
        0 <= y <= 9999,
    ensures
        y == 1000 * (y / 1000) + 100 * (y / 100 % 10) + 10 * (y / 10 % 10) + y % 10,
        0 <= y / 1000 < 10,
        0 <= y / 100 % 10 < 10,
        0 <= y / 10 % 10 < 10,
        0 <= y % 10 < 10,
{
    lemma_fundamental_div_mod(y, 10);
    lemma_fundamental_div_mod(y / 10, 10);
    lemma_fundamental_div_mod(y / 100, 10);
    assert((y / 10) / 10 == y / 100) by {
        vstd::arithmetic::div_mod::lemma_div_denominator(y, 10, 10);
    }
    assert((y / 100) / 10 == y / 1000) by {
        vstd::arithmetic::div_mod::lemma_div_denominator(y, 100, 10);
    }
}

/// Parsing a canonical display string and rendering the parsed date
/// yields the same string: the canonical format round-trips exactly.
pub proof fn lemma_parse_then_render(s: Seq<char>)
    requires
        spec_parse_canonical(s) is Some,
    ensures
        spec_render_date(spec_parse_canonical(s)->0) == s,
{
    let d = spec_parse_canonical(s)->0;
    let mo = s.subrange(0, 2);
    let da = s.subrange(3, 5);
    let yr = s.subrange(6, 10);
    let ho = s.subrange(11, 13);
    let mi = s.subrange(14, 16);
    lemma_seq_num_2(mo);
    lemma_seq_num_2(da);
    lemma_seq_num_4(yr);
    lemma_seq_num_2(ho);
    lemma_seq_num_2(mi);
    assert(is_digit_char(s[0]) && is_digit_char(s[1]));
    assert(is_digit_char(s[3]) && is_digit_char(s[4]));
    assert(is_digit_char(s[6]) && is_digit_char(s[7]) && is_digit_char(s[8]) && is_digit_char(
        s[9],
    ));
    assert(is_digit_char(s[11]) && is_digit_char(s[12]));
    assert(is_digit_char(s[14]) && is_digit_char(s[15]));
    lemma_two_digit_split(d.month as int, digit_val(mo[0]), digit_val(mo[1]));
    lemma_two_digit_split(d.day as int, digit_val(da[0]), digit_val(da[1]));
    lemma_four_digit_split(
        d.year as int,
        digit_val(yr[0]),
        digit_val(yr[1]),
        digit_val(yr[2]),
        digit_val(yr[3]),
    );
    lemma_two_digit_split(d.hour as int, digit_val(ho[0]), digit_val(ho[1]));
    lemma_two_digit_split(d.minute as int, digit_val(mi[0]), digit_val(mi[1]));
    lemma_digit_roundtrip(s[0], 0);
    lemma_digit_roundtrip(s[1], 0);
    lemma_digit_roundtrip(s[3], 0);
    lemma_digit_roundtrip(s[4], 0);
    lemma_digit_roundtrip(s[6], 0);
    lemma_digit_roundtrip(s[7], 0);
    lemma_digit_roundtrip(s[8], 0);
    lemma_digit_roundtrip(s[9], 0);
    lemma_digit_roundtrip(s[11], 0);
    lemma_digit_roundtrip(s[12], 0);
    lemma_digit_roundtrip(s[14], 0);
    lemma_digit_roundtrip(s[15], 0);
    assert(spec_render_date(d) =~= s);
}

/// Rendering a well-formed date and parsing the canonical string back
/// recovers the same date value.
pub proof fn lemma_render_then_parse(d: Date)
    requires
        valid_date(d),
    ensures
        spec_parse_canonical(spec_render_date(d)) == Some(d),
{
    let s = spec_render_date(d);
    lemma_fundamental_div_mod(d.month as int, 10);
    lemma_fundamental_div_mod(d.day as int, 10);
    lemma_fundamental_div_mod(d.hour as int, 10);
    lemma_fundamental_div_mod(d.minute as int, 10);
    lemma_four_digit_join(d.year as int);
    lemma_digit_roundtrip('0', d.month as int / 10);
    lemma_digit_roundtrip('0', d.month as int % 10);
    lemma_digit_roundtrip('0', d.day as int / 10);
    lemma_digit_roundtrip('0', d.day as int % 10);
    lemma_digit_roundtrip('0', d.year as int / 1000);
    lemma_digit_roundtrip('0', d.year as int / 100 % 10);
    lemma_digit_roundtrip('0', d.year as int / 10 % 10);
    lemma_digit_roundtrip('0', d.year as int % 10);
    lemma_digit_roundtrip('0', d.hour as int / 10);
    lemma_digit_roundtrip('0', d.hour as int % 10);
    lemma_digit_roundtrip('0', d.minute as int / 10);
    lemma_digit_roundtrip('0', d.minute as int % 10);
    let mo = s.subrange(0, 2);
    let da = s.subrange(3, 5);
    let yr = s.subrange(6, 10);
    let ho = s.subrange(11, 13);
    let mi = s.subrange(14, 16);
    assert(mo =~= seq![s[0], s[1]]);
    assert(da =~= seq![s[3], s[4]]);
    assert(yr =~= seq![s[6], s[7], s[8], s[9]]);
    assert(ho =~= seq![s[11], s[12]]);
    assert(mi =~= seq![s[14], s[15]]);
    lemma_seq_num_2(mo);
    lemma_seq_num_2(da);
    lemma_seq_num_4(yr);
    lemma_seq_num_2(ho);
    lemma_seq_num_2(mi);
    assert(seq_num(mo) == d.month as int);
    assert(seq_num(da) == d.day as int);
    assert(seq_num(yr) == d.year as int);
    assert(seq_num(ho) == d.hour as int);
    assert(seq_num(mi) == d.minute as int);
}

/// Days in a month of the Gregorian calendar.
pub fn days_in_month(y: u32, m: u32) -> (r: u32)
    requires
        1 <= m <= 12,
    ensures
        r == spec_days_in_month(y as int, m as int),
{
    if m == 2 {
        if (y % 4 == 0 && y % 100 != 0) || y % 400 == 0 {
            29
        } else {
            28
        }
    } else if m == 4 || m == 6 || m == 9 || m == 11 {
        30
    } else {
        31
    }
}

} // verus!
