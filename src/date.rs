use vstd::prelude::*;

verus! {

/// A calendar date with a time of day and no time zone. The fields are in
/// order of significance, so the derived order is the chronological one.
#[derive(Clone, Copy, Debug, PartialEq, Eq, Structural, Hash, PartialOrd, Ord)]
pub struct DateTime {
    pub year: i32,
    pub month: u32,
    pub day: u32,
    pub hour: u32,
    pub minute: u32,
    pub second: u32,
}

impl DateTime {
    /// Midnight at the start of the given day.
    pub fn midnight(year: i32, month: u32, day: u32) -> (r: DateTime)
        ensures
            r == at_midnight(year, month, day),
    {
        DateTime { year, month, day, hour: 0, minute: 0, second: 0 }
    }
}

pub open spec fn at_midnight(year: i32, month: u32, day: u32) -> DateTime {
    DateTime { year, month, day, hour: 0, minute: 0, second: 0 }
}

/// `a` is strictly earlier than `b`.
pub open spec fn earlier(a: DateTime, b: DateTime) -> bool {
    if a.year != b.year {
        a.year < b.year
    } else if a.month != b.month {
        a.month < b.month
    } else if a.day != b.day {
        a.day < b.day
    } else if a.hour != b.hour {
        a.hour < b.hour
    } else if a.minute != b.minute {
        a.minute < b.minute
    } else {
        a.second < b.second
    }
}

/// In newest-first order, `a` comes strictly before `b`: it is later, or it
/// is dated and `b` is not.
pub open spec fn newer(a: Option<DateTime>, b: Option<DateTime>) -> bool {
    match (a, b) {
        (Some(x), Some(y)) => earlier(y, x),
        (Some(_), None) => true,
        _ => false,
    }
}

pub fn is_newer(a: Option<DateTime>, b: Option<DateTime>) -> (r: bool)
    ensures
        r == newer(a, b),
{
    match (a, b) {
        (Some(x), Some(y)) => {
            if y.year != x.year {
                y.year < x.year
            } else if y.month != x.month {
                y.month < x.month
            } else if y.day != x.day {
                y.day < x.day
            } else if y.hour != x.hour {
                y.hour < x.hour
            } else if y.minute != x.minute {
                y.minute < x.minute
            } else {
                y.second < x.second
            }
        },
        (Some(_), None) => true,
        _ => false,
    }
}

/// What `chrono::NaiveDateTime::parse_from_str` makes of a text and a format.
pub uninterp spec fn datetime_parsed(input: Seq<char>, fmt: Seq<char>) -> Option<DateTime>;

/// What `chrono::NaiveDate::parse_from_str` makes of a text and a format, as
/// year, month and day.
pub uninterp spec fn date_parsed(input: Seq<char>, fmt: Seq<char>) -> Option<(i32, u32, u32)>;

/// Relies on `chrono::NaiveDateTime::parse_from_str`: the result depends on
/// the text and the format alone.
#[verifier::external_body]
fn parse_datetime(input: &str, fmt: &str) -> (r: Option<DateTime>)
    ensures
        r == datetime_parsed(input@, fmt@),
{
    chrono::NaiveDateTime::parse_from_str(input, fmt).ok().map(
        |d| DateTime {
            year: chrono::Datelike::year(&d),
            month: chrono::Datelike::month(&d),
            day: chrono::Datelike::day(&d),
            hour: chrono::Timelike::hour(&d),
            minute: chrono::Timelike::minute(&d),
            second: chrono::Timelike::second(&d),
        },
    )
}

/// Relies on `chrono::NaiveDate::parse_from_str`: the result depends on the
/// text and the format alone. With `%Y-%m-%d` a text of four, two and two ASCII
/// digits joined by hyphens reads as those numbers, where they name a day of
/// the proleptic Gregorian calendar, and fails otherwise.
#[verifier::external_body]
fn parse_date(input: &str, fmt: &str) -> (r: Result<(i32, u32, u32), String>)
    ensures
        r is Ok <==> date_parsed(input@, fmt@) is Some,
        r matches Ok(v) ==> date_parsed(input@, fmt@) == Some(v),
        fmt@ == fmt_day() && input@.len() == 10 && date_shape_at(input@, 0) ==> (r is Ok
            <==> calendar_day_at(input@, 0) is Some) && (r matches Ok(v) ==> calendar_day_at(
            input@,
            0,
        ) == Some(v)),
{
    match chrono::NaiveDate::parse_from_str(input, fmt) {
        Ok(d) => Ok((chrono::Datelike::year(&d), chrono::Datelike::month(&d), chrono::Datelike::day(&d))),
        Err(e) => Err(e.to_string()),
    }
}

pub open spec fn fmt_seconds() -> Seq<char> {
    "%Y-%m-%d %H:%M:%S"@
}

pub open spec fn fmt_minutes() -> Seq<char> {
    "%Y-%m-%d %H:%M"@
}

pub open spec fn fmt_day() -> Seq<char> {
    "%Y-%m-%d"@
}

/// A date text read as date and time to the second, else to the minute, else
/// as a day at midnight; `None` where none of the three fits.
pub open spec fn date_text_value(input: Seq<char>) -> Option<DateTime> {
    if datetime_parsed(input, fmt_seconds()) is Some {
        datetime_parsed(input, fmt_seconds())
    } else if datetime_parsed(input, fmt_minutes()) is Some {
        datetime_parsed(input, fmt_minutes())
    } else {
        match date_parsed(input, fmt_day()) {
            Some((y, m, d)) => Some(at_midnight(y, m, d)),
            None => None,
        }
    }
}

/// Reads a date written as `YYYY-MM-DD HH:MM:SS`, `YYYY-MM-DD HH:MM` or
/// `YYYY-MM-DD` (midnight), trying the formats in that order. Where none fits,
/// the error says why the last one failed.
pub fn try_to_parse_date(input: &str) -> (r: Result<DateTime, String>)
    ensures
        r is Ok <==> date_text_value(input@) is Some,
        r matches Ok(d) ==> date_text_value(input@) == Some(d),
{
    proof {
        reveal_strlit("%Y-%m-%d %H:%M:%S");
        reveal_strlit("%Y-%m-%d %H:%M");
        reveal_strlit("%Y-%m-%d");
    }
    if let Some(d) = parse_datetime(input, "%Y-%m-%d %H:%M:%S") {
        return Ok(d);
    }
    if let Some(d) = parse_datetime(input, "%Y-%m-%d %H:%M") {
        return Ok(d);
    }
    match parse_date(input, "%Y-%m-%d") {
        Ok((y, m, d)) => Ok(DateTime::midnight(y, m, d)),
        Err(e) => Err(e),
    }
}

pub open spec fn is_digit(c: char) -> bool {
    '0' <= c && c <= '9'
}

/// The ten characters from `i` read `dddd-dd-dd`, each `d` a decimal digit.
pub open spec fn date_shape_at(s: Seq<char>, i: int) -> bool {
    &&& 0 <= i && i + 10 <= s.len()
    &&& is_digit(s[i]) && is_digit(s[i + 1]) && is_digit(s[i + 2]) && is_digit(s[i + 3])
    &&& s[i + 4] == '-'
    &&& is_digit(s[i + 5]) && is_digit(s[i + 6])
    &&& s[i + 7] == '-'
    &&& is_digit(s[i + 8]) && is_digit(s[i + 9])
}

/// Where the first `dddd-dd-dd` at or after `i` starts.
pub open spec fn first_date_from(s: Seq<char>, i: int) -> Option<int>
    decreases s.len() - i,
{
    if i < 0 || i + 10 > s.len() {
        None
    } else if date_shape_at(s, i) {
        Some(i)
    } else {
        first_date_from(s, i + 1)
    }
}

/// The value of the `n` decimal digits from `i`.
pub open spec fn number_at(s: Seq<char>, i: int, n: nat) -> int
    decreases n,
{
    if n == 0 {
        0
    } else {
        number_at(s, i, (n - 1) as nat) * 10 + (s[i + n - 1] as int - '0' as int)
    }
}

pub open spec fn is_leap_year(y: int) -> bool {
    (y % 4 == 0 && y % 100 != 0) || y % 400 == 0
}

pub open spec fn days_in_month(y: int, m: int) -> int {
    if m == 2 {
        if is_leap_year(y) {
            29
        } else {
            28
        }
    } else if m == 4 || m == 6 || m == 9 || m == 11 {
        30
    } else {
        31
    }
}

/// The `dddd-dd-dd` from `i` read as year, month and day, where that is a
/// day of the Gregorian calendar.
pub open spec fn calendar_day_at(s: Seq<char>, i: int) -> Option<(i32, u32, u32)> {
    let y = number_at(s, i, 4);
    let m = number_at(s, i + 5, 2);
    let d = number_at(s, i + 8, 2);
    if 1 <= m <= 12 && 1 <= d <= days_in_month(y, m) {
        Some((y as i32, m as u32, d as u32))
    } else {
        None
    }
}

/// The date that a path holds: its first `dddd-dd-dd`, read as a day at
/// midnight; `None` where there is none or it is no calendar day.
pub open spec fn path_date(path: Seq<char>) -> Option<DateTime> {
    match first_date_from(path, 0) {
        Some(i) => match calendar_day_at(path, i) {
            Some((y, m, d)) => Some(at_midnight(y, m, d)),
            None => None,
        },
        None => None,
    }
}

proof fn lemma_first_date_found(s: Seq<char>, k: int)
    ensures
        first_date_from(s, k) matches Some(i) ==> date_shape_at(s, i) && k <= i,
    decreases s.len() - k,
{
    if !(k < 0 || k + 10 > s.len()) && !date_shape_at(s, k) {
        lemma_first_date_found(s, k + 1);
    }
}

/// Where the only `dddd-dd-dd` of a text starts is where the first starts.
pub proof fn lemma_first_date_unique(s: Seq<char>, k: int, i: int)
    requires
        0 <= k <= i,
        date_shape_at(s, i),
        forall|j: int| k <= j < i ==> !date_shape_at(s, j),
    ensures
        first_date_from(s, k) == Some(i),
    decreases i - k,
{
    if k < i {
        lemma_first_date_unique(s, k + 1, i);
    }
}

proof fn lemma_shape_shift(s: Seq<char>, i: int)
    requires
        date_shape_at(s, i),
    ensures
        date_shape_at(s.subrange(i, i + 10), 0),
        calendar_day_at(s.subrange(i, i + 10), 0) == calendar_day_at(s, i),
{
    let t = s.subrange(i, i + 10);
    assert(number_at(t, 0, 4) == number_at(s, i, 4)) by {
        reveal_with_fuel(number_at, 5);
    }
    assert(number_at(t, 5, 2) == number_at(s, i + 5, 2)) by {
        reveal_with_fuel(number_at, 3);
    }
    assert(number_at(t, 8, 2) == number_at(s, i + 8, 2)) by {
        reveal_with_fuel(number_at, 3);
    }
}

fn digit_at(s: &Vec<char>, i: usize) -> (r: bool)
    requires
        i < s.len(),
    ensures
        r == is_digit(s@[i as int]),
{
    '0' <= s[i] && s[i] <= '9'
}

/// Where the first `dddd-dd-dd` in `s` starts.
pub fn find_date(s: &Vec<char>) -> (r: Option<usize>)
    ensures
        r matches Some(i) ==> first_date_from(s@, 0) == Some(i as int) && i + 10 <= s.len(),
        r is None ==> first_date_from(s@, 0) is None,
{
    if s.len() < 10 {
        return None;
    }
    let mut i: usize = 0;
    while i <= s.len() - 10
        invariant
            s.len() >= 10,
            i <= s.len() - 9,
            first_date_from(s@, 0) == first_date_from(s@, i as int),
        decreases s.len() - i,
    {
        if digit_at(s, i) && digit_at(s, i + 1) && digit_at(s, i + 2) && digit_at(s, i + 3) && s[i
            + 4] == '-' && digit_at(s, i + 5) && digit_at(s, i + 6) && s[i + 7] == '-' && digit_at(
            s,
            i + 8,
        ) && digit_at(s, i + 9) {
            return Some(i);
        }
        i = i + 1;
    }
    None
}

/// The date that a file path holds: its first `YYYY-MM-DD`, at midnight.
pub fn extract_date_from_filename(path: &str) -> (r: Option<DateTime>)
    ensures
        r == path_date(path@),
{
    proof {
        reveal_strlit("%Y-%m-%d");
    }
    let cs = crate::chars::chars_of(path);
    match find_date(&cs) {
        Some(i) => {
            let piece = crate::text::copy_range(&cs, i, i + 10);
            let text = crate::chars::string_from(&piece);
            proof {
                lemma_first_date_found(path@, 0);
                lemma_shape_shift(path@, i as int);
            }
            match parse_date(text.as_str(), "%Y-%m-%d") {
                Ok((y, m, d)) => Some(DateTime::midnight(y, m, d)),
                Err(_) => None,
            }
        },
        None => None,
    }
}

} // verus!
