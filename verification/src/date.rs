//! Calendar dates, written `YYYY-MM-DD`.
use vstd::prelude::*;
use vstd::utf8;

use crate::text;

verus! {

/// A text that is not a calendar date.
#[derive(Debug, Clone, Copy, PartialEq, Eq, Structural)]
pub struct DateError;

/// Whether a year has a twenty-ninth of February.
pub open spec fn is_leap(year: int) -> bool {
    year % 4 == 0 && (year % 100 != 0 || year % 400 == 0)
}

/// How many days a month has.
pub open spec fn days_in(year: int, month: int) -> int {
    if month == 2 {
        if is_leap(year) {
            29
        } else {
            28
        }
    } else if month == 4 || month == 6 || month == 9 || month == 11 {
        30
    } else {
        31
    }
}

/// Whether a year, a month and a day are a date that can be written.
pub open spec fn in_calendar(year: int, month: int, day: int) -> bool {
    0 <= year <= 9999 && 1 <= month <= 12 && 1 <= day <= days_in(year, month)
}

/// A calendar date.
#[derive(Debug, Clone, Copy, PartialEq, Eq, PartialOrd, Ord, Structural)]
pub struct Date {
    year: u16,
    month: u8,
    day: u8,
}

/// What a date says: its year, month and day.
pub struct DateModel {
    pub year: int,
    pub month: int,
    pub day: int,
}

impl View for Date {
    type V = DateModel;

    closed spec fn view(&self) -> DateModel {
        DateModel { year: self.year as int, month: self.month as int, day: self.day as int }
    }
}

impl DateModel {
    /// Whether the date exists.
    pub open spec fn valid(self) -> bool {
        in_calendar(self.year, self.month, self.day)
    }

    /// Whether a date is later than another.
    pub open spec fn after(self, other: DateModel) -> bool {
        self.year > other.year || (self.year == other.year && (self.month > other.month || (
        self.month == other.month && self.day > other.day)))
    }

    /// The year and month as they are written.
    pub open spec fn month_text(self) -> Seq<char> {
        seq![
            text::digit(self.year / 1000),
            text::digit(self.year / 100 % 10),
            text::digit(self.year / 10 % 10),
            text::digit(self.year % 10),
            '-',
            text::digit(self.month / 10),
            text::digit(self.month % 10),
        ]
    }

    /// The date as it is written.
    pub open spec fn date_text(self) -> Seq<char> {
        self.month_text() + seq!['-', text::digit(self.day / 10), text::digit(self.day % 10)]
    }
}

/// Whether a character is a decimal digit.
pub open spec fn is_digit(c: char) -> bool {
    '0' <= c <= '9'
}

/// The value of a decimal digit.
pub open spec fn digit_value(c: char) -> int {
    c as int - '0' as int
}

/// What a text says, where it is a date.
pub open spec fn read_date(s: Seq<char>) -> Option<DateModel> {
    if s.len() == 10 && is_digit(s[0]) && is_digit(s[1]) && is_digit(s[2]) && is_digit(s[3]) && s[4]
        == '-' && is_digit(s[5]) && is_digit(s[6]) && s[7] == '-' && is_digit(s[8]) && is_digit(
        s[9],
    ) {
        let d = DateModel {
            year: digit_value(s[0]) * 1000 + digit_value(s[1]) * 100 + digit_value(s[2]) * 10
                + digit_value(s[3]),
            month: digit_value(s[5]) * 10 + digit_value(s[6]),
            day: digit_value(s[8]) * 10 + digit_value(s[9]),
        };
        if d.valid() {
            Some(d)
        } else {
            None
        }
    } else {
        None
    }
}

proof fn lemma_digit(n: int)
    requires
        0 <= n <= 9,
    ensures
        is_digit(text::digit(n)),
        digit_value(text::digit(n)) == n,
{
}

proof fn lemma_four_digits(n: int)
    requires
        0 <= n <= 9999,
    ensures
        0 <= n / 1000 <= 9,
        0 <= n / 100 % 10 <= 9,
        0 <= n / 10 % 10 <= 9,
        0 <= n % 10 <= 9,
        (n / 1000) * 1000 + (n / 100 % 10) * 100 + (n / 10 % 10) * 10 + n % 10 == n,
{
    let a = n / 10;
    let b = a / 10;
    assert(n / 100 == b);
    assert(n / 1000 == b / 10);
}

/// Reading back what was written gives the date that was written.
pub proof fn lemma_date_round_trip(d: DateModel)
    requires
        d.valid(),
    ensures
        read_date(d.date_text()) == Some(d),
{
    let s = d.date_text();
    let (y, m, n) = (d.year, d.month, d.day);
    assert(days_in(y, m) <= 31);
    lemma_four_digits(y);
    lemma_digit(y / 1000);
    lemma_digit(y / 100 % 10);
    lemma_digit(y / 10 % 10);
    lemma_digit(y % 10);
    lemma_digit(m / 10);
    lemma_digit(m % 10);
    lemma_digit(n / 10);
    lemma_digit(n % 10);
    assert(s =~= seq![
        text::digit(y / 1000),
        text::digit(y / 100 % 10),
        text::digit(y / 10 % 10),
        text::digit(y % 10),
        '-',
        text::digit(m / 10),
        text::digit(m % 10),
        '-',
        text::digit(n / 10),
        text::digit(n % 10),
    ]);
}

fn digit_of(c: char) -> (r: Option<u16>)
    ensures
        match r {
            Some(n) => is_digit(c) && n == digit_value(c) && n <= 9,
            None => !is_digit(c),
        },
{
    let n: u32 = c as u32;
    if n >= 48 && n <= 57 {
        Some((n - 48) as u16)
    } else {
        None
    }
}

fn push_two(out: &mut String, n: u8)
    requires
        n < 100,
    ensures
        final(out)@ == old(out)@ + seq![text::digit((n / 10) as int), text::digit((n % 10) as int)],
{
    out.push((48u8 + n / 10) as char);
    out.push((48u8 + n % 10) as char);
    proof {
        assert(out@ =~= old(out)@ + seq![
            text::digit((n / 10) as int),
            text::digit((n % 10) as int),
        ]);
    }
}

impl Date {
    #[verifier::type_invariant]
    spec fn exists_in_calendar(self) -> bool {
        in_calendar(self.year as int, self.month as int, self.day as int)
    }

    /// Read a date written `YYYY-MM-DD`.
    pub fn parse(text: &str) -> (r: Result<Date, DateError>)
        ensures
            match r {
                Ok(d) => read_date(text@) == Some(d@),
                Err(_) => read_date(text@) is None,
            },
    {
        let s = crate::text::chars_of(text);
        if s.len() != 10 || s[4] != '-' || s[7] != '-' {
            return Err(DateError);
        }
        match (
            digit_of(s[0]),
            digit_of(s[1]),
            digit_of(s[2]),
            digit_of(s[3]),
            digit_of(s[5]),
            digit_of(s[6]),
            digit_of(s[8]),
            digit_of(s[9]),
        ) {
            (Some(a), Some(b), Some(c), Some(d), Some(e), Some(f), Some(g), Some(h)) => {
                let year: u16 = a * 1000 + b * 100 + c * 10 + d;
                let month: u16 = e * 10 + f;
                let day: u16 = g * 10 + h;
                let leap = year % 4 == 0 && (year % 100 != 0 || year % 400 == 0);
                let days: u16 = if month == 2 {
                    if leap {
                        29
                    } else {
                        28
                    }
                } else if month == 4 || month == 6 || month == 9 || month == 11 {
                    30
                } else {
                    31
                };
                if month < 1 || month > 12 || day < 1 || day > days {
                    return Err(DateError);
                }
                Ok(Date { year, month: month as u8, day: day as u8 })
            },
            _ => Err(DateError),
        }
    }

    /// Whether this date is later than another.
    pub fn is_after(&self, other: &Date) -> (r: bool)
        ensures
            r == self@.after(other@),
    {
        self.year > other.year || (self.year == other.year && (self.month > other.month || (
        self.month == other.month && self.day > other.day)))
    }

    /// The year and month, written `YYYY-MM`.
    pub fn year_month(&self) -> (r: String)
        ensures
            r@ == self@.month_text(),
            self@.valid(),
    {
        proof {
            use_type_invariant(self);
        }
        let mut out = String::new();
        push_two(&mut out, (self.year / 100) as u8);
        push_two(&mut out, (self.year % 100) as u8);
        out.push('-');
        push_two(&mut out, self.month);
        proof {
            assert(out@ =~= self@.month_text());
        }
        out
    }

    /// The date, written `YYYY-MM-DD`.
    pub fn written(&self) -> (r: String)
        ensures
            r@ == self@.date_text(),
            self@.valid(),
    {
        proof {
            use_type_invariant(self);
        }
        let mut out = self.year_month();
        out.push('-');
        push_two(&mut out, self.day);
        proof {
            assert(out@ =~= self@.date_text());
        }
        out
    }
}

impl std::str::FromStr for Date {
    type Err = DateError;

    fn from_str(text: &str) -> (r: Result<Self, DateError>)
        ensures
            match r {
                Ok(d) => read_date(text@) == Some(d@),
                Err(_) => read_date(text@) is None,
            },
    {
        Date::parse(text)
    }
}

// --- laws -----------------------------------------------------------------

/// Being after is a strict total order: no date is after itself, of two different
/// dates exactly one is after the other, and what is after a date is after
/// whatever that date is after.
pub proof fn lemma_after_is_a_strict_total_order(a: DateModel, b: DateModel, c: DateModel)
    ensures
        !a.after(a),
        a != b ==> (a.after(b) <==> !b.after(a)),
        a.after(b) && b.after(c) ==> a.after(c),
{
}

/// The digits of a date as it is written, with the dashes between them.
proof fn lemma_written(d: DateModel)
    requires
        d.valid(),
    ensures
        d.date_text().len() == 10,
        utf8::is_ascii_chars(d.date_text()),
        text::byte_key(d.date_text()).len() == 10,
        forall|i: int|
            0 <= i < 10 ==> #[trigger] text::byte_key(d.date_text())[i] == d.date_text()[i] as int,
{
    let s = d.date_text();
    let (y, m, n) = (d.year, d.month, d.day);
    assert(days_in(y, m) <= 31);
    lemma_four_digits(y);
    lemma_digit(y / 1000);
    lemma_digit(y / 100 % 10);
    lemma_digit(y / 10 % 10);
    lemma_digit(y % 10);
    lemma_digit(m / 10);
    lemma_digit(m % 10);
    lemma_digit(n / 10);
    lemma_digit(n % 10);
    assert(utf8::is_ascii_chars(s));
    utf8::is_ascii_chars_encode_utf8(s);
    assert forall|i: int| 0 <= i < 10 implies #[trigger] text::byte_key(s)[i] == s[i] as int by {
        assert(s[i] as u8 == utf8::encode_utf8(s)[i]);
    }
}

/// The order of dates is the order of what is written: a date is after another
/// exactly when its `YYYY-MM-DD` comes later in text order.
pub proof fn lemma_after_is_the_order_of_what_is_written(a: DateModel, b: DateModel)
    requires
        a.valid(),
        b.valid(),
    ensures
        a.after(b) <==> text::text_less(b.date_text(), a.date_text()),
{
    let s = b.date_text();
    let t = a.date_text();
    lemma_written(a);
    lemma_written(b);
    lemma_four_digits(a.year);
    lemma_four_digits(b.year);
    assert(days_in(a.year, a.month) <= 31);
    assert(days_in(b.year, b.month) <= 31);
    reveal_with_fuel(text::lex_less_from, 11);
    let x = text::byte_key(s);
    let y = text::byte_key(t);
    assert(x[0] == s[0] as int && y[0] == t[0] as int);
    assert(x[1] == s[1] as int && y[1] == t[1] as int);
    assert(x[2] == s[2] as int && y[2] == t[2] as int);
    assert(x[3] == s[3] as int && y[3] == t[3] as int);
    assert(x[4] == s[4] as int && y[4] == t[4] as int);
    assert(x[5] == s[5] as int && y[5] == t[5] as int);
    assert(x[6] == s[6] as int && y[6] == t[6] as int);
    assert(x[7] == s[7] as int && y[7] == t[7] as int);
    assert(x[8] == s[8] as int && y[8] == t[8] as int);
    assert(x[9] == s[9] as int && y[9] == t[9] as int);
}

/// How many days lie before a month, counted from the start of the year.
pub open spec fn days_before(year: int, month: int) -> int {
    let plain = seq![0int, 31, 59, 90, 120, 151, 181, 212, 243, 273, 304, 334];
    plain[month - 1] + if month > 2 {
        year / 4 - (year - 1) / 4 - (year / 100 - (year - 1) / 100) + year / 400 - (year - 1) / 400
    } else {
        0
    }
}

/// How many days have passed since a day before the calendar starts.
pub open spec fn day_number(d: DateModel) -> int {
    let y = d.year - 1;
    365 * d.year + y / 4 - y / 100 + y / 400 + days_before(d.year, d.month) + d.day
}

/// The calendar has neither gaps nor overlaps: the day after the last of a month
/// is the first of the next, and the day after the last of a year the first of
/// the next.
pub proof fn lemma_the_calendar_has_no_gaps(d: DateModel)
    requires
        d.valid(),
    ensures
        (DateModel { day: d.day + 1, ..d }).valid() ==> day_number(
            DateModel { day: d.day + 1, ..d },
        ) == day_number(d) + 1,
        !(DateModel { day: d.day + 1, ..d }).valid() && d.month < 12 ==> day_number(
            DateModel { month: d.month + 1, day: 1, ..d },
        ) == day_number(d) + 1,
        !(DateModel { day: d.day + 1, ..d }).valid() && d.month == 12 ==> day_number(
            DateModel { year: d.year + 1, month: 1, day: 1 },
        ) == day_number(d) + 1,
{
    let y = d.year;
    assert(is_leap(y) <==> y / 4 - (y - 1) / 4 - (y / 100 - (y - 1) / 100) + y / 400 - (y - 1)
        / 400 == 1);
    assert(!is_leap(y) <==> y / 4 - (y - 1) / 4 - (y / 100 - (y - 1) / 100) + y / 400 - (y - 1)
        / 400 == 0);
}

/// A later date is a later day.
pub proof fn lemma_after_counts_days(a: DateModel, b: DateModel)
    requires
        a.valid(),
        b.valid(),
    ensures
        a.after(b) <==> day_number(a) > day_number(b),
{
    lemma_day_of_year(a);
    lemma_day_of_year(b);
    if a.year > b.year {
        lemma_years_pass(b.year, a.year);
    } else if b.year > a.year {
        lemma_years_pass(a.year, b.year);
    } else if a.month > b.month {
        lemma_months_pass(a.year, b.month, a.month);
    } else if b.month > a.month {
        lemma_months_pass(a.year, a.month, b.month);
    }
}

proof fn lemma_leap_step(y: int)
    ensures
        y / 4 - (y - 1) / 4 - (y / 100 - (y - 1) / 100) + y / 400 - (y - 1) / 400 == (if is_leap(
            y,
        ) {
            1int
        } else {
            0int
        }),
{
}

proof fn lemma_day_of_year(d: DateModel)
    requires
        d.valid(),
    ensures
        1 <= days_before(d.year, d.month) + d.day <= 365 + (if is_leap(d.year) {
            1int
        } else {
            0int
        }),
{
    lemma_leap_step(d.year);
}

proof fn lemma_months_pass(year: int, a: int, b: int)
    requires
        1 <= a < b <= 12,
    ensures
        days_before(year, a) + days_in(year, a) <= days_before(year, b),
{
    lemma_leap_step(year);
}

proof fn lemma_years_pass(a: int, b: int)
    requires
        0 <= a < b,
    ensures
        ({
            let p = a - 1;
            let q = b - 1;
            365 * a + p / 4 - p / 100 + p / 400 + 365 + (if is_leap(a) {
                1int
            } else {
                0int
            }) <= 365 * b + q / 4 - q / 100 + q / 400
        }),
    decreases b - a,
{
    lemma_leap_step(a);
    lemma_leap_step(b - 1);
    if a < b - 1 {
        lemma_years_pass(a, b - 1);
    }
}

/// A text reads as a date only where it is that date as it is written.
pub proof fn lemma_only_what_is_written_is_read(s: Seq<char>)
    ensures
        read_date(s) matches Some(d) ==> d.valid() && d.date_text() == s,
{
    if let Some(d) = read_date(s) {
        let (y, m, n) = (d.year, d.month, d.day);
        let a = digit_value(s[0]);
        let b = digit_value(s[1]);
        let c = digit_value(s[2]);
        let e = digit_value(s[3]);
        assert(y / 1000 == a);
        assert(y / 100 == 10 * a + b);
        assert(y / 10 == 100 * a + 10 * b + c);
        assert(y % 10 == e);
        assert(d.date_text() =~= s);
    }
}

/// Two dates share a month exactly when what is written of them up to the month
/// is the same.
pub proof fn lemma_months_are_told_apart(a: DateModel, b: DateModel)
    requires
        a.valid(),
        b.valid(),
    ensures
        a.month_text() == b.month_text() <==> (a.year == b.year && a.month == b.month),
        a.month_text() == a.date_text().take(7),
{
    assert(a.date_text().take(7) =~= a.month_text());
    lemma_date_round_trip(a);
    lemma_date_round_trip(b);
    if a.month_text() == b.month_text() {
        let s = a.date_text();
        let t = b.date_text();
        assert(s.take(7) == t.take(7)) by {
            assert(t.take(7) =~= b.month_text());
        }
        assert forall|i: int| 0 <= i < 7 implies s[i] == t[i] by {
            assert(s.take(7)[i] == s[i]);
            assert(t.take(7)[i] == t[i]);
        }
    }
}

} // verus!
