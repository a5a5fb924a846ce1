//! The civil calendar: which month, day, hour and minute a second falls in.
use vstd::prelude::*;
use vstd::string::*;
use crate::numbers;

verus! {

/// A date of the Gregorian calendar, which is also taken for the years before
/// it came into use.
pub struct Date {
    pub year: int,
    /// From 1 to 12.
    pub month: int,
    /// From 1 on.
    pub day: int,
}

/// Whether a year has a 29th of February.
pub open spec fn is_leap(year: int) -> bool {
    year % 4 == 0 && (year % 100 != 0 || year % 400 == 0)
}

/// How many days a month has.
pub open spec fn month_days(year: int, month: int) -> int {
    if month == 2 {
        if is_leap(year) {
            29
        } else {
            28
        }
    } else if month == 4 || month == 6 || month == 9 || month == 11 {
        30
    } else {
        31
    }
}

/// How many days of a year come before a month.
pub open spec fn days_before_month(year: int, month: int) -> int
    decreases month,
{
    if month <= 1 {
        0
    } else {
        days_before_month(year, month - 1) + month_days(year, month - 1)
    }
}

/// How many leap years there are from the year 1 up to but not including
/// `year`, negative for the years before.
pub open spec fn leaps_before(year: int) -> int {
    (year - 1) / 4 - (year - 1) / 100 + (year - 1) / 400
}

/// How many days the first day of a year comes after the first day of 1970.
pub open spec fn year_number(year: int) -> int {
    365 * (year - 1970) + leaps_before(year) - leaps_before(1970)
}

impl Date {
    /// Whether the calendar has such a date.
    pub open spec fn valid(self) -> bool {
        1 <= self.month <= 12 && 1 <= self.day <= month_days(self.year, self.month)
    }

    /// How many days the date comes after the first day of 1970.
    pub open spec fn number(self) -> int {
        year_number(self.year) + days_before_month(self.year, self.month) + self.day - 1
    }
}

/// The date that comes `number` days after the first day of 1970.
pub open spec fn date_of(number: int) -> Date {
    choose|date: Date| date.valid() && #[trigger] date.number() == number
}

/// The short name of a month.
pub open spec fn month_name(month: int) -> Seq<char> {
    if month == 1 {
        "Jan"@
    } else if month == 2 {
        "Feb"@
    } else if month == 3 {
        "Mar"@
    } else if month == 4 {
        "Apr"@
    } else if month == 5 {
        "May"@
    } else if month == 6 {
        "Jun"@
    } else if month == 7 {
        "Jul"@
    } else if month == 8 {
        "Aug"@
    } else if month == 9 {
        "Sep"@
    } else if month == 10 {
        "Oct"@
    } else if month == 11 {
        "Nov"@
    } else {
        "Dec"@
    }
}

/// A number below 100 with two digits.
pub open spec fn two_digits(n: int) -> Seq<char> {
    seq![numbers::digit_char(n / 10), numbers::digit_char(n % 10)]
}

/// How a clock `offset` seconds ahead of universal time shows the second that
/// comes `ts` after the start of 1970: the month, the day, the hour and the
/// minute, such as `Nov 14 22:13`.
pub open spec fn stamp_at(ts: int, offset: int) -> Seq<char> {
    let local = ts + offset;
    let date = date_of(local / 86400);
    let hour = local % 86400 / 3600;
    let minute = local % 3600 / 60;
    month_name(date.month) + " "@ + two_digits(date.day) + " "@ + two_digits(hour) + ":"@
        + two_digits(minute)
}

// --- Laws ---

/// A year is as long as its months together, and the next one follows it.
proof fn lemma_year(year: int)
    ensures
        days_before_month(year, 12) + 31 == 365 + if is_leap(year) {
            1int
        } else {
            0
        },
        year_number(year + 1) == year_number(year) + 365 + if is_leap(year) {
            1int
        } else {
            0
        },
{
    reveal_with_fuel(days_before_month, 12);
}

/// A date for every day, found by going day by day.
proof fn lemma_date_exists(number: int) -> (date: Date)
    ensures
        date.valid(),
        date.number() == number,
    decreases if number >= 0 {
        number
    } else {
        -number
    },
{
    if number == 0 {
        Date { year: 1970, month: 1, day: 1 }
    } else if number > 0 {
        let before = lemma_date_exists(number - 1);
        lemma_year(before.year);
        if before.day < month_days(before.year, before.month) {
            Date { day: before.day + 1, ..before }
        } else if before.month < 12 {
            Date { month: before.month + 1, day: 1, ..before }
        } else {
            Date { year: before.year + 1, month: 1, day: 1 }
        }
    } else {
        let after = lemma_date_exists(number + 1);
        lemma_year(after.year - 1);
        if after.day > 1 {
            Date { day: after.day - 1, ..after }
        } else if after.month > 1 {
            let month = after.month - 1;
            Date { month, day: month_days(after.year, month), ..after }
        } else {
            Date { year: after.year - 1, month: 12, day: 31 }
        }
    }
}

/// Later years start later, by at least their first day.
proof fn lemma_years_in_order(first: int, second: int)
    requires
        first < second,
    ensures
        year_number(first + 1) <= year_number(second),
    decreases second - first,
{
    if first + 1 < second {
        lemma_years_in_order(first, second - 1);
        lemma_year(second - 1);
    }
}

/// Later months start later, and the days of the ones before lie between.
proof fn lemma_months_in_order(year: int, first: int, second: int)
    requires
        1 <= first < second,
    ensures
        days_before_month(year, first) + month_days(year, first) <= days_before_month(
            year,
            second,
        ),
    decreases second - first,
{
    if first + 1 < second {
        lemma_months_in_order(year, first, second - 1);
    }
}

/// A date lies within its year.
proof fn lemma_within_year(date: Date)
    requires
        date.valid(),
    ensures
        year_number(date.year) <= date.number() < year_number(date.year + 1),
{
    lemma_year(date.year);
    if date.month < 12 {
        lemma_months_in_order(date.year, date.month, 12);
    }
    if 1 < date.month {
        lemma_months_in_order(date.year, 1, date.month);
    }
}

/// Two dates on the same day are one.
proof fn lemma_date_unique(a: Date, b: Date)
    requires
        a.valid(),
        b.valid(),
        a.number() == b.number(),
    ensures
        a == b,
{
    lemma_within_year(a);
    lemma_within_year(b);
    if a.year < b.year {
        lemma_years_in_order(a.year, b.year);
    } else if b.year < a.year {
        lemma_years_in_order(b.year, a.year);
    } else if a.month < b.month {
        lemma_months_in_order(a.year, a.month, b.month);
    } else if b.month < a.month {
        lemma_months_in_order(a.year, b.month, a.month);
    }
}

/// Every day has exactly one date.
pub proof fn every_day_has_one_date(number: int, date: Date)
    ensures
        date_of(number).valid(),
        date_of(number).number() == number,
        date.valid() && date.number() == number ==> date == date_of(number),
{
    let found = lemma_date_exists(number);
    assert(found.valid() && found.number() == number);
    if date.valid() && date.number() == number {
        lemma_date_unique(date, date_of(number));
    }
}

/// The text of a time has twelve characters.
pub proof fn stamps_have_twelve_characters(ts: int, offset: int)
    ensures
        stamp_at(ts, offset).len() == 12,
{
    reveal_strlit("Jan");
    reveal_strlit("Feb");
    reveal_strlit("Mar");
    reveal_strlit("Apr");
    reveal_strlit("May");
    reveal_strlit("Jun");
    reveal_strlit("Jul");
    reveal_strlit("Aug");
    reveal_strlit("Sep");
    reveal_strlit("Oct");
    reveal_strlit("Nov");
    reveal_strlit("Dec");
    reveal_strlit(" ");
    reveal_strlit(":");
}

}
