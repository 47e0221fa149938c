//! Proleptic Gregorian calendar dates, as the tracker stores and compares them.
use vstd::prelude::*;
use chrono::NaiveDate;

verus! {

/// Smallest year that a date may have.
pub const MIN_YEAR: i32 = -262143i32;

/// Largest year that a date may have.
pub const MAX_YEAR: i32 = 262142i32;

pub open spec fn is_leap_year(y: int) -> bool {
    (y % 4 == 0 && y % 100 != 0) || y % 400 == 0
}

pub open spec fn days_in_month(y: int, m: int) -> int {
    if m == 2 {
        if is_leap_year(y) { 29 } else { 28 }
    } else if m == 4 || m == 6 || m == 9 || m == 11 {
        30
    } else {
        31
    }
}

/// A year, month and day that name an existing calendar day within the supported range.
pub open spec fn valid_ymd(y: int, m: int, d: int) -> bool {
    &&& MIN_YEAR <= y <= MAX_YEAR
    &&& 1 <= m <= 12
    &&& 1 <= d <= days_in_month(y, m)
}

/// The mathematical content of a date.
pub struct DateView {
    pub year: int,
    pub month: int,
    pub day: int,
}

/// `a` is on or before `b`.
pub open spec fn date_le(a: DateView, b: DateView) -> bool {
    ||| a.year < b.year
    ||| a.year == b.year && a.month < b.month
    ||| a.year == b.year && a.month == b.month && a.day <= b.day
}

/// `d` lies in the inclusive range given by an optional lower and upper bound;
/// a missing bound does not restrict.
pub open spec fn in_range(d: DateView, from: Option<DateView>, to: Option<DateView>) -> bool {
    &&& (from matches Some(f) ==> date_le(f, d))
    &&& (to matches Some(t) ==> date_le(d, t))
}

pub open spec fn digit_char(n: int) -> char {
    (('0' as int) + n) as char
}

/// Decimal digits of `n`, without leading zeros.
pub open spec fn decimal(n: nat) -> Seq<char>
    decreases n,
{
    if n < 10 {
        seq![digit_char(n as int)]
    } else {
        decimal(n / 10).push(digit_char((n % 10) as int))
    }
}

/// Decimal digits of `n`, padded with leading zeros to at least `width` characters.
pub open spec fn zero_padded(n: nat, width: nat) -> Seq<char> {
    if decimal(n).len() >= width {
        decimal(n)
    } else {
        Seq::new((width - decimal(n).len()) as nat, |_i: int| '0') + decimal(n)
    }
}

/// A year as ISO 8601 writes it: four digits for years 0 to 9999, otherwise an
/// explicit sign followed by at least four digits.
pub open spec fn year_text(y: int) -> Seq<char> {
    if 0 <= y <= 9999 {
        zero_padded(y as nat, 4)
    } else if y < 0 {
        seq!['-'] + zero_padded((-y) as nat, 4)
    } else {
        seq!['+'] + zero_padded(y as nat, 4)
    }
}

/// The `YYYY-MM` label of the month a date falls in.
pub open spec fn month_text(d: DateView) -> Seq<char> {
    year_text(d.year) + seq!['-'] + zero_padded(d.month as nat, 2)
}

/// The `YYYY-MM-DD` text of a date.
pub open spec fn iso_text(d: DateView) -> Seq<char> {
    month_text(d) + seq!['-'] + zero_padded(d.day as nat, 2)
}

/// Whether `chrono::NaiveDate::from_ymd_opt` accepts the triple. chrono documents
/// that it returns `None` exactly when the day does not exist in the proleptic
/// Gregorian calendar or the year lies outside its range, which its source fixes
/// at `MIN_YEAR..=MAX_YEAR` above.
#[verifier::external_body]
fn chrono_accepts(year: i32, month: u32, day: u32) -> (res: bool)
    ensures
        res == valid_ymd(year as int, month as int, day as int),
{
    NaiveDate::from_ymd_opt(year, month, day).is_some()
}

/// Formats a valid date with chrono's `%Y-%m` pattern. chrono's documentation of
/// `%Y` and `%m`, and its source, give the text stated here.
#[verifier::external_body]
fn chrono_month_label(year: i32, month: u32, day: u32) -> (res: String)
    requires
        valid_ymd(year as int, month as int, day as int),
    ensures
        res@ == month_text(DateView { year: year as int, month: month as int, day: day as int }),
{
    NaiveDate::from_ymd_opt(year, month, day).unwrap().format("%Y-%m").to_string()
}

/// Formats a valid date with chrono's `Display` for `NaiveDate`, which its
/// documentation gives as `%Y-%m-%d`.
#[verifier::external_body]
fn chrono_iso_text(year: i32, month: u32, day: u32) -> (res: String)
    requires
        valid_ymd(year as int, month as int, day as int),
    ensures
        res@ == iso_text(DateView { year: year as int, month: month as int, day: day as int }),
{
    NaiveDate::from_ymd_opt(year, month, day).unwrap().to_string()
}

/// A calendar day. Every value names an existing day in the supported range.
#[derive(Clone, Copy)]
pub struct Date {
    year: i32,
    month: u32,
    day: u32,
}

impl View for Date {
    type V = DateView;

    closed spec fn view(&self) -> DateView {
        DateView { year: self.year as int, month: self.month as int, day: self.day as int }
    }
}

pub open spec fn opt_date_view(d: Option<Date>) -> Option<DateView> {
    match d {
        Some(x) => Some(x@),
        None => None,
    }
}

impl Date {
    #[verifier::type_invariant]
    closed spec fn inv(self) -> bool {
        valid_ymd(self.year as int, self.month as int, self.day as int)
    }

    /// The date with the given year, month and day, or `None` where no such day exists.
    pub fn from_ymd(year: i32, month: u32, day: u32) -> (res: Option<Date>)
        ensures
            res is Some <==> valid_ymd(year as int, month as int, day as int),
            res matches Some(d) ==> d@ == (DateView {
                year: year as int,
                month: month as int,
                day: day as int,
            }),
    {
        if chrono_accepts(year, month, day) {
            Some(Date { year, month, day })
        } else {
            None
        }
    }

    pub fn year(&self) -> (r: i32)
        ensures
            r as int == self@.year,
    {
        self.year
    }

    pub fn month(&self) -> (r: u32)
        ensures
            r as int == self@.month,
    {
        self.month
    }

    pub fn day(&self) -> (r: u32)
        ensures
            r as int == self@.day,
    {
        self.day
    }

    /// Whether this date is on or before `other`.
    pub fn le(&self, other: &Date) -> (r: bool)
        ensures
            r == date_le(self@, other@),
    {
        self.year < other.year || (self.year == other.year && (self.month < other.month || (
        self.month == other.month && self.day <= other.day)))
    }

    /// Whether this date lies in the inclusive range `from..=to`, a missing bound
    /// leaving that side open.
    pub fn in_range(&self, from: &Option<Date>, to: &Option<Date>) -> (r: bool)
        ensures
            r == in_range(self@, opt_date_view(*from), opt_date_view(*to)),
    {
        let after_start = match from {
            Some(f) => f.le(self),
            None => true,
        };
        let before_end = match to {
            Some(t) => self.le(t),
            None => true,
        };
        after_start && before_end
    }

    /// The `YYYY-MM` label of the month this date falls in.
    pub fn month_label(&self) -> (r: String)
        ensures
            r@ == month_text(self@),
    {
        proof {
            use_type_invariant(self);
        }
        chrono_month_label(self.year, self.month, self.day)
    }

    /// The `YYYY-MM-DD` text of this date.
    pub fn iso_text(&self) -> (r: String)
        ensures
            r@ == iso_text(self@),
    {
        proof {
            use_type_invariant(self);
        }
        chrono_iso_text(self.year, self.month, self.day)
    }
}

} // verus!
