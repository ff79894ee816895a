//! Plain values that stand for amounts of money, calendar dates and instants.
//!
//! Each holds integers only. Their written forms, which enter the keys and the
//! fingerprints of the records, are produced by `rust_decimal` and `chrono`.
//! Dates and instants are kept to the years 0 to 9999.

use crate::text::push_char;
use vstd::prelude::*;

verus! {

/// Largest number of decimal places of an [`Amount`].
pub const MAX_AMOUNT_SCALE: u32 = 28;

/// Largest mantissa of an [`Amount`]: 96 bits, all set.
pub const MAX_AMOUNT_MANTISSA: i128 = 0xFFFF_FFFF_FFFF_FFFF_FFFF_FFFF;

/// Last year that a [`CalendarDate`] can hold.
pub const MAX_YEAR: u16 = 9999;

/// Seconds from the epoch to the first instant of year 0.
pub const MIN_TIMESTAMP_SECONDS: i64 = -62_167_219_200;

/// Seconds from the epoch to the last second of year 9999.
pub const MAX_TIMESTAMP_SECONDS: i64 = 253_402_300_799;

/// A decimal amount: `mantissa` divided by ten to the power of `scale`.
#[derive(Clone, Copy, Debug, PartialEq, Eq, Structural)]
pub struct Amount {
    pub mantissa: i128,
    pub scale: u32,
}

/// A day of the Gregorian calendar, in a year from 0 to 9999: the years that
/// are written with four digits. A day of another year is none of this type
/// and is refused as malformed.
#[derive(Clone, Copy, Debug, PartialEq, Eq, Structural)]
pub struct CalendarDate {
    pub year: u16,
    pub month: u8,
    pub day: u8,
}

/// An instant in universal time: seconds since the Unix epoch and the
/// nanoseconds into that second. The instant lies in a year from 0 to 9999;
/// another one is none of this type and is refused as malformed.
#[derive(Clone, Copy, Debug, PartialEq, Eq, Structural)]
pub struct Timestamp {
    pub seconds: i64,
    pub nanoseconds: u32,
}


/// The RFC 3339 form of the instant, as `chrono` prints it for universal time.
pub uninterp spec fn rfc3339_text(seconds: int, nanoseconds: nat) -> Seq<char>;

/// The character of a decimal digit.
pub open spec fn digit_char(n: int) -> char
    recommends
        0 <= n <= 9,
{
    (('0' as u32) + n) as char
}

/// The number in decimal digits, without leading zeros.
pub open spec fn decimal_digits(n: nat) -> Seq<char>
    decreases n,
{
    if n < 10 {
        seq![digit_char(n as int)]
    } else {
        decimal_digits(n / 10).push(digit_char((n % 10) as int))
    }
}

/// The number in decimal digits, with zeros before them where they are fewer
/// than `width`.
pub open spec fn padded_digits(n: nat, width: nat) -> Seq<char> {
    let digits = decimal_digits(n);
    if digits.len() < width {
        Seq::new((width - digits.len()) as nat, |i: int| '0') + digits
    } else {
        digits
    }
}

/// The written form of the decimal with the given mantissa and scale: a minus
/// sign where it is below zero; the digits of the mantissa, with zeros before
/// them so that one digit at least stands before the point; and, where the
/// scale is not 0, a point before the last `scale` digits.
pub open spec fn decimal_text(mantissa: int, scale: nat) -> Seq<char> {
    let digits = padded_digits((if mantissa < 0 { -mantissa } else { mantissa }) as nat, scale + 1);
    let body = if scale == 0 {
        digits
    } else {
        digits.take(digits.len() - scale) + seq!['.'] + digits.skip(digits.len() - scale)
    };
    if mantissa < 0 {
        seq!['-'] + body
    } else {
        body
    }
}

/// A number below one hundred in two digits.
pub open spec fn two_digits(n: int) -> Seq<char>
    recommends
        0 <= n <= 99,
{
    seq![digit_char(n / 10), digit_char(n % 10)]
}

/// Whether February of that year has 29 days.
pub open spec fn is_leap_year(year: int) -> bool {
    year % 4 == 0 && (year % 100 != 0 || year % 400 == 0)
}

/// Number of days of the month; 0 where there is no such month.
pub open spec fn days_in_month(year: int, month: int) -> int {
    if month == 2 {
        if is_leap_year(year) {
            29
        } else {
            28
        }
    } else if month == 4 || month == 6 || month == 9 || month == 11 {
        30
    } else if 1 <= month <= 12 {
        31
    } else {
        0
    }
}

/// The date as four digits of the year, two of the month and two of the day,
/// with hyphens between them.
pub open spec fn date_text(year: int, month: int, day: int) -> Seq<char> {
    two_digits(year / 100) + two_digits(year % 100) + seq!['-'] + two_digits(month) + seq!['-']
        + two_digits(day)
}

/// The character of a decimal digit.
pub fn digit_of(digit: usize) -> (r: char)
    requires
        digit <= 9,
    ensures
        r == digit_char(digit as int),
{
    match digit {
        0 => '0',
        1 => '1',
        2 => '2',
        3 => '3',
        4 => '4',
        5 => '5',
        6 => '6',
        7 => '7',
        8 => '8',
        _ => '9',
    }
}

/// The number in decimal digits.
pub fn number_text(number: usize) -> (r: String)
    ensures
        r@ == decimal_digits(number as nat),
    decreases number,
{
    if number < 10 {
        let mut text = String::new();
        push_char(&mut text, digit_of(number));
        assert(text@ =~= seq![digit_char(number as int)]);
        text
    } else {
        let mut text = number_text(number / 10);
        push_char(&mut text, digit_of(number % 10));
        text
    }
}

impl Amount {
    /// The amount is one that `rust_decimal` can hold.
    pub open spec fn wf(&self) -> bool {
        &&& self.scale <= MAX_AMOUNT_SCALE
        &&& -MAX_AMOUNT_MANTISSA <= self.mantissa <= MAX_AMOUNT_MANTISSA
    }

    pub open spec fn spec_is_negative(&self) -> bool {
        self.mantissa < 0
    }

    pub open spec fn spec_is_positive(&self) -> bool {
        self.mantissa > 0
    }

    /// The written form that enters a fingerprint.
    pub open spec fn text(&self) -> Seq<char> {
        decimal_text(self.mantissa as int, self.scale as nat)
    }

    pub fn is_valid(&self) -> (r: bool)
        ensures
            r == self.wf(),
    {
        self.scale <= MAX_AMOUNT_SCALE && -MAX_AMOUNT_MANTISSA <= self.mantissa
            && self.mantissa <= MAX_AMOUNT_MANTISSA
    }

    /// Whether the amount is below zero.
    #[verifier::when_used_as_spec(spec_is_negative)]
    pub fn is_negative(&self) -> (r: bool)
        ensures
            r == self.spec_is_negative(),
    {
        self.mantissa < 0
    }

    /// Whether the amount is above zero.
    #[verifier::when_used_as_spec(spec_is_positive)]
    pub fn is_positive(&self) -> (r: bool)
        ensures
            r == self.spec_is_positive(),
    {
        self.mantissa > 0
    }

    pub fn to_text(&self) -> (r: String)
        requires
            self.wf(),
        ensures
            r@ == self.text(),
    {
        print_decimal(self.mantissa, self.scale)
    }
}

impl CalendarDate {
    /// The day exists, in a year from 0 to 9999.
    pub open spec fn wf(&self) -> bool {
        &&& self.year <= MAX_YEAR
        &&& 1 <= self.month <= 12
        &&& 1 <= self.day <= days_in_month(self.year as int, self.month as int)
    }

    /// The written form: `YYYY-MM-DD`.
    pub open spec fn text(&self) -> Seq<char> {
        date_text(self.year as int, self.month as int, self.day as int)
    }

    /// Whether this day is `other` or comes before it.
    pub open spec fn spec_not_after(&self, other: &CalendarDate) -> bool {
        ||| self.year < other.year
        ||| self.year == other.year && self.month < other.month
        ||| self.year == other.year && self.month == other.month && self.day <= other.day
    }

    pub fn is_valid(&self) -> (r: bool)
        ensures
            r == self.wf(),
    {
        if self.year > MAX_YEAR || self.month < 1 || self.month > 12 || self.day < 1 {
            return false;
        }
        let leap = self.year % 4 == 0 && (self.year % 100 != 0 || self.year % 400 == 0);
        let days: u8 = if self.month == 2 {
            if leap {
                29
            } else {
                28
            }
        } else if self.month == 4 || self.month == 6 || self.month == 9 || self.month == 11 {
            30
        } else {
            31
        };
        self.day <= days
    }

    #[verifier::when_used_as_spec(spec_not_after)]
    pub fn not_after(&self, other: &CalendarDate) -> (r: bool)
        ensures
            r == self.spec_not_after(other),
    {
        self.year < other.year || (self.year == other.year && (self.month < other.month || (
        self.month == other.month && self.day <= other.day)))
    }

    pub fn to_text(&self) -> (r: String)
        requires
            self.wf(),
        ensures
            r@ == self.text(),
    {
        print_date(self.year, self.month, self.day)
    }
}

impl Timestamp {
    /// The instant lies in a year from 0 to 9999 and is no leap second.
    pub open spec fn wf(&self) -> bool {
        &&& MIN_TIMESTAMP_SECONDS <= self.seconds <= MAX_TIMESTAMP_SECONDS
        &&& self.nanoseconds < 1_000_000_000
    }

    /// The written form that enters a fingerprint.
    pub open spec fn text(&self) -> Seq<char> {
        rfc3339_text(self.seconds as int, self.nanoseconds as nat)
    }

    pub fn is_valid(&self) -> (r: bool)
        ensures
            r == self.wf(),
    {
        MIN_TIMESTAMP_SECONDS <= self.seconds && self.seconds <= MAX_TIMESTAMP_SECONDS
            && self.nanoseconds < 1_000_000_000
    }

    pub fn to_text(&self) -> (r: String)
        requires
            self.wf(),
        ensures
            r@ == self.text(),
    {
        print_timestamp(self.seconds, self.nanoseconds)
    }
}

/// `Decimal::from_i128_with_scale` and the `Display` of the decimal it makes.
/// The first panics above 28 places or 96 bits, which `requires` leaves out.
/// The second prints a minus sign for a negative decimal, then the digits of
/// the mantissa, padded with zeros to the scale, with `0` before the point
/// where no digit would stand there, and the point only where the scale is
/// not 0.
#[verifier::external_body]
fn print_decimal(mantissa: i128, scale: u32) -> (r: String)
    requires
        scale <= MAX_AMOUNT_SCALE,
        -MAX_AMOUNT_MANTISSA <= mantissa <= MAX_AMOUNT_MANTISSA,
    ensures
        r@ == decimal_text(mantissa as int, scale as nat),
{
    rust_decimal::Decimal::from_i128_with_scale(mantissa, scale).to_string()
}

/// `NaiveDate::from_ymd_opt` and the `Display` of the date it makes. The first
/// gives a date for every day that exists; for a year from 0 to 9999 the
/// second prints four digits, a hyphen, two digits, a hyphen and two digits.
#[verifier::external_body]
fn print_date(year: u16, month: u8, day: u8) -> (r: String)
    requires
        year <= MAX_YEAR,
        1 <= month <= 12,
        1 <= day <= days_in_month(year as int, month as int),
    ensures
        r@ == date_text(year as int, month as int, day as int),
{
    chrono::NaiveDate::from_ymd_opt(i32::from(year), u32::from(month), u32::from(day))
        .unwrap()
        .to_string()
}

/// `DateTime::from_timestamp` and `DateTime::to_rfc3339`. The first gives an
/// instant for every second of the years 0 to 9999 with less than a second of
/// nanoseconds; what the second prints depends on the instant alone.
#[verifier::external_body]
fn print_timestamp(seconds: i64, nanoseconds: u32) -> (r: String)
    requires
        MIN_TIMESTAMP_SECONDS <= seconds <= MAX_TIMESTAMP_SECONDS,
        nanoseconds < 1_000_000_000,
    ensures
        r@ == rfc3339_text(seconds as int, nanoseconds as nat),
{
    chrono::DateTime::from_timestamp(seconds, nanoseconds).unwrap().to_rfc3339()
}

} // verus!
