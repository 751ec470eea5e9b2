//! Dates as the messaging APIs, the saved file names and the command line
//! write them, read and written with chrono.
use vstd::prelude::*;

use chrono::{Datelike, Timelike};

use crate::text::{all_ascii_digits, decimal, is_ascii_digit, lemma_decimal_digits, zero_padded};

verus! {

/// A calendar date and time of day, as chrono's `NaiveDateTime` holds it.
#[derive(Clone, Copy, PartialEq, Eq, Structural, Debug)]
pub struct DateTimeParts {
    pub year: i32,
    pub month: u32,
    pub day: u32,
    pub hour: u32,
    pub minute: u32,
    pub second: u32,
    /// Nanoseconds; 1_000_000_000 and above mark a leap second (second 59).
    pub nanosecond: u32,
}

pub open spec fn is_leap_year(year: int) -> bool {
    (year % 4 == 0 && year % 100 != 0) || year % 400 == 0
}

pub open spec fn days_in_month(year: int, month: int) -> int {
    if month == 2 {
        if is_leap_year(year) { 29 } else { 28 }
    } else if month == 4 || month == 6 || month == 9 || month == 11 {
        30
    } else {
        31
    }
}

impl DateTimeParts {
    /// The values that chrono's `NaiveDate::from_ymd_opt` and
    /// `NaiveDate::and_hms_nano_opt` accept, which are those a `NaiveDateTime`
    /// holds: chrono's years run from -262143 to 262142 (its `MIN_YEAR` and
    /// `MAX_YEAR`), its months and days are those of the proleptic Gregorian
    /// calendar, and a nanosecond count of a second or more marks a leap second.
    pub open spec fn valid(self) -> bool {
        &&& -262143 <= self.year <= 262142
        &&& 1 <= self.month <= 12
        &&& 1 <= self.day <= days_in_month(self.year as int, self.month as int)
        &&& self.hour < 24
        &&& self.minute < 60
        &&& self.second < 60
        &&& self.nanosecond < 2_000_000_000
        &&& (self.nanosecond >= 1_000_000_000 ==> self.second == 59)
    }

    /// Whether `%Y` prints the year as four digits without a sign and `%S`
    /// prints the second as it is (no leap second).
    pub open spec fn plain(self) -> bool {
        0 <= self.year <= 9999 && self.nanosecond < 1_000_000_000
    }
}

/// The format of dates in the API (`2026-09-23T01:02:03Z`).
pub open spec fn api_format() -> Seq<char> {
    seq!['%', 'Y', '-', '%', 'm', '-', '%', 'd', 'T', '%', 'H', ':', '%', 'M', ':', '%', 'S', 'Z']
}

/// The format of dates in saved file names (`20260923010203`).
pub open spec fn compact_format() -> Seq<char> {
    seq!['%', 'Y', '%', 'm', '%', 'd', '%', 'H', '%', 'M', '%', 'S']
}

/// The format of the `--from` option (`2026/09/23 01:02:03`).
pub open spec fn cli_format() -> Seq<char> {
    seq!['%', 'Y', '/', '%', 'm', '/', '%', 'd', ' ', '%', 'H', ':', '%', 'M', ':', '%', 'S']
}

pub fn api_format_str() -> (r: &'static str)
    ensures
        r@ == api_format(),
{
    let r = "%Y-%m-%dT%H:%M:%SZ";
    proof {
        reveal_strlit("%Y-%m-%dT%H:%M:%SZ");
    }
    assert(r@ =~= api_format());
    r
}

pub fn compact_format_str() -> (r: &'static str)
    ensures
        r@ == compact_format(),
{
    let r = "%Y%m%d%H%M%S";
    proof {
        reveal_strlit("%Y%m%d%H%M%S");
    }
    assert(r@ =~= compact_format());
    r
}

pub fn cli_format_str() -> (r: &'static str)
    ensures
        r@ == cli_format(),
{
    let r = "%Y/%m/%d %H:%M:%S";
    proof {
        reveal_strlit("%Y/%m/%d %H:%M:%S");
    }
    assert(r@ =~= cli_format());
    r
}

/// A date and time in the compact format: `YYYYmmddHHMMSS`.
pub open spec fn compact_text(dt: DateTimeParts) -> Seq<char> {
    zero_padded(dt.year as nat, 4) + zero_padded(dt.month as nat, 2) + zero_padded(
        dt.day as nat,
        2,
    ) + zero_padded(dt.hour as nat, 2) + zero_padded(dt.minute as nat, 2) + zero_padded(
        dt.second as nat,
        2,
    )
}

/// A date and time in the API format: `YYYY-mm-ddTHH:MM:SSZ`.
pub open spec fn api_text(dt: DateTimeParts) -> Seq<char> {
    zero_padded(dt.year as nat, 4) + seq!['-'] + zero_padded(dt.month as nat, 2) + seq!['-']
        + zero_padded(dt.day as nat, 2) + seq!['T'] + zero_padded(dt.hour as nat, 2) + seq![':']
        + zero_padded(dt.minute as nat, 2) + seq![':'] + zero_padded(dt.second as nat, 2) + seq![
        'Z',
    ]
}

/// What chrono's `NaiveDateTime::parse_from_str` reads from a text in a
/// format: the date and time, or the text of its parse error.
pub uninterp spec fn chrono_parse(text: Seq<char>, format: Seq<char>) -> core::result::Result<
    DateTimeParts,
    Seq<char>,
>;

/// What chrono's `format(..).to_string()` writes for a date and time in a format.
pub uninterp spec fn chrono_format(dt: DateTimeParts, format: Seq<char>) -> Seq<char>;

/// Reads a date and time with chrono's `NaiveDateTime::parse_from_str`.
/// The result is named by `chrono_parse`; what a parsed value holds is always
/// a valid date and time. For the three formats of this library, which have
/// no fraction of a second, the nanoseconds are 0, or 1_000_000_000 where a
/// leap second (second 60) was read; and a text that chrono's own `%Y%m%d..`
/// writing gives for a date with whole seconds and a year from 0 to 9999
/// (`compact_text`, `api_text`) reads back as that date, as chrono's parser
/// reads an unsigned `%Y` as at most four digits and the other fields as at
/// most two. Which other texts chrono accepts is not stated.
#[verifier::external_body]
pub fn parse_datetime(text: &str, format: &str) -> (r: core::result::Result<DateTimeParts, String>)
    ensures
        match r {
            Ok(dt) => chrono_parse(text@, format@) == Ok::<DateTimeParts, Seq<char>>(dt),
            Err(e) => chrono_parse(text@, format@) == Err::<DateTimeParts, Seq<char>>(e@),
        },
        r matches Ok(dt) ==> dt.valid(),
        r matches Ok(dt) ==> ((format@ == api_format() || format@ == compact_format() || format@
            == cli_format()) ==> (dt.nanosecond == 0 || dt.nanosecond == 1_000_000_000)),
        forall|d: DateTimeParts|
            d.valid() && d.plain() && d.nanosecond == 0 && format@ == compact_format() && #[trigger] compact_text(d)
                == text@ ==> r is Ok && r->Ok_0 == d,
        forall|d: DateTimeParts|
            d.valid() && d.plain() && d.nanosecond == 0 && format@ == api_format() && #[trigger] api_text(d)
                == text@ ==> r is Ok && r->Ok_0 == d,
{
    match chrono::NaiveDateTime::parse_from_str(text, format) {
        Ok(t) => Ok(DateTimeParts {
            year: t.year(),
            month: t.month(),
            day: t.day(),
            hour: t.hour(),
            minute: t.minute(),
            second: t.second(),
            nanosecond: t.nanosecond(),
        }),
        Err(e) => Err(e.to_string()),
    }
}

/// Writes a date and time with chrono's `format(..).to_string()`, in the API
/// or in the compact format. As chrono documents `%Y`, `%m`, `%d`, `%H`, `%M`
/// and `%S`: a year from 0 to 9999 takes four digits, the other fields two,
/// zero-padded; the second is written as 60 for a leap second. Outside that
/// range the result is only named by `chrono_format`.
#[verifier::external_body]
pub fn format_datetime(dt: &DateTimeParts, format: &str) -> (r: String)
    requires
        dt.valid(),
        format@ == api_format() || format@ == compact_format(),
    ensures
        r@ == chrono_format(*dt, format@),
        dt.plain() && format@ == compact_format() ==> r@ == compact_text(*dt),
        dt.plain() && format@ == api_format() ==> r@ == api_text(*dt),
{
    chrono::NaiveDate::from_ymd_opt(dt.year, dt.month, dt.day)
        .and_then(|d| d.and_hms_nano_opt(dt.hour, dt.minute, dt.second, dt.nanosecond))
        .expect("a valid date and time")
        .format(format)
        .to_string()
}

/// A saved file's compact date (`20260923010203`) written in the API format
/// (`2026-09-23T01:02:03Z`), or the text of the error that reading it gave.
pub fn compact_to_api(compact: &str) -> (r: core::result::Result<String, String>)
    ensures
        match chrono_parse(compact@, compact_format()) {
            Ok(dt) => r is Ok && r->Ok_0@ == chrono_format(dt, api_format()),
            Err(e) => r is Err && r->Err_0@ == e,
        },
        forall|d: DateTimeParts|
            d.valid() && d.plain() && d.nanosecond == 0 && #[trigger] compact_text(d) == compact@ ==> r is Ok
                && r->Ok_0@ == api_text(d),
{
    match parse_datetime(compact, compact_format_str()) {
        Ok(dt) => Ok(format_datetime(&dt, api_format_str())),
        Err(e) => Err(e),
    }
}

/// A date and time in the API format.
pub fn to_api_text(dt: &DateTimeParts) -> (r: String)
    requires
        dt.valid(),
    ensures
        r@ == chrono_format(*dt, api_format()),
        dt.plain() ==> r@ == api_text(*dt),
{
    format_datetime(dt, api_format_str())
}

/// Reads the `--from` option (`%Y/%m/%d %H:%M:%S`).
pub fn parse_cli_date(text: &str) -> (r: core::result::Result<DateTimeParts, String>)
    ensures
        match r {
            Ok(dt) => chrono_parse(text@, cli_format()) == Ok::<DateTimeParts, Seq<char>>(dt)
                && dt.valid(),
            Err(e) => chrono_parse(text@, cli_format()) == Err::<DateTimeParts, Seq<char>>(e@),
        },
{
    parse_datetime(text, cli_format_str())
}

/// A compact date is made of ASCII digits only.
pub proof fn lemma_compact_text_digits(dt: DateTimeParts)
    requires
        dt.plain(),
        dt.valid(),
    ensures
        all_ascii_digits(compact_text(dt)),
        compact_text(dt).len() == 14,
{
    lemma_padded_digits(dt.year as nat, 4);
    lemma_padded_digits(dt.month as nat, 2);
    lemma_padded_digits(dt.day as nat, 2);
    lemma_padded_digits(dt.hour as nat, 2);
    lemma_padded_digits(dt.minute as nat, 2);
    lemma_padded_digits(dt.second as nat, 2);
    lemma_decimal_len_bound(dt.year as nat, 4, 10000);
    lemma_decimal_len_bound(dt.month as nat, 2, 100);
    lemma_decimal_len_bound(dt.day as nat, 2, 100);
    lemma_decimal_len_bound(dt.hour as nat, 2, 100);
    lemma_decimal_len_bound(dt.minute as nat, 2, 100);
    lemma_decimal_len_bound(dt.second as nat, 2, 100);
    let a = zero_padded(dt.year as nat, 4);
    let b = zero_padded(dt.month as nat, 2);
    let c = zero_padded(dt.day as nat, 2);
    let d = zero_padded(dt.hour as nat, 2);
    let e = zero_padded(dt.minute as nat, 2);
    let f = zero_padded(dt.second as nat, 2);
    let s = compact_text(dt);
    assert forall|i: int| 0 <= i < s.len() implies is_ascii_digit(#[trigger] s[i]) by {
        if i < 4 {
            assert(s[i] == a[i]);
        } else if i < 6 {
            assert(s[i] == b[i - 4]);
        } else if i < 8 {
            assert(s[i] == c[i - 6]);
        } else if i < 10 {
            assert(s[i] == d[i - 8]);
        } else if i < 12 {
            assert(s[i] == e[i - 10]);
        } else {
            assert(s[i] == f[i - 12]);
        }
    }
}

proof fn lemma_padded_digits(n: nat, width: nat)
    ensures
        all_ascii_digits(zero_padded(n, width)),
        zero_padded(n, width).len() >= width,
{
    lemma_decimal_digits(n);
    let d = decimal(n);
    let p = zero_padded(n, width);
    if d.len() < width {
        let fills = Seq::new((width - d.len()) as nat, |i: int| '0');
        assert(p == fills + d);
        assert forall|i: int| 0 <= i < p.len() implies is_ascii_digit(#[trigger] p[i]) by {
            if i < fills.len() {
                assert(p[i] == '0');
            } else {
                assert(p[i] == d[i - fills.len()]);
            }
        }
    }
}

pub open spec fn pow10(k: nat) -> nat
    decreases k,
{
    if k == 0 { 1 } else { 10 * pow10((k - 1) as nat) }
}

/// Below 10^k, a number takes at most k digits.
proof fn lemma_decimal_len(n: nat, k: nat)
    requires
        k >= 1,
        n < pow10(k),
    ensures
        decimal(n).len() <= k,
    decreases k,
{
    if n >= 10 {
        assert(k >= 2) by {
            if k == 1 {
                assert(pow10(1) == 10 * pow10(0));
            }
        }
        assert(pow10(k) == 10 * pow10((k - 1) as nat));
        lemma_decimal_len(n / 10, (k - 1) as nat);
    }
}

proof fn lemma_decimal_len_bound(n: nat, width: nat, bound: nat)
    requires
        (width == 4 && bound == 10000) || (width == 2 && bound == 100),
        n < bound,
    ensures
        decimal(n).len() <= width,
        zero_padded(n, width).len() == width,
{
    assert(pow10(2) == 100) by {
        assert(pow10(0) == 1);
        assert(pow10(1) == 10);
    }
    assert(pow10(4) == 10000) by {
        assert(pow10(3) == 1000) by {
            assert(pow10(2) == 100) by {
                assert(pow10(0) == 1);
                assert(pow10(1) == 10);
            }
        }
    }
    lemma_decimal_len(n, width);
}

} // verus!
