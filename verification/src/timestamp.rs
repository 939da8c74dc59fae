//! Instants as ISO 8601 text, and spans of time.

use vstd::prelude::*;
use vstd::string::*;

use crate::sampler;
use crate::text;

verus! {

/// The format of an event's timestamp.
pub const TIMESTAMP_FORMAT: &'static str = "%Y-%m-%dT%H:%M:%S%.6f+00:00";

/// The first second after the year 9999.
pub const YEAR_10000: i64 = 253_402_300_800;

// ---------------------------------------------------------------------------
// The calendar
// ---------------------------------------------------------------------------

/// The year has 366 days.
pub open spec fn is_leap(y: int) -> bool {
    y % 4 == 0 && (y % 100 != 0 || y % 400 == 0)
}

/// The days of a month.
pub open spec fn month_days(y: int, m: int) -> int {
    if m == 2 {
        if is_leap(y) {
            29
        } else {
            28
        }
    } else if m == 4 || m == 6 || m == 9 || m == 11 {
        30
    } else {
        31
    }
}

/// The days of a year before a month.
pub open spec fn days_before_month(y: int, m: int) -> int
    decreases m,
{
    if m <= 1 {
        0
    } else {
        days_before_month(y, m - 1) + month_days(y, m - 1)
    }
}

/// The days from the first day of the year 0 to that of the year `y`.
pub open spec fn days_before_year(y: int) -> int {
    365 * y + (y + 3) / 4 - (y + 99) / 100 + (y + 399) / 400
}

/// The days from the first day of 1970 to the given one.
pub open spec fn epoch_day(y: int, m: int, d: int) -> int {
    days_before_year(y) - days_before_year(1970) + days_before_month(y, m) + d - 1
}

/// The numbers name a day of the years 0 to 9999.
pub open spec fn is_date(y: int, m: int, d: int) -> bool {
    0 <= y <= 9999 && 1 <= m <= 12 && 1 <= d <= month_days(y, m)
}

/// `n` in decimal with at least `width` digits.
pub open spec fn padded(n: int, width: nat) -> Seq<char>
    decreases width,
{
    if width == 0 {
        Seq::empty()
    } else {
        padded(n / 10, (width - 1) as nat).push(text::digit_char((n % 10) as nat))
    }
}

/// The ISO 8601 text of an instant of the given day.
pub open spec fn instant_text(y: int, m: int, d: int, second: int, micros: int) -> Seq<char> {
    padded(y, 4) + seq!['-'] + padded(m, 2) + seq!['-'] + padded(d, 2) + seq!['T'] + padded(
        second / 3600,
        2,
    ) + seq![':'] + padded((second / 60) % 60, 2) + seq![':'] + padded(second % 60, 2) + seq!['.']
        + padded(micros, 6) + seq!['+', '0', '0', ':', '0', '0']
}

/// `s` is the ISO 8601 text of the instant `micros` microseconds after `secs`
/// seconds after the start of 1970.
pub open spec fn is_timestamp(s: Seq<char>, secs: int, micros: int) -> bool {
    exists|y: int, m: int, d: int| #[trigger]
        is_date(y, m, d) && epoch_day(y, m, d) == secs / 86400 && s == instant_text(
            y,
            m,
            d,
            secs % 86400,
            micros,
        )
}

// ---------------------------------------------------------------------------
// Formatting
// ---------------------------------------------------------------------------

/// What `chrono` prints of an instant; `None` where it has no such instant.
pub uninterp spec fn utc_text(secs: i64, nanos: u32, format: Seq<char>) -> Option<Seq<char>>;

/// Calls `chrono::DateTime::from_timestamp` and formats what it returns. For
/// the years 1970 to 9999 the text is that of [`is_timestamp`]; beyond them it
/// is left to the name.
#[verifier::external_body]
fn format_utc(secs: i64, nanos: u32, format: &str) -> (r: Option<String>)
    requires
        format@ == TIMESTAMP_FORMAT@,
    ensures
        text::text_of(r) == utc_text(secs, nanos, format@),
        0 <= secs < YEAR_10000 && nanos < 1_000_000_000 ==> r is Some,
        0 <= secs < YEAR_10000 && nanos < 1_000_000_000 ==> is_timestamp(
            text::text_of(r)->0,
            secs as int,
            nanos as int / 1000,
        ),
{
    chrono::DateTime::from_timestamp(secs, nanos).map(|t| t.format(format).to_string())
}

/// The text of an instant; what is out of range reads as the start of 1970.
pub open spec fn epoch_text(secs: i64, micros: u32) -> Seq<char> {
    match utc_text(secs, (micros * 1000) as u32, TIMESTAMP_FORMAT@) {
        Some(t) => t,
        None => utc_text(0, 0, TIMESTAMP_FORMAT@)->0,
    }
}

/// Formats seconds and microseconds since the start of 1970 as ISO 8601 UTC
/// with a literal `+00:00` suffix.
pub fn format_epoch(secs: i64, micros: u32) -> (r: String)
    requires
        micros * 1000 <= u32::MAX,
    ensures
        r@ == epoch_text(secs, micros),
        0 <= secs < YEAR_10000 && micros < 1_000_000 ==> is_timestamp(
            r@,
            secs as int,
            micros as int,
        ),
{
    match format_utc(secs, micros * 1000, TIMESTAMP_FORMAT) {
        Some(t) => t,
        None => format_utc(0, 0, TIMESTAMP_FORMAT).unwrap(),
    }
}

/// Formats microseconds since the start of 1970 as ISO 8601 UTC.
pub fn format_epoch_micros(epoch_micros: u64) -> (r: String)
    ensures
        r@ == epoch_text((epoch_micros / 1_000_000) as i64, (epoch_micros % 1_000_000) as u32),
        epoch_micros / 1_000_000 < YEAR_10000 ==> is_timestamp(
            r@,
            epoch_micros as int / 1_000_000,
            epoch_micros as int % 1_000_000,
        ),
{
    format_epoch((epoch_micros / 1_000_000) as i64, (epoch_micros % 1_000_000) as u32)
}

/// Milliseconds from `start` to `now`, both in microseconds; 0 where the clock
/// has gone back.
pub fn elapsed_ms(start_epoch_micros: u64, now_epoch_micros: u64) -> (r: u64)
    ensures
        r == if now_epoch_micros < start_epoch_micros {
            0
        } else {
            (now_epoch_micros - start_epoch_micros) / 1000
        },
{
    now_epoch_micros.saturating_sub(start_epoch_micros) / 1000
}

/// Seed for the coin's generator: the clock, mixed so that a clock at zero
/// still gives a seed.
pub fn sampler_seed(now_epoch_micros: u64) -> (r: u64)
    ensures
        r == now_epoch_micros ^ sampler::GAMMA,
{
    now_epoch_micros ^ sampler::GAMMA
}

// ---------------------------------------------------------------------------
// Laws
// ---------------------------------------------------------------------------

/// The calendar has no gap and no day twice: the day after the last of a month is
/// the first of the next, that after the last of a year the first of the next, and
/// the first day of 1970 is day 0.
pub proof fn law_days_follow_each_other(y: int, m: int, d: int)
    requires
        is_date(y, m, d),
    ensures
        epoch_day(1970, 1, 1) == 0,
        d < month_days(y, m) ==> epoch_day(y, m, d + 1) == epoch_day(y, m, d) + 1,
        d == month_days(y, m) && m < 12 ==> epoch_day(y, m + 1, 1) == epoch_day(y, m, d) + 1,
        d == month_days(y, m) && m == 12 ==> epoch_day(y + 1, 1, 1) == epoch_day(y, m, d) + 1,
{
    if m == 12 {
        reveal_with_fuel(days_before_month, 13);
        assert(days_before_month(y, 12) + 31 == if is_leap(y) {
            366int
        } else {
            365int
        });
        assert(days_before_year(y + 1) - days_before_year(y) == if is_leap(y) {
            366int
        } else {
            365int
        });
    }
}

} // verus!
