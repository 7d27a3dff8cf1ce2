//! UTC instants and the calendar computations the crate takes from `chrono`.
use chrono::Datelike;
use vstd::prelude::*;

verus! {

/// An instant in UTC: whole seconds since the Unix epoch and the nanoseconds past them.
#[derive(Debug, Clone, Copy, PartialEq, Eq, Structural)]
pub struct UtcInstant {
    pub secs: i64,
    pub nanos: u32,
}

/// Calendar date of a UTC instant given in whole seconds since the epoch:
/// (year, month, day of month, days since the preceding Monday).
pub uninterp spec fn utc_date_spec(secs: i64) -> Option<(i32, u32, u32, u32)>;

/// The instant parsed by `DateTime::parse_from_rfc3339`, converted to UTC.
pub uninterp spec fn rfc3339_spec(s: Seq<char>) -> Option<UtcInstant>;

/// The instant, read as UTC, parsed by `NaiveDateTime::parse_from_str(s, fmt)`.
pub uninterp spec fn naive_datetime_spec(s: Seq<char>, fmt: Seq<char>) -> Option<UtcInstant>;

/// Midnight UTC of the date parsed by `NaiveDate::parse_from_str(s, fmt)`, in seconds
/// since the epoch.
pub uninterp spec fn naive_date_spec(s: Seq<char>, fmt: Seq<char>) -> Option<i64>;

/// First second of chrono's calendar, -262143-01-01T00:00:00 UTC.
pub const CALENDAR_MIN: i64 = -8_334_601_228_800;

/// Last second of chrono's calendar, 262142-12-31T23:59:59 UTC. Every instant from
/// [`CALENDAR_MIN`] to here has a calendar date, and no other instant has one.
pub const CALENDAR_MAX: i64 = 8_210_266_876_799;

/// `std::time::SystemTime`, carried from the clock reading to its offset from the epoch.
#[verifier::external_type_specification]
#[verifier::external_body]
pub struct ExSystemTime(std::time::SystemTime);

/// `std::time::SystemTime::now()`. Nothing is stated of the value: it is the clock's.
#[verifier::external_body]
fn system_now() -> std::time::SystemTime {
    std::time::SystemTime::now()
}

/// `SystemTime::duration_since(UNIX_EPOCH)`: `Ok` with the time since the epoch, or, where
/// `t` is before the epoch, `Err` with the time before it (`SystemTimeError::duration`).
/// Nothing is stated of the durations: they depend on `t`, which is a clock reading.
#[verifier::external_body]
fn since_epoch(t: &std::time::SystemTime) -> Result<std::time::Duration, std::time::Duration> {
    match t.duration_since(std::time::UNIX_EPOCH) {
        Ok(d) => Ok(d),
        Err(e) => Err(e.duration()),
    }
}

/// `Duration::as_secs`: the whole seconds of a duration. Nothing is stated of the value
/// (the durations this crate holds are clock readings).
#[verifier::external_body]
fn whole_secs(d: &std::time::Duration) -> u64 {
    d.as_secs()
}

/// Whole seconds since the Unix epoch on the system clock (negative before the epoch,
/// rounded toward it). Every reading lies in chrono's calendar: one beyond it (where
/// chrono's own clock panics) is taken at the calendar's nearer end.
pub fn clock_secs() -> (r: i64)
    ensures
        CALENDAR_MIN <= r <= CALENDAR_MAX,
{
    let now = system_now();
    match since_epoch(&now) {
        Ok(d) => {
            let s = whole_secs(&d);
            if s > 8_210_266_876_799u64 {
                CALENDAR_MAX
            } else {
                s as i64
            }
        },
        Err(d) => {
            let s = whole_secs(&d);
            if s > 8_334_601_228_800u64 {
                CALENDAR_MIN
            } else {
                -(s as i64)
            }
        },
    }
}

/// Proleptic Gregorian (year, month, day) of the day `z` days after 1970-01-01.
pub open spec fn civil_from_days(z0: int) -> (int, int, int) {
    let z = z0 + 719_468;
    let era = z / 146_097;
    let doe = z - era * 146_097;
    let yoe = (doe - doe / 1460 + doe / 36_524 - doe / 146_096) / 365;
    let doy = doe - (365 * yoe + yoe / 4 - yoe / 100);
    let mp = (5 * doy + 2) / 153;
    let d = doy - (153 * mp + 2) / 5 + 1;
    let m = if mp < 10 {
        mp + 3
    } else {
        mp - 9
    };
    let y = yoe + era * 400;
    (if m <= 2 {
        y + 1
    } else {
        y
    }, m, d)
}

/// Days since the preceding Monday of the day `z` days after 1970-01-01 (a Thursday).
pub open spec fn weekday_from_days(z: int) -> int {
    (z + 3) % 7
}

/// Calendar fields of the instant `secs` via `chrono::DateTime::from_timestamp(secs, 0)` and
/// `Datelike::{year, month, day, weekday}`. `None` where `from_timestamp` finds `secs` out of
/// chrono's range, which holds every year from -262 143 to 262 142: every instant from
/// [`CALENDAR_MIN`] to [`CALENDAR_MAX`] has a date. The date is that of the proleptic
/// Gregorian calendar for the day `secs` falls in (`secs.div_euclid(86400)` days after
/// 1970-01-01, a Thursday): month in 1..=12, day in 1..=31, `num_days_from_monday` in 0..=6.
#[verifier::external_body]
pub fn utc_date(secs: i64) -> (r: Option<(i32, u32, u32, u32)>)
    ensures
        r == utc_date_spec(secs),
        r matches Some((y, m, d, w)) ==> 1 <= m <= 12 && 1 <= d <= 31 && w <= 6,
        r is Some <==> CALENDAR_MIN <= secs <= CALENDAR_MAX,
        r matches Some((y, m, d, w)) ==> civil_from_days(secs / 86400) == (y as int, m as int, d as int)
            && w == weekday_from_days(secs / 86400),
{
    chrono::DateTime::from_timestamp(secs, 0).map(
        |t| (t.year(), t.month(), t.day(), t.weekday().num_days_from_monday()),
    )
}

/// `chrono::DateTime::parse_from_rfc3339(s)`, converted with `with_timezone(&Utc)` and read
/// back as `timestamp()` and `timestamp_subsec_nanos()`; `None` on a parse error.
#[verifier::external_body]
pub fn parse_rfc3339(s: &str) -> (r: Option<UtcInstant>)
    ensures
        r == rfc3339_spec(s@),
{
    chrono::DateTime::parse_from_rfc3339(s).ok().map(
        |dt| {
            let u = dt.with_timezone(&chrono::Utc);
            UtcInstant { secs: u.timestamp(), nanos: u.timestamp_subsec_nanos() }
        },
    )
}

/// `chrono::NaiveDateTime::parse_from_str(s, fmt)` read as UTC with `and_utc()`; `None` on a
/// parse error.
#[verifier::external_body]
pub fn parse_naive_datetime(s: &str, fmt: &str) -> (r: Option<UtcInstant>)
    ensures
        r == naive_datetime_spec(s@, fmt@),
{
    chrono::NaiveDateTime::parse_from_str(s, fmt).ok().map(
        |dt| {
            let u = dt.and_utc();
            UtcInstant { secs: u.timestamp(), nanos: u.timestamp_subsec_nanos() }
        },
    )
}

/// `chrono::NaiveDate::parse_from_str(s, fmt)` at midnight UTC (`and_hms_opt(0, 0, 0)`,
/// `and_utc()`, `timestamp()`). The parse error is handed back unchanged.
#[verifier::external_body]
pub fn parse_naive_date(s: &str, fmt: &str) -> (r: Result<i64, chrono::format::ParseError>)
    ensures
        r is Ok <==> naive_date_spec(s@, fmt@) is Some,
        r matches Ok(v) ==> naive_date_spec(s@, fmt@) == Some(v),
{
    match chrono::NaiveDate::parse_from_str(s, fmt) {
        Ok(d) => Ok(d.and_time(chrono::NaiveTime::MIN).and_utc().timestamp()),
        Err(e) => Err(e),
    }
}

/// `chrono::format::ParseError`, carried through as the cause of a bad date.
#[verifier::external_type_specification]
#[verifier::external_body]
pub struct ExParseError(chrono::format::ParseError);

/// Whole days from `b` to `a` (`(a - b).num_days()`, rounded toward zero).
pub uninterp spec fn whole_days_between_spec(a: UtcInstant, b: UtcInstant) -> Option<i64>;

/// Rust's integer `/`: the quotient rounded toward zero.
pub open spec fn trunc_div(x: int, d: int) -> int {
    if x >= 0 {
        x / d
    } else {
        -((-x) / d)
    }
}

/// `(a - b).num_days()` where neither instant is a leap second: the difference in
/// nanoseconds, cut to whole seconds and then to whole days, each toward zero.
pub open spec fn whole_days_formula(a: UtcInstant, b: UtcInstant) -> int {
    trunc_div(
        trunc_div((a.secs - b.secs) * 1_000_000_000 + (a.nanos - b.nanos), 1_000_000_000),
        86400,
    )
}

/// An instant of chrono's calendar that is not a leap second.
pub open spec fn plain_instant(t: UtcInstant) -> bool {
    CALENDAR_MIN <= t.secs <= CALENDAR_MAX && t.nanos < 1_000_000_000
}

/// `(a - b).num_days()` on the `chrono::DateTime<Utc>` values of `a` and `b`
/// (`DateTime::from_timestamp`); `None` where either is outside chrono's range. For two
/// instants that are not leap seconds the subtraction is exact, so the result is the
/// difference cut toward zero to whole days; two instants of the calendar
/// ([`CALENDAR_MIN`] to [`CALENDAR_MAX`]) with nanoseconds below a second always have a
/// result. With a leap
/// second (nanoseconds of a second or more) chrono counts the leap second itself; that case
/// is left to the name `whole_days_between_spec`.
#[verifier::external_body]
pub fn whole_days_between(a: UtcInstant, b: UtcInstant) -> (r: Option<i64>)
    ensures
        r == whole_days_between_spec(a, b),
        a.nanos < 1_000_000_000 && b.nanos < 1_000_000_000 ==> (r matches Some(d) ==> d
            == whole_days_formula(a, b)),
        plain_instant(a) && plain_instant(b) ==> r is Some,
{
    let x = chrono::DateTime::from_timestamp(a.secs, a.nanos)?;
    let y = chrono::DateTime::from_timestamp(b.secs, b.nanos)?;
    Some((x - y).num_days())
}

} // verus!
