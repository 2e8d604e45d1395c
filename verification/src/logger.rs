//! Calendar dates for log file names, and the naming of rotated log files.
use vstd::prelude::*;
use crate::text::{padded_decimal, push_padded_decimal, string_push, push_str};
use std::time::{SystemTime, UNIX_EPOCH};

verus! {

/// The number of days from 0000-03-01 to the date `y`-`m`-`d` of the proleptic
/// Gregorian calendar (years of 400 years with 146097 days, March-based years).
pub open spec fn days_from_civil(y: int, m: int, d: int) -> int {
    let yy = if m <= 2 {
        y - 1
    } else {
        y
    };
    let era = yy / 400;
    let yoe = yy - era * 400;
    let mp = if m > 2 {
        m - 3
    } else {
        m + 9
    };
    let doy = (153 * mp + 2) / 5 + d - 1;
    let doe = yoe * 365 + yoe / 4 - yoe / 100 + doy;
    era * 146097 + doe
}

/// A Gregorian leap year.
pub open spec fn is_leap(y: int) -> bool {
    (y % 4 == 0 && y % 100 != 0) || y % 400 == 0
}

/// The number of days of month `m` of year `y`.
pub open spec fn month_length(y: int, m: int) -> int {
    if m == 2 {
        if is_leap(y) {
            29
        } else {
            28
        }
    } else if m == 4 || m == 6 || m == 9 || m == 11 {
        30
    } else {
        31
    }
}

/// Facts about one 400-year era of the March-based calendar: a day of the era
/// (`doe`) falls in year `yoe` of the era, on day `doy` of that year.
proof fn lemma_year_of_era(doe: u32)
    requires
        doe <= 146096,
    ensures
        ({
            let yoe = (doe - doe / 1460 + doe / 36524 - doe / 146096) / 365;
            &&& yoe <= 399
            &&& 365 * yoe + yoe / 4 - yoe / 100 <= doe
            &&& doe - (365 * yoe + yoe / 4 - yoe / 100) <= 365
        }),
{
    assert(doe <= 146096u32 ==> ((doe - doe / 1460 + doe / 36524 - doe / 146096) / 365 <= 399u32 && 365u32
        * ((doe - doe / 1460 + doe / 36524 - doe / 146096) / 365) + ((doe - doe / 1460 + doe / 36524
        - doe / 146096) / 365) / 4 - ((doe - doe / 1460 + doe / 36524 - doe / 146096) / 365) / 100
        <= doe && doe - (365u32 * ((doe - doe / 1460 + doe / 36524 - doe / 146096) / 365) + ((doe
        - doe / 1460 + doe / 36524 - doe / 146096) / 365) / 4 - ((doe - doe / 1460 + doe / 36524
        - doe / 146096) / 365) / 100) <= 365u32)) by (bit_vector);
}

/// Facts about the month of a day of a March-based year: `doy` falls in month `mp`
/// (0 for March) on day `d`.
proof fn lemma_month_of_year(doy: u32)
    requires
        doy <= 365,
    ensures
        ({
            let mp = (5 * doy + 2) / 153;
            &&& mp <= 11
            &&& (153 * mp + 2) / 5 <= doy
            &&& doy - (153 * mp + 2) / 5 + 1 <= 31
            &&& (mp == 1 || mp == 3 || mp == 6 || mp == 8) ==> doy - (153 * mp + 2) / 5 + 1 <= 30
            &&& mp == 11 ==> doy - (153 * mp + 2) / 5 + 1 <= 29
            &&& mp == 11 && doy - (153 * mp + 2) / 5 + 1 == 29 ==> doy == 365
        }),
{
    assert(doy <= 365u32 ==> ((5u32 * doy + 2) / 153 <= 11u32 && (153u32 * ((5u32 * doy + 2) / 153) + 2)
        / 5 <= doy && doy - (153u32 * ((5u32 * doy + 2) / 153) + 2) / 5 + 1 <= 31u32)) by (bit_vector);
    assert(doy <= 365u32 ==> (((5u32 * doy + 2) / 153 == 1u32 || (5u32 * doy + 2) / 153 == 3u32 || (5u32
        * doy + 2) / 153 == 6u32 || (5u32 * doy + 2) / 153 == 8u32) ==> doy - (153u32 * ((5u32 * doy
        + 2) / 153) + 2) / 5 + 1 <= 30u32)) by (bit_vector);
    assert(doy <= 365u32 ==> ((5u32 * doy + 2) / 153 == 11u32 ==> doy - (153u32 * ((5u32 * doy + 2)
        / 153) + 2) / 5 + 1 <= 29u32)) by (bit_vector);
    assert(doy <= 365u32 ==> (((5u32 * doy + 2) / 153 == 11u32 && doy - (153u32 * ((5u32 * doy + 2)
        / 153) + 2) / 5 + 1 == 29u32) ==> doy == 365u32)) by (bit_vector);
}

/// The last day of a 400-year era's year is day 365 only in leap years: when year
/// `yoe` of the era (which begins in March) ends with February 29, the calendar year
/// `yoe + 1` is a leap year.
proof fn lemma_leap_day(doe: u32)
    requires
        doe <= 146096,
    ensures
        ({
            let yoe = (doe - doe / 1460 + doe / 36524 - doe / 146096) / 365;
            doe - (365 * yoe + yoe / 4 - yoe / 100) == 365 ==> (yoe + 1) % 4 == 0 && ((yoe + 1) % 100
                != 0 || yoe == 399)
        }),
{
    assert(doe <= 146096u32 ==> (doe - (365u32 * ((doe - doe / 1460 + doe / 36524 - doe / 146096) / 365)
        + ((doe - doe / 1460 + doe / 36524 - doe / 146096) / 365) / 4 - ((doe - doe / 1460 + doe
        / 36524 - doe / 146096) / 365) / 100) == 365u32 ==> (((doe - doe / 1460 + doe / 36524 - doe
        / 146096) / 365 + 1) % 4 == 0u32 && (((doe - doe / 1460 + doe / 36524 - doe / 146096) / 365
        + 1) % 100 != 0u32 || (doe - doe / 1460 + doe / 36524 - doe / 146096) / 365 == 399u32))))
        by (bit_vector);
}

/// Adding whole eras does not change whether a year is a leap year.
proof fn lemma_leap_shift(era: int, k: int)
    requires
        k % 4 == 0,
        k % 100 != 0 || k % 400 == 0,
    ensures
        is_leap(era * 400 + k),
{
    assert((era * 400 + k) % 4 == k % 4) by (nonlinear_arith);
    assert((era * 400 + k) % 100 == k % 100) by (nonlinear_arith);
    assert((era * 400 + k) % 400 == k % 400) by (nonlinear_arith);
}

/// The era of a day number is the floor of its quotient by the days of an era.
proof fn lemma_era(z: int, era: int)
    requires
        era * 146097 <= z < era * 146097 + 146097,
    ensures
        z / 146097 == era,
        0 <= z - era * 146097 <= 146096,
{
    assert(z / 146097 == era) by (nonlinear_arith)
        requires
            era * 146097 <= z < era * 146097 + 146097,
    ;
}

/// Dividing the year `era * 400 + yoe` of an era by 400 gives back the era.
proof fn lemma_year_era(era: int, yoe: int)
    requires
        0 <= yoe <= 399,
    ensures
        (era * 400 + yoe) / 400 == era,
{
    assert((era * 400 + yoe) / 400 == era) by (nonlinear_arith)
        requires
            0 <= yoe <= 399,
    ;
}

/// The date `days` days after 0000-03-01, as (year, month, day).
pub fn civil_from_days(days: i64) -> (r: (i64, u32, u32))
    requires
        days >= i64::MIN + 146096,
    ensures
        1 <= r.1 <= 12,
        1 <= r.2 <= month_length(r.0 as int, r.1 as int),
        days >= 0 ==> r.0 >= 0,
        days_from_civil(r.0 as int, r.1 as int, r.2 as int) == days,
{
    let z = days;
    // The floor of `z / 146097`.
    let era: i64 = if z >= 0 {
        z / 146097
    } else {
        -(((-z) - 1) / 146097) - 1
    };
    proof {
        if z >= 0 {
            assert(era * 146097 <= z < era * 146097 + 146097) by (nonlinear_arith)
                requires
                    z >= 0,
                    era == z / 146097,
            ;
        } else {
            let q = ((-z) - 1) / 146097;
            assert(era * 146097 <= z < era * 146097 + 146097) by (nonlinear_arith)
                requires
                    z < 0,
                    q == ((-z) - 1) / 146097,
                    era == -q - 1,
            ;
        }
        lemma_era(z as int, era as int);
    }
    let doe = (z - era * 146097) as u32;
    proof {
        lemma_year_of_era(doe);
        lemma_leap_day(doe);
    }
    let yoe = (doe - doe / 1460 + doe / 36524 - doe / 146096) / 365;
    let y = yoe as i64 + era * 400;
    let doy = doe - (365 * yoe + yoe / 4 - yoe / 100);
    proof {
        lemma_month_of_year(doy);
    }
    let mp = (5 * doy + 2) / 153;
    let d = doy - (153 * mp + 2) / 5 + 1;
    let m = if mp < 10 {
        mp + 3
    } else {
        mp - 9
    };
    let y2 = if m <= 2 {
        y + 1
    } else {
        y
    };
    proof {
        lemma_year_era(era as int, yoe as int);
        let yy = if m <= 2 {
            y2 - 1
        } else {
            y2 as int
        };
        assert(yy == era * 400 + yoe);
        let mp2 = if m > 2 {
            m - 3
        } else {
            m + 9
        };
        assert(mp2 == mp);
        if mp == 11 && d == 29 {
            lemma_leap_shift(era as int, yoe + 1);
            assert(y2 == era * 400 + (yoe + 1));
        }
    }
    (y2, m, d)
}


/// The largest size of one log file, in bytes (10 MB).
pub const MAX_LOG_SIZE: u64 = 10 * 1024 * 1024;

/// `SystemTime::now().duration_since(UNIX_EPOCH)` in whole seconds; `None` when the
/// clock is set before 1970. The clock is read, so nothing about the value is stated.
#[verifier::external_body]
pub(crate) fn unix_seconds_now() -> Option<u64> {
    match SystemTime::now().duration_since(UNIX_EPOCH) {
        Ok(d) => Some(d.as_secs()),
        Err(_) => None,
    }
}

/// `YYYY-MM-DD` for a date, each part zero-padded.
pub open spec fn date_text(y: nat, m: nat, d: nat) -> Seq<char> {
    padded_decimal(y, 4) + seq!['-'] + padded_decimal(m, 2) + seq!['-'] + padded_decimal(d, 2)
}

/// A valid date of the proleptic Gregorian calendar.
pub open spec fn valid_date(y: int, m: int, d: int) -> bool {
    1 <= m <= 12 && 1 <= d <= month_length(y, m)
}

/// The UTC date of the moment `secs` seconds after 1970-01-01T00:00:00Z, as `YYYY-MM-DD`.
pub fn date_string(secs: u64) -> (r: String)
    ensures
        is_date_string(r@, secs),
{
    let days = secs / 86400;
    let (y, m, d) = civil_from_days(days as i64 + 719468);
    let mut s = String::new();
    push_padded_decimal(&mut s, y as u64, 4);
    string_push(&mut s, '-');
    push_padded_decimal(&mut s, m as u64, 2);
    string_push(&mut s, '-');
    push_padded_decimal(&mut s, d as u64, 2);
    proof {
        assert(s@ =~= date_text(y as nat, m as nat, d as nat));
    }
    s
}

/// A clock reading in seconds; zero for a clock set before the epoch.
fn seconds_or_zero(t: Option<u64>) -> (s: u64)
    ensures
        s == (match t {
            Some(n) => n,
            None => 0,
        }),
{
    match t {
        Some(n) => n,
        None => 0,
    }
}

/// The UTC date, as `YYYY-MM-DD`, of a reading of the system clock in whole seconds
/// since the epoch; a clock set before the epoch (`None`) counts as the epoch itself.
pub fn date_of_clock(reading: Option<u64>) -> (r: String)
    ensures
        is_date_string(
            r@,
            match reading {
                Some(n) => n,
                None => 0,
            },
        ),
        forall|n: u64| reading == Some(n) ==> #[trigger] is_date_string(r@, n),
{
    let secs = seconds_or_zero(reading);
    let r = date_string(secs);
    proof {
        assert(is_date_string(r@, secs));
    }
    r
}

/// Today's UTC date as `YYYY-MM-DD`: the date of the system clock's reading.
pub fn today_str() -> (r: String)
    ensures
        exists|secs: u64| is_date_string(r@, secs),
{
    let r = date_of_clock(unix_seconds_now());
    r
}

/// `s` is `YYYY-MM-DD` for the UTC date of the moment `secs` seconds after the epoch.
pub open spec fn is_date_string(s: Seq<char>, secs: u64) -> bool {
    exists|y: nat, m: nat, d: nat|
        valid_date(y as int, m as int, d as int) && days_from_civil(y as int, m as int, d as int) == (secs
            / 86400) + 719468 && s == date_text(y, m, d)
}

/// The name of a log file: `bettercpt_DATE.log` for the first file of a day,
/// `bettercpt_DATE.SEQ.log` for the ones after it.
pub open spec fn log_file_name(date: Seq<char>, seq: u32) -> Seq<char> {
    if seq == 0 {
        "bettercpt_"@ + date + ".log"@
    } else {
        "bettercpt_"@ + date + seq!['.'] + crate::text::decimal(seq as nat) + ".log"@
    }
}

/// Which log file is written: the day it belongs to, its number within that day, and
/// how many bytes it holds.
pub struct LogRotation {
    pub current_date: String,
    pub current_seq: u32,
    pub current_size: u64,
}

impl LogRotation {
    /// No file opened yet.
    pub fn new() -> (r: Self)
        ensures
            r.current_date@ == Seq::<char>::empty(),
            r.current_seq == 0,
            r.current_size == 0,
    {
        LogRotation { current_date: String::new(), current_seq: 0, current_size: 0 }
    }

    /// Whether the next write must go to a new file: when none is open or the current
    /// one has reached `MAX_LOG_SIZE`.
    pub fn needs_rotation(&self, has_file: bool) -> (b: bool)
        ensures
            b == (!has_file || self.current_size >= MAX_LOG_SIZE),
    {
        !has_file || self.current_size >= MAX_LOG_SIZE
    }

    /// Moves to the next file on `today`: the first of the day when the date changed,
    /// the next number of the same day otherwise. Returns the new file's name.
    pub fn rotate(&mut self, today: &str) -> (name: String)
        requires
            old(self).current_date@ == today@ ==> old(self).current_seq < u32::MAX,
        ensures
            final(self).current_date@ == today@,
            final(self).current_seq == (if old(self).current_date@ == today@ {
                (old(self).current_seq + 1) as u32
            } else {
                0
            }),
            final(self).current_size == 0,
            name@ == log_file_name(today@, final(self).current_seq),
    {
        if crate::text::str_eq(self.current_date.as_str(), today) {
            self.current_seq = self.current_seq + 1;
        } else {
            self.current_date = today.to_owned();
            self.current_seq = 0;
        }
        self.current_size = 0;
        let mut name = String::new();
        push_str(&mut name, "bettercpt_");
        push_str(&mut name, today);
        if self.current_seq != 0 {
            string_push(&mut name, '.');
            crate::text::push_decimal(&mut name, self.current_seq as u64);
        }
        push_str(&mut name, ".log");
        proof {
            assert(name@ =~= log_file_name(today@, self.current_seq));
        }
        name
    }

    /// Counts `n` more bytes written to the current file.
    pub fn record_written(&mut self, n: u64)
        requires
            old(self).current_size + n <= u64::MAX,
        ensures
            final(self).current_size == old(self).current_size + n,
            final(self).current_date == old(self).current_date,
            final(self).current_seq == old(self).current_seq,
    {
        self.current_size = self.current_size + n;
    }
}
} // verus!
