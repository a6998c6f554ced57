//! Civil date-time from a count of seconds since 1970-01-01, and the
//! 16-bit DOS date and time encodings used by archive headers.
//!
//! The DOS encoding packs the time as `seconds/2 | minutes << 4 |
//! hours << 11` and the date as `day | month << 5 | (year - 1980) << 9`,
//! so it can represent years 1980 through 2107 only; timestamps outside
//! that window are reported as unrepresentable rather than wrapped.
use vstd::prelude::*;

verus! {

/// Seconds from 1970-01-01 to 2108-01-01: timestamps at or past this
/// can never land in the DOS-representable year window.
pub const DOS_SECS_LIMIT: u64 = 4354819200;

/// A civil date and time, split into its six components.
pub ghost struct CivilDateTime {
    pub y: int,
    pub mo: int,
    pub d: int,
    pub h: int,
    pub mi: int,
    pub s: int,
}

pub open spec fn is_leap_year(y: int) -> bool {
    y % 4 == 0 && (y % 100 != 0 || y % 400 == 0)
}

pub open spec fn days_in_year(y: int) -> int {
    if is_leap_year(y) {
        366
    } else {
        365
    }
}

pub open spec fn days_in_month(y: int, m: int) -> int {
    if m == 2 {
        if is_leap_year(y) {
            29
        } else {
            28
        }
    } else if m == 4 || m == 6 || m == 9 || m == 11 {
        30
    } else {
        31
    }
}

/// Walks whole years forward from `y0` until fewer than a year of
/// days remains; returns the year reached and the day within it.
pub open spec fn year_of_days(y0: int, days: nat) -> (int, nat)
    decreases days,
{
    if days < days_in_year(y0) {
        (y0, days)
    } else {
        year_of_days(y0 + 1, (days - days_in_year(y0)) as nat)
    }
}

/// Walks months forward from `m` within year `y` until fewer than a
/// month of days remains; returns the month reached and the day
/// within it, counted from zero.
pub open spec fn month_of_doy(y: int, m: int, doy: nat) -> (int, nat)
    decreases 12 - m,
{
    if m >= 12 || doy < days_in_month(y, m) {
        (m, doy)
    } else {
        month_of_doy(y, m + 1, (doy - days_in_month(y, m)) as nat)
    }
}

/// The civil date and time of a count of seconds since 1970-01-01.
pub open spec fn datetime_of(secs: u64) -> CivilDateTime {
    let days = (secs as int) / 86400;
    let rem = (secs as int) % 86400;
    let yd = year_of_days(1970, days as nat);
    let md = month_of_doy(yd.0, 1, yd.1);
    CivilDateTime {
        y: yd.0,
        mo: md.0,
        d: md.1 + 1 as int,
        h: rem / 3600,
        mi: (rem % 3600) / 60,
        s: rem % 60,
    }
}

/// Whether the timestamp lands in the window the DOS encoding can
/// hold: years 1980 through 2107, with every component in its
/// calendar range.
pub open spec fn dos_ok(secs: u64) -> bool {
    let dt = datetime_of(secs);
    &&& secs < DOS_SECS_LIMIT
    &&& 1980 <= dt.y <= 2107
    &&& 1 <= dt.mo <= 12
    &&& 1 <= dt.d <= 31
    &&& 0 <= dt.h <= 23
    &&& 0 <= dt.mi <= 59
    &&& 0 <= dt.s <= 59
}

/// The packed 16-bit DOS time of a representable timestamp.
pub open spec fn dos_time_of(secs: u64) -> u16 {
    let dt = datetime_of(secs);
    (dt.s / 2 + dt.mi * 16 + dt.h * 2048) as u16
}

/// The packed 16-bit DOS date of a representable timestamp.
pub open spec fn dos_date_of(secs: u64) -> u16 {
    let dt = datetime_of(secs);
    (dt.d + dt.mo * 32 + (dt.y - 1980) * 512) as u16
}

/// Whether `y` is a leap year in the Gregorian calendar.
fn leap_year(y: u64) -> (r: bool)
    ensures
        r == is_leap_year(y as int),
{
    y % 4 == 0 && (y % 100 != 0 || y % 400 == 0)
}

/// The civil date and time of `secs`, computed by walking years and
/// months forward from 1970.
fn civil_datetime(secs: u64) -> (r: (u64, u64, u64, u64, u64, u64))
    requires
        secs < DOS_SECS_LIMIT,
    ensures
        ({
            let dt = datetime_of(secs);
            r.0 == dt.y && r.1 == dt.mo && r.2 == dt.d && r.3 == dt.h && r.4 == dt.mi && r.5
                == dt.s
        }),
{
    let days0 = secs / 86400;
    let rem = secs % 86400;
    let mut y: u64 = 1970;
    let mut days = days0;
    let mut diy: u64 = if leap_year(y) {
        366
    } else {
        365
    };
    while days >= diy
        invariant
            1970 <= y <= 1970 + (days0 - days),
            days <= days0 < 50404,
            diy == days_in_year(y as int),
            year_of_days(1970, days0 as nat) == year_of_days(y as int, days as nat),
        decreases days,
    {
        days = days - diy;
        y = y + 1;
        diy = if leap_year(y) {
            366
        } else {
            365
        };
    }
    let doy0 = days;
    let mut m: u64 = 1;
    let mut doy = doy0;
    let mut dim = days_in_month_x(y, 1);
    while m < 12 && doy >= dim
        invariant
            1 <= m <= 12,
            doy <= doy0,
            dim == days_in_month(y as int, m as int),
            month_of_doy(y as int, 1, doy0 as nat) == month_of_doy(y as int, m as int, doy as nat),
        decreases 12 - m,
    {
        doy = doy - dim;
        m = m + 1;
        dim = days_in_month_x(y, m);
    }
    proof {
        assert(year_of_days(y as int, days as nat) == (y as int, days as nat));
        assert(month_of_doy(y as int, m as int, doy as nat) == (m as int, doy as nat));
    }
    (y, m, doy + 1, rem / 3600, (rem % 3600) / 60, rem % 60)
}

/// The length of month `m` of year `y` in days.
fn days_in_month_x(y: u64, m: u64) -> (r: u64)
    ensures
        r == days_in_month(y as int, m as int),
{
    if m == 2 {
        if leap_year(y) {
            29
        } else {
            28
        }
    } else if m == 4 || m == 6 || m == 9 || m == 11 {
        30
    } else {
        31
    }
}

/// The packed DOS time and date of `secs`, or nothing when the
/// timestamp falls outside the representable window.
pub fn dos_datetime(secs: u64) -> (r: Option<(u16, u16)>)
    ensures
        r is Some <==> dos_ok(secs),
        r matches Some(td) ==> td.0 == dos_time_of(secs) && td.1 == dos_date_of(secs),
{
    if secs >= DOS_SECS_LIMIT {
        return None;
    }
    let (y, mo, d, h, mi, s) = civil_datetime(secs);
    if y < 1980 || y > 2107 || mo < 1 || mo > 12 || d < 1 || d > 31 || h > 23 || mi > 59 || s > 59 {
        return None;
    }
    let time: u64 = s / 2 + mi * 16 + h * 2048;
    let date: u64 = d + mo * 32 + (y - 1980) * 512;
    Some((time as u16, date as u16))
}

} // verus!
