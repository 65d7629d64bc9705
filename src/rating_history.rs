use chrono::NaiveDate;
use vstd::prelude::*;

verus! {

/// The earliest year that a calendar date may have.
pub const MIN_YEAR: i32 = -262143;

/// The latest year that a calendar date may have.
pub const MAX_YEAR: i32 = 262142;

/// The number of rating series in a rating history, one per variant.
pub const SERIES_COUNT: usize = 15;

/// Leap years of the proleptic Gregorian calendar.
pub open spec fn is_leap_year(year: int) -> bool {
    year % 4 == 0 && (year % 100 != 0 || year % 400 == 0)
}

pub open spec fn days_in_month(year: int, month: int) -> int {
    if month == 2 {
        if is_leap_year(year) {
            29
        } else {
            28
        }
    } else if month == 4 || month == 6 || month == 9 || month == 11 {
        30
    } else {
        31
    }
}

/// `year`-`month`-`day` names a day of the proleptic Gregorian calendar within
/// the supported years.
pub open spec fn is_calendar_date(year: int, month: int, day: int) -> bool {
    &&& MIN_YEAR <= year <= MAX_YEAR
    &&& 1 <= month <= 12
    &&& 1 <= day <= days_in_month(year, month)
}

/// Relies on chrono's NaiveDate::from_ymd_opt: it gives a date exactly when
/// the year is in its range, the month is 1 to 12 and the day exists in that
/// month.
#[verifier::external_body]
fn calendar_date_exists(year: i32, month: u32, day: u32) -> (r: bool)
    ensures
        r == is_calendar_date(year as int, month as int, day as int),
{
    NaiveDate::from_ymd_opt(year, month, day).is_some()
}

/// A day of the calendar, in UTC.
#[derive(Debug, Clone, Copy, PartialEq, Eq, Structural)]
pub struct RatingDate {
    pub year: i32,
    pub month: u32,
    pub day: u32,
}

impl RatingDate {
    pub open spec fn wf(&self) -> bool {
        is_calendar_date(self.year as int, self.month as int, self.day as int)
    }
}

/// A user's rating on one day.
#[derive(Debug, Clone, Copy, PartialEq, Eq, Structural)]
pub struct RatingHistoryRecord {
    pub rating: i32,
    pub date: RatingDate,
}

impl RatingHistoryRecord {
    /// Reads a point of a rating series, `[year, month, day, rating]`, whose
    /// month counts from 0. There is no record where the date does not exist.
    pub fn from_point(point: [i32; 4]) -> (r: Option<RatingHistoryRecord>)
        ensures
            r is Some <==> is_calendar_date(point@[0] as int, point@[1] + 1, point@[2] as int),
            r matches Some(rec) ==> {
                &&& rec.rating == point@[3]
                &&& rec.date.year == point@[0]
                &&& rec.date.month == point@[1] + 1
                &&& rec.date.day == point@[2]
                &&& rec.date.wf()
            },
    {
        let year = point[0];
        if point[1] < 0 || point[1] > 11 || point[2] < 1 {
            return None;
        }
        let month = (point[1] + 1) as u32;
        let day = point[2] as u32;
        if calendar_date_exists(year, month, day) {
            Some(RatingHistoryRecord { rating: point[3], date: RatingDate { year, month, day } })
        } else {
            None
        }
    }
}

/// A user's rating history: one series of records per variant.
#[derive(Debug, Clone)]
pub struct RatingHistory {
    pub bullet: Vec<RatingHistoryRecord>,
    pub blitz: Vec<RatingHistoryRecord>,
    pub rapid: Vec<RatingHistoryRecord>,
    pub classical: Vec<RatingHistoryRecord>,
    pub correspondence: Vec<RatingHistoryRecord>,
    pub chess960: Vec<RatingHistoryRecord>,
    pub king_of_the_hill: Vec<RatingHistoryRecord>,
    pub three_check: Vec<RatingHistoryRecord>,
    pub antichess: Vec<RatingHistoryRecord>,
    pub atomic: Vec<RatingHistoryRecord>,
    pub horde: Vec<RatingHistoryRecord>,
    pub racing_kings: Vec<RatingHistoryRecord>,
    pub crazyhouse: Vec<RatingHistoryRecord>,
    pub puzzles: Vec<RatingHistoryRecord>,
    pub ultra_bullet: Vec<RatingHistoryRecord>,
}

impl RatingHistory {
    /// Assigns the series of a rating history, which the server lists in a
    /// fixed order of variants, to their variants. There is no history where
    /// fewer than fifteen series are listed; series after those are ignored.
    pub fn from_series(series: Vec<Vec<RatingHistoryRecord>>) -> (r: Option<RatingHistory>)
        ensures
            r is Some <==> series@.len() >= SERIES_COUNT,
            r matches Some(h) ==> h.bullet == series@[0],
            r matches Some(h) ==> h.blitz == series@[1],
            r matches Some(h) ==> h.rapid == series@[2],
            r matches Some(h) ==> h.classical == series@[3],
            r matches Some(h) ==> h.correspondence == series@[4],
            r matches Some(h) ==> h.chess960 == series@[5],
            r matches Some(h) ==> h.king_of_the_hill == series@[6],
            r matches Some(h) ==> h.three_check == series@[7],
            r matches Some(h) ==> h.antichess == series@[8],
            r matches Some(h) ==> h.atomic == series@[9],
            r matches Some(h) ==> h.horde == series@[10],
            r matches Some(h) ==> h.racing_kings == series@[11],
            r matches Some(h) ==> h.crazyhouse == series@[12],
            r matches Some(h) ==> h.puzzles == series@[13],
            r matches Some(h) ==> h.ultra_bullet == series@[14],
    {
        if series.len() < SERIES_COUNT {
            return None;
        }
        let ghost all = series@;
        let mut series = series;
        let bullet = series.remove(0);
        assert(series@ =~= all.subrange(1, all.len() as int));
        let blitz = series.remove(0);
        assert(series@ =~= all.subrange(2, all.len() as int));
        let rapid = series.remove(0);
        assert(series@ =~= all.subrange(3, all.len() as int));
        let classical = series.remove(0);
        assert(series@ =~= all.subrange(4, all.len() as int));
        let correspondence = series.remove(0);
        assert(series@ =~= all.subrange(5, all.len() as int));
        let chess960 = series.remove(0);
        assert(series@ =~= all.subrange(6, all.len() as int));
        let king_of_the_hill = series.remove(0);
        assert(series@ =~= all.subrange(7, all.len() as int));
        let three_check = series.remove(0);
        assert(series@ =~= all.subrange(8, all.len() as int));
        let antichess = series.remove(0);
        assert(series@ =~= all.subrange(9, all.len() as int));
        let atomic = series.remove(0);
        assert(series@ =~= all.subrange(10, all.len() as int));
        let horde = series.remove(0);
        assert(series@ =~= all.subrange(11, all.len() as int));
        let racing_kings = series.remove(0);
        assert(series@ =~= all.subrange(12, all.len() as int));
        let crazyhouse = series.remove(0);
        assert(series@ =~= all.subrange(13, all.len() as int));
        let puzzles = series.remove(0);
        assert(series@ =~= all.subrange(14, all.len() as int));
        let ultra_bullet = series.remove(0);
        assert(series@ =~= all.subrange(15, all.len() as int));
        Some(RatingHistory { bullet, blitz, rapid, classical, correspondence, chess960, king_of_the_hill, three_check, antichess, atomic, horde, racing_kings, crazyhouse, puzzles, ultra_bullet })
    }
}

} // verus!
