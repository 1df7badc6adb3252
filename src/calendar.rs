use vstd::prelude::*;
use chrono::{Datelike, Offset, TimeZone};

verus! {

/// Day number of 1970-01-01 counted from 0001-01-01 as day 1.
pub const EPOCH_CE_DAY: i64 = 719163;

/// Seconds in a day.
pub const DAY_SECS: i64 = 86400;

/// Session boundaries, in seconds after local midnight.
pub const PREMARKET_OPEN: u32 = 14400;
pub const REGULAR_OPEN: u32 = 34200;
pub const EARLY_CLOSE: u32 = 46800;
pub const REGULAR_CLOSE: u32 = 57600;
pub const AFTERHOURS_CLOSE: u32 = 72000;

#[derive(Debug, Clone, Copy, PartialEq, Eq, Structural)]
pub enum MarketSession {
    PreMarket,
    Regular,
    AfterHours,
    Closed,
}

#[derive(Debug, Clone, Copy, PartialEq, Eq, Structural)]
pub enum HolidayType {
    Full,
    EarlyClose,
}

/// A market holiday; `date` is a day number counted from 1970-01-01.
#[derive(Debug, Clone)]
pub struct MarketHoliday {
    pub date: i64,
    pub name: String,
    pub holiday_type: HolidayType,
}

/// Classification of an instant. `date` is the US/Eastern day number; the
/// times are seconds after local midnight.
#[derive(Debug, Clone)]
pub struct TradingSession {
    pub date: i64,
    pub session: MarketSession,
    pub start_time: u32,
    pub end_time: u32,
    pub is_holiday: bool,
    pub holiday_name: Option<String>,
}

/// Holidays (kept in date order) and the extended-hours policy.
#[derive(Debug, Clone)]
pub struct MarketCalendar {
    pub holidays: Vec<MarketHoliday>,
    pub allow_premarket: bool,
    pub allow_afterhours: bool,
    pub allow_holiday_trading: bool,
}

/// UTC offset, in seconds, of US/Eastern at a Unix timestamp; `None` for a
/// timestamp out of the supported range.
pub uninterp spec fn eastern_offset(ts: int) -> Option<int>;

/// Unix timestamp of a US/Eastern wall-clock time given as seconds since the
/// local epoch; `None` when that time is skipped or repeated by a clock change.
pub uninterp spec fn eastern_to_utc(local: int) -> Option<int>;

/// Calendar year of a day counted from 0001-01-01 as day 1.
pub uninterp spec fn year_of_ce_day(ce_day: int) -> Option<int>;

/// Day number (from 0001-01-01 as day 1) of a calendar date, if it exists.
pub uninterp spec fn ce_day_of(year: int, month: int, day: int) -> Option<int>;

/// Relies on chrono's `DateTime::from_timestamp` and chrono-tz's
/// `US::Eastern`: the offset from UTC in force at the instant.
#[verifier::external_body]
fn eastern_offset_at(ts: i64) -> (r: Option<i32>)
    ensures
        match r {
            Some(o) => eastern_offset(ts as int) == Some(o as int),
            None => eastern_offset(ts as int) is None,
        },
{
    let dt = chrono::DateTime::from_timestamp(ts, 0)?;
    Some(dt.with_timezone(&chrono_tz::US::Eastern).offset().fix().local_minus_utc())
}

/// Relies on chrono-tz's `US::Eastern.from_local_datetime(..).single()`: the
/// instant of an unambiguous Eastern wall-clock time.
#[verifier::external_body]
fn eastern_local_to_utc(local: i64) -> (r: Option<i64>)
    ensures
        match r {
            Some(t) => eastern_to_utc(local as int) == Some(t as int),
            None => eastern_to_utc(local as int) is None,
        },
{
    let naive = chrono::DateTime::from_timestamp(local, 0)?.naive_utc();
    let t = chrono_tz::US::Eastern.from_local_datetime(&naive).single()?;
    Some(t.timestamp())
}

/// Relies on chrono's `NaiveDate::from_num_days_from_ce_opt` and `year`.
#[verifier::external_body]
fn year_of_ce(ce_day: i32) -> (r: Option<i32>)
    ensures
        match r {
            Some(y) => year_of_ce_day(ce_day as int) == Some(y as int),
            None => year_of_ce_day(ce_day as int) is None,
        },
{
    let date = chrono::NaiveDate::from_num_days_from_ce_opt(ce_day)?;
    Some(date.year())
}

/// Relies on chrono's `NaiveDate::from_ymd_opt` and `num_days_from_ce`.
#[verifier::external_body]
fn ce_day_of_date(year: i32, month: u32, day: u32) -> (r: Option<i32>)
    ensures
        match r {
            Some(n) => ce_day_of(year as int, month as int, day as int) == Some(n as int),
            None => ce_day_of(year as int, month as int, day as int) is None,
        },
{
    let date = chrono::NaiveDate::from_ymd_opt(year, month, day)?;
    Some(date.num_days_from_ce())
}

/// Day number from 1970-01-01 of a calendar date, if the date exists.
pub fn epoch_day(year: i32, month: u32, day: u32) -> (r: Option<i64>)
    ensures
        match ce_day_of(year as int, month as int, day as int) {
            Some(n) => r == Some((n - EPOCH_CE_DAY) as i64),
            None => r is None,
        },
{
    match ce_day_of_date(year, month, day) {
        Some(n) => Some(n as i64 - EPOCH_CE_DAY),
        None => None,
    }
}

/// Day of the week of a day number: 0 is Monday, 6 is Sunday.
pub open spec fn weekday(day: int) -> int {
    (day + 3) % 7
}

pub open spec fn is_weekend(day: int) -> bool {
    weekday(day) >= 5
}

/// The first holiday in the list that falls on `day`.
pub open spec fn holiday_on(hs: Seq<MarketHoliday>, day: int) -> Option<MarketHoliday>
    decreases hs.len(),
{
    if hs.len() == 0 {
        None
    } else if hs[0].date == day {
        Some(hs[0])
    } else {
        holiday_on(hs.drop_first(), day)
    }
}

/// Session of an ordinary trading day by local time.
pub open spec fn day_session(secs: int) -> MarketSession {
    if secs < PREMARKET_OPEN {
        MarketSession::Closed
    } else if secs < REGULAR_OPEN {
        MarketSession::PreMarket
    } else if secs < REGULAR_CLOSE {
        MarketSession::Regular
    } else if secs < AFTERHOURS_CLOSE {
        MarketSession::AfterHours
    } else {
        MarketSession::Closed
    }
}

/// Session at local time `secs` of `day`: weekends are closed; a full holiday
/// is closed unless holiday trading is on; an early-close day has its
/// pre-market and a regular session that ends at 13:00.
pub open spec fn session_of(
    day: int,
    secs: int,
    holiday: Option<MarketHoliday>,
    allow_holiday_trading: bool,
) -> MarketSession {
    if is_weekend(day) {
        MarketSession::Closed
    } else {
        match holiday {
            Some(h) => match h.holiday_type {
                HolidayType::Full => if allow_holiday_trading {
                    day_session(secs)
                } else {
                    MarketSession::Closed
                },
                HolidayType::EarlyClose => if secs < PREMARKET_OPEN {
                    MarketSession::Closed
                } else if secs < REGULAR_OPEN {
                    MarketSession::PreMarket
                } else if secs < EARLY_CLOSE {
                    MarketSession::Regular
                } else {
                    MarketSession::Closed
                },
            },
            None => day_session(secs),
        }
    }
}

/// Eastern day number and seconds after local midnight of an instant.
pub open spec fn local_day(ts: int, offset: int) -> int {
    (ts + offset) / DAY_SECS as int
}

pub open spec fn local_secs(ts: int, offset: int) -> int {
    (ts + offset) % DAY_SECS as int
}

/// Splits a local time in seconds since the local epoch into day number and
/// seconds of the day.
fn split_local(local: i128) -> (r: (i64, u32))
    requires
        -0x1_0000_0000_0000_0000 <= local <= 0x1_0000_0000_0000_0000,
    ensures
        r.0 == local as int / DAY_SECS as int,
        r.1 == local as int % DAY_SECS as int,
{
    let (q, m): (i64, i64) = if local >= 0 {
        (((local as u128) / 86400) as i64, ((local as u128) % 86400) as i64)
    } else {
        let back: u128 = ((-local) - 1) as u128;
        let q = -((back / 86400) as i64) - 1;
        let m = 86399 - ((back % 86400) as i64);
        (q, m)
    };
    (q, m as u32)
}

fn weekday_of(day: i64) -> (r: i64)
    ensures
        r == weekday(day as int),
{
    let shifted: i128 = day as i128 + 3;
    if shifted >= 0 {
        ((shifted as u128) % 7) as i64
    } else {
        let back: u128 = ((-shifted) - 1) as u128;
        (6 - (back % 7)) as i64
    }
}

impl MarketCalendar {
    /// Holidays are in date order.
    pub open spec fn wf(&self) -> bool {
        forall|i: int, j: int|
            0 <= i < j < self.holidays@.len() ==> #[trigger] self.holidays@[i].date
                <= #[trigger] self.holidays@[j].date
    }

    /// The first holiday on `day`, if any.
    pub fn get_holiday(&self, day: i64) -> (r: Option<&MarketHoliday>)
        ensures
            match r {
                Some(h) => holiday_on(self.holidays@, day as int) == Some(*h),
                None => holiday_on(self.holidays@, day as int) is None,
            },
    {
        let mut i: usize = 0;
        let n = self.holidays.len();
        assert(self.holidays@.subrange(0, n as int) =~= self.holidays@);
        while i < n
            invariant
                n == self.holidays@.len(),
                i <= n,
                holiday_on(self.holidays@, day as int) == holiday_on(
                    self.holidays@.subrange(i as int, n as int),
                    day as int,
                ),
            decreases n - i,
        {
            let ghost rest = self.holidays@.subrange(i as int, n as int);
            assert(rest.drop_first() =~= self.holidays@.subrange(i as int + 1, n as int));
            if self.holidays[i].date == day {
                return Some(&self.holidays[i]);
            }
            i = i + 1;
        }
        assert(self.holidays@.subrange(n as int, n as int) =~= Seq::<MarketHoliday>::empty());
        None
    }
}

/// The holiday that governs a day: none on a weekend.
pub open spec fn governing_holiday(hs: Seq<MarketHoliday>, day: int) -> Option<MarketHoliday> {
    if is_weekend(day) {
        None
    } else {
        holiday_on(hs, day)
    }
}

/// Session at a Unix timestamp; `Closed` when it cannot be classified.
pub open spec fn session_at(cal: MarketCalendar, ts: int) -> MarketSession {
    match eastern_offset(ts) {
        None => MarketSession::Closed,
        Some(o) => session_of(
            local_day(ts, o),
            local_secs(ts, o),
            governing_holiday(cal.holidays@, local_day(ts, o)),
            cal.allow_holiday_trading,
        ),
    }
}

/// Whether a session on a day governed by `h` is open to orders.
pub open spec fn session_allowed(
    cal: MarketCalendar,
    s: MarketSession,
    h: Option<MarketHoliday>,
) -> bool {
    let blocked = h is Some && !cal.allow_holiday_trading && !(h->0.holiday_type
        == HolidayType::EarlyClose && s == MarketSession::Regular);
    !blocked && match s {
        MarketSession::Regular => true,
        MarketSession::PreMarket => cal.allow_premarket,
        MarketSession::AfterHours => cal.allow_afterhours,
        MarketSession::Closed => false,
    }
}

/// Whether orders may execute at a Unix timestamp.
pub open spec fn trading_allowed(cal: MarketCalendar, ts: int) -> bool {
    match eastern_offset(ts) {
        None => false,
        Some(o) => session_allowed(
            cal,
            session_at(cal, ts),
            governing_holiday(cal.holidays@, local_day(ts, o)),
        ),
    }
}

impl MarketCalendar {
    fn governing(&self, day: i64) -> (r: Option<&MarketHoliday>)
        ensures
            match r {
                Some(h) => governing_holiday(self.holidays@, day as int) == Some(*h),
                None => governing_holiday(self.holidays@, day as int) is None,
            },
    {
        if weekday_of(day) >= 5 {
            None
        } else {
            self.get_holiday(day)
        }
    }

    /// Classifies an instant by its US/Eastern date and time.
    pub fn get_session_info(&self, ts: i64) -> (r: TradingSession)
        ensures
            r.session == session_at(*self, ts as int),
            match eastern_offset(ts as int) {
                Some(o) => {
                    let h = governing_holiday(self.holidays@, local_day(ts as int, o));
                    &&& r.date == local_day(ts as int, o)
                    &&& r.is_holiday == h is Some
                    &&& r.holiday_name.is_some() == h is Some
                    &&& (h is Some ==> r.holiday_name->0@ == h->0.name@)
                },
                None => !r.is_holiday && r.holiday_name is None,
            },
            r.session == MarketSession::Regular ==> r.end_time == (if r.is_holiday && match eastern_offset(ts as int) {
                Some(o) => governing_holiday(self.holidays@, local_day(ts as int, o))->0.holiday_type == HolidayType::EarlyClose,
                None => false,
            } {
                EARLY_CLOSE
            } else {
                REGULAR_CLOSE
            }),
            r.session == MarketSession::PreMarket ==> r.start_time == PREMARKET_OPEN && r.end_time
                == REGULAR_OPEN,
            r.session == MarketSession::AfterHours ==> r.start_time == REGULAR_CLOSE && r.end_time
                == AFTERHOURS_CLOSE,
            r.session == MarketSession::Regular ==> r.start_time == REGULAR_OPEN,
            r.session == MarketSession::Closed ==> r.start_time == 0 && r.end_time == 0,
    {
        let offset = match eastern_offset_at(ts) {
            Some(o) => o,
            None => {
                return TradingSession {
                    date: 0,
                    session: MarketSession::Closed,
                    start_time: 0,
                    end_time: 0,
                    is_holiday: false,
                    holiday_name: None,
                };
            },
        };
        let (day, secs) = split_local(ts as i128 + offset as i128);
        let holiday = self.governing(day);
        let session = if weekday_of(day) >= 5 {
            MarketSession::Closed
        } else {
            match holiday {
                Some(h) => match h.holiday_type {
                    HolidayType::Full => if self.allow_holiday_trading {
                        classify_day(secs)
                    } else {
                        MarketSession::Closed
                    },
                    HolidayType::EarlyClose => if secs < PREMARKET_OPEN {
                        MarketSession::Closed
                    } else if secs < REGULAR_OPEN {
                        MarketSession::PreMarket
                    } else if secs < EARLY_CLOSE {
                        MarketSession::Regular
                    } else {
                        MarketSession::Closed
                    },
                },
                None => classify_day(secs),
            }
        };
        let early = match holiday {
            Some(h) => h.holiday_type == HolidayType::EarlyClose,
            None => false,
        };
        let (start_time, end_time): (u32, u32) = match session {
            MarketSession::PreMarket => (PREMARKET_OPEN, REGULAR_OPEN),
            MarketSession::Regular => if early {
                (REGULAR_OPEN, EARLY_CLOSE)
            } else {
                (REGULAR_OPEN, REGULAR_CLOSE)
            },
            MarketSession::AfterHours => (REGULAR_CLOSE, AFTERHOURS_CLOSE),
            MarketSession::Closed => (0, 0),
        };
        let (is_holiday, holiday_name) = match holiday {
            Some(h) => (true, Some(h.name.clone())),
            None => (false, None),
        };
        TradingSession { date: day, session, start_time, end_time, is_holiday, holiday_name }
    }

    /// Whether orders may execute at `ts`: the session must be enabled, and a
    /// holiday blocks trading unless holiday trading is on, except for the
    /// regular session of an early-close day.
    pub fn is_trading_allowed(&self, ts: i64) -> (r: bool)
        ensures
            r == trading_allowed(*self, ts as int),
    {
        let info = self.get_session_info(ts);
        let offset = eastern_offset_at(ts);
        if offset.is_none() {
            return false;
        }
        let holiday = self.governing(info.date);
        let blocked = match holiday {
            Some(h) => !self.allow_holiday_trading && !(h.holiday_type == HolidayType::EarlyClose
                && info.session == MarketSession::Regular),
            None => false,
        };
        if blocked {
            return false;
        }
        match info.session {
            MarketSession::Regular => true,
            MarketSession::PreMarket => self.allow_premarket,
            MarketSession::AfterHours => self.allow_afterhours,
            MarketSession::Closed => false,
        }
    }
}

fn classify_day(secs: u32) -> (r: MarketSession)
    ensures
        r == day_session(secs as int),
{
    if secs < PREMARKET_OPEN {
        MarketSession::Closed
    } else if secs < REGULAR_OPEN {
        MarketSession::PreMarket
    } else if secs < REGULAR_CLOSE {
        MarketSession::Regular
    } else if secs < AFTERHOURS_CLOSE {
        MarketSession::AfterHours
    } else {
        MarketSession::Closed
    }
}

/// Whether a day is one on which the market trades.
pub open spec fn trading_day(cal: MarketCalendar, day: int) -> bool {
    !is_weekend(day) && match holiday_on(cal.holidays@, day) {
        Some(h) => h.holiday_type != HolidayType::Full || cal.allow_holiday_trading,
        None => true,
    }
}

/// The 2024 US market holidays, in date order (day numbers from 1970-01-01).
pub open spec fn holidays_2024(hs: Seq<MarketHoliday>) -> bool {
    &&& hs.len() == 12
    &&& hs[0].date == 19723 && hs[0].holiday_type == HolidayType::Full && hs[0].name@ == "New Year's Day"@
    &&& hs[1].date == 19737 && hs[1].holiday_type == HolidayType::Full && hs[1].name@ == "Martin Luther King Jr. Day"@
    &&& hs[2].date == 19772 && hs[2].holiday_type == HolidayType::Full && hs[2].name@ == "Presidents' Day"@
    &&& hs[3].date == 19811 && hs[3].holiday_type == HolidayType::Full && hs[3].name@ == "Good Friday"@
    &&& hs[4].date == 19870 && hs[4].holiday_type == HolidayType::Full && hs[4].name@ == "Memorial Day"@
    &&& hs[5].date == 19893 && hs[5].holiday_type == HolidayType::Full && hs[5].name@ == "Juneteenth"@
    &&& hs[6].date == 19908 && hs[6].holiday_type == HolidayType::Full && hs[6].name@ == "Independence Day"@
    &&& hs[7].date == 19968 && hs[7].holiday_type == HolidayType::Full && hs[7].name@ == "Labor Day"@
    &&& hs[8].date == 20055 && hs[8].holiday_type == HolidayType::Full && hs[8].name@ == "Thanksgiving Day"@
    &&& hs[9].date == 20056 && hs[9].holiday_type == HolidayType::EarlyClose && hs[9].name@ == "Day after Thanksgiving"@
    &&& hs[10].date == 20081 && hs[10].holiday_type == HolidayType::EarlyClose && hs[10].name@ == "Christmas Eve"@
    &&& hs[11].date == 20082 && hs[11].holiday_type == HolidayType::Full && hs[11].name@ == "Christmas Day"@
}

impl MarketCalendar {
    /// The 2024 US market holidays (day numbers from 1970-01-01), in date order.
    fn get_2024_holidays() -> (r: Vec<MarketHoliday>)
        ensures
            holidays_2024(r@),
            forall|i: int, j: int| 0 <= i < j < r@.len() ==> #[trigger] r@[i].date < #[trigger] r@[j].date,
    {
        let mut hs: Vec<MarketHoliday> = Vec::new();
        hs.push(MarketHoliday { date: 19723, name: "New Year's Day".to_owned(), holiday_type: HolidayType::Full });
        hs.push(MarketHoliday { date: 19737, name: "Martin Luther King Jr. Day".to_owned(), holiday_type: HolidayType::Full });
        hs.push(MarketHoliday { date: 19772, name: "Presidents' Day".to_owned(), holiday_type: HolidayType::Full });
        hs.push(MarketHoliday { date: 19811, name: "Good Friday".to_owned(), holiday_type: HolidayType::Full });
        hs.push(MarketHoliday { date: 19870, name: "Memorial Day".to_owned(), holiday_type: HolidayType::Full });
        hs.push(MarketHoliday { date: 19893, name: "Juneteenth".to_owned(), holiday_type: HolidayType::Full });
        hs.push(MarketHoliday { date: 19908, name: "Independence Day".to_owned(), holiday_type: HolidayType::Full });
        hs.push(MarketHoliday { date: 19968, name: "Labor Day".to_owned(), holiday_type: HolidayType::Full });
        hs.push(MarketHoliday { date: 20055, name: "Thanksgiving Day".to_owned(), holiday_type: HolidayType::Full });
        hs.push(MarketHoliday { date: 20056, name: "Day after Thanksgiving".to_owned(), holiday_type: HolidayType::EarlyClose });
        hs.push(MarketHoliday { date: 20081, name: "Christmas Eve".to_owned(), holiday_type: HolidayType::EarlyClose });
        hs.push(MarketHoliday { date: 20082, name: "Christmas Day".to_owned(), holiday_type: HolidayType::Full });
        hs
    }

    /// The 2024 holidays; extended hours and holiday trading off.
    pub fn default() -> (r: MarketCalendar)
        ensures
            r.wf(),
            !r.allow_premarket && !r.allow_afterhours && !r.allow_holiday_trading,
            holidays_2024(r.holidays@),
    {
        MarketCalendar {
            holidays: MarketCalendar::get_2024_holidays(),
            allow_premarket: false,
            allow_afterhours: false,
            allow_holiday_trading: false,
        }
    }

    pub fn new() -> (r: MarketCalendar)
        ensures
            r.wf(),
            !r.allow_premarket && !r.allow_afterhours && !r.allow_holiday_trading,
            holidays_2024(r.holidays@),
    {
        MarketCalendar::default()
    }

    pub fn with_extended_hours(self, premarket: bool, afterhours: bool) -> (r: MarketCalendar)
        ensures
            r == (MarketCalendar { allow_premarket: premarket, allow_afterhours: afterhours, ..self }),
    {
        let mut c = self;
        c.allow_premarket = premarket;
        c.allow_afterhours = afterhours;
        c
    }

    pub fn with_holiday_trading(self, enabled: bool) -> (r: MarketCalendar)
        ensures
            r == (MarketCalendar { allow_holiday_trading: enabled, ..self }),
    {
        let mut c = self;
        c.allow_holiday_trading = enabled;
        c
    }

    /// Whether `day` is a trading day: a weekday that is not a full holiday,
    /// or is one while holiday trading is on.
    pub fn is_trading_day(&self, day: i64) -> (r: bool)
        ensures
            r == trading_day(*self, day as int),
    {
        if weekday_of(day) >= 5 {
            return false;
        }
        match self.get_holiday(day) {
            Some(h) => h.holiday_type != HolidayType::Full || self.allow_holiday_trading,
            None => true,
        }
    }

    /// The trading days from `start` to `end`, both included, in order.
    pub fn get_trading_days(&self, start: i64, end: i64) -> (r: Vec<i64>)
        ensures
            forall|i: int| 0 <= i < r@.len() ==> start <= #[trigger] r@[i] <= end && trading_day(*self, r@[i] as int),
            forall|i: int, j: int| 0 <= i < j < r@.len() ==> #[trigger] r@[i] < #[trigger] r@[j],
            forall|d: int| start <= d <= end && trading_day(*self, d) ==> r@.contains(d as i64),
    {
        let mut days: Vec<i64> = Vec::new();
        if start > end {
            return days;
        }
        let mut current: i128 = start as i128;
        while current <= end as i128
            invariant
                start <= current <= end as int + 1,
                forall|i: int| 0 <= i < days@.len() ==> start <= #[trigger] days@[i] < current && trading_day(*self, days@[i] as int),
                forall|i: int, j: int| 0 <= i < j < days@.len() ==> #[trigger] days@[i] < #[trigger] days@[j],
                forall|d: int| start <= d < current && trading_day(*self, d) ==> days@.contains(d as i64),
            decreases end as int + 1 - current,
        {
            let ghost before = days@;
            let day = current as i64;
            if self.is_trading_day(day) {
                days.push(day);
                proof {
                    assert forall|d: int| start <= d < current && trading_day(*self, d) implies days@.contains(d as i64) by {
                        let k = choose|k: int| 0 <= k < before.len() && before[k] == d as i64;
                        assert(days@[k] == d as i64);
                    }
                    assert(days@[days@.len() - 1] == day);
                }
            }
            current = current + 1;
        }
        days
    }

    /// Adds a holiday after those on the same or earlier dates, keeping the
    /// list in date order.
    pub fn add_holiday(&mut self, day: i64, name: String, holiday_type: HolidayType)
        requires
            old(self).wf(),
        ensures
            final(self).wf(),
            exists|k: int|
                0 <= k <= old(self).holidays@.len() && final(self).holidays@ == old(self).holidays@.insert(
                    k,
                    MarketHoliday { date: day, name, holiday_type },
                ) && (forall|j: int| 0 <= j < k ==> (#[trigger] old(self).holidays@[j]).date <= day)
                    && (forall|j: int| k <= j < old(self).holidays@.len() ==> (#[trigger] old(self).holidays@[j]).date > day),
            final(self).allow_premarket == old(self).allow_premarket,
            final(self).allow_afterhours == old(self).allow_afterhours,
            final(self).allow_holiday_trading == old(self).allow_holiday_trading,
    {
        let n = self.holidays.len();
        let mut k: usize = 0;
        while k < n && self.holidays[k].date <= day
            invariant
                n == self.holidays@.len(),
                k <= n,
                forall|j: int| 0 <= j < k ==> (#[trigger] self.holidays@[j]).date <= day,
            decreases n - k,
        {
            k = k + 1;
        }
        proof {
            assert forall|j: int| k <= j < n implies (#[trigger] self.holidays@[j]).date > day by {
                assert(self.holidays@[k as int].date <= self.holidays@[j].date || j == k);
            }
        }
        let ghost old_hs = self.holidays@;
        let h = MarketHoliday { date: day, name, holiday_type };
        self.holidays.insert(k, h);
        proof {
            assert(self.holidays@ == old_hs.insert(k as int, h));
            assert forall|i: int, j: int| 0 <= i < j < self.holidays@.len() implies #[trigger] self.holidays@[i].date
                <= #[trigger] self.holidays@[j].date by {
                if j < k {
                } else if j == k {
                } else if i < k {
                    assert(self.holidays@[i] == old_hs[i]);
                    assert(self.holidays@[j] == old_hs[j - 1]);
                } else if i == k {
                    assert(self.holidays@[j] == old_hs[j - 1]);
                } else {
                    assert(self.holidays@[i] == old_hs[i - 1]);
                    assert(self.holidays@[j] == old_hs[j - 1]);
                }
            }
        }
    }

    /// Removes every holiday on `day`.
    pub fn remove_holiday(&mut self, day: i64)
        requires
            old(self).wf(),
        ensures
            final(self).wf(),
            final(self).holidays@ == old(self).holidays@.filter(|h: MarketHoliday| h.date != day),
            final(self).allow_premarket == old(self).allow_premarket,
            final(self).allow_afterhours == old(self).allow_afterhours,
            final(self).allow_holiday_trading == old(self).allow_holiday_trading,
    {
        let ghost keep = |h: MarketHoliday| h.date != day;
        let ghost orig = self.holidays@;
        let n = self.holidays.len();
        let mut i: usize = n;
        proof {
            assert(orig.subrange(n as int, n as int) =~= Seq::<MarketHoliday>::empty());
            reveal(Seq::filter);
            assert(orig.subrange(n as int, n as int).filter(keep) =~= Seq::<MarketHoliday>::empty());
            assert(self.holidays@ =~= orig.subrange(0, n as int) + orig.subrange(n as int, n as int).filter(keep));
        }
        while i > 0
            invariant
                n == orig.len(),
                i <= n,
                keep == (|h: MarketHoliday| h.date != day),
                self.holidays@ == orig.subrange(0, i as int) + orig.subrange(i as int, n as int).filter(keep),
                self.wf(),
                self.allow_premarket == old(self).allow_premarket,
                self.allow_afterhours == old(self).allow_afterhours,
                self.allow_holiday_trading == old(self).allow_holiday_trading,
            decreases i,
        {
            let ghost x = orig[i as int - 1];
            let ghost rest = orig.subrange(i as int, n as int);
            proof {
                assert(orig.subrange(i as int - 1, n as int) =~= seq![x] + rest);
                Seq::filter_distributes_over_add(seq![x], rest, keep);
                reveal(Seq::filter);
                assert(seq![x].drop_last() =~= Seq::<MarketHoliday>::empty());
                assert(Seq::<MarketHoliday>::empty().filter(keep) =~= Seq::<MarketHoliday>::empty());
                assert(seq![x].last() == x);
                assert(self.holidays@[i as int - 1] == x);
            }
            if self.holidays[i - 1].date == day {
                let ghost before = self.holidays@;
                self.holidays.remove(i - 1);
                proof {
                    assert(seq![x].filter(keep) =~= Seq::<MarketHoliday>::empty());
                    assert(self.holidays@ =~= orig.subrange(0, i as int - 1) + orig.subrange(i as int - 1, n as int).filter(keep));
                    assert forall|p: int, q: int| 0 <= p < q < self.holidays@.len() implies #[trigger] self.holidays@[p].date
                        <= #[trigger] self.holidays@[q].date by {
                        let p2 = if p < i - 1 { p } else { p + 1 };
                        let q2 = if q < i - 1 { q } else { q + 1 };
                        assert(self.holidays@[p] == before[p2]);
                        assert(self.holidays@[q] == before[q2]);
                    }
                }
            } else {
                proof {
                    assert(seq![x].filter(keep) =~= seq![x]);
                    assert(self.holidays@ =~= orig.subrange(0, i as int - 1) + orig.subrange(i as int - 1, n as int).filter(keep));
                }
            }
            i = i - 1;
        }
        assert(orig.subrange(0, 0) + orig.subrange(0, n as int).filter(keep) =~= orig.filter(keep)) by {
            assert(orig.subrange(0, n as int) =~= orig);
        }
    }
}

/// Start (09:30 Eastern, as a Unix timestamp) of the first eligible day
/// among `ts` plus `k`, `k + 1`, ..., 7 days: weekends and, unless holiday
/// trading is on, full holidays are skipped.
pub open spec fn next_start_search(cal: MarketCalendar, ts: int, k: int) -> Option<int>
    decreases 8 - k,
{
    if k > 7 || k < 1 {
        None
    } else {
        let t = ts + k * DAY_SECS;
        if t < i64::MIN || t > i64::MAX {
            None
        } else {
            match eastern_offset(t) {
                None => None,
                Some(o) => {
                    let day = local_day(t, o);
                    let skip = is_weekend(day) || match holiday_on(cal.holidays@, day) {
                        Some(h) => h.holiday_type == HolidayType::Full && !cal.allow_holiday_trading,
                        None => false,
                    };
                    if skip {
                        next_start_search(cal, ts, k + 1)
                    } else if day * DAY_SECS + REGULAR_OPEN > i64::MAX || day * DAY_SECS + REGULAR_OPEN < i64::MIN {
                        None
                    } else {
                        eastern_to_utc(day * DAY_SECS + REGULAR_OPEN)
                    }
                },
            }
        }
    }
}

/// Calendar year of a day numbered from 1970-01-01.
pub open spec fn year_of_day(day: int) -> Option<int> {
    let ce = day + EPOCH_CE_DAY;
    if ce < i32::MIN || ce > i32::MAX {
        None
    } else {
        year_of_ce_day(ce)
    }
}

impl MarketCalendar {
    /// Start of the next regular session: 09:30 Eastern of the first eligible
    /// day within the next seven.
    pub fn get_next_session_start(&self, ts: i64) -> (r: Option<i64>)
        ensures
            match r {
                Some(t) => next_start_search(*self, ts as int, 1) == Some(t as int),
                None => next_start_search(*self, ts as int, 1) is None,
            },
    {
        let mut k: i64 = 1;
        while k <= 7
            invariant
                1 <= k <= 8,
                next_start_search(*self, ts as int, 1) == next_start_search(*self, ts as int, k as int),
            decreases 8 - k,
        {
            let t: i128 = ts as i128 + (k as i128) * 86400;
            if t < i64::MIN as i128 || t > i64::MAX as i128 {
                return None;
            }
            let t = t as i64;
            let offset = match eastern_offset_at(t) {
                Some(o) => o,
                None => {
                    return None;
                },
            };
            let (day, _secs) = split_local(t as i128 + offset as i128);
            let mut skip = weekday_of(day) >= 5;
            if !skip {
                match self.get_holiday(day) {
                    Some(h) => {
                        skip = h.holiday_type == HolidayType::Full && !self.allow_holiday_trading;
                    },
                    None => {},
                }
            }
            if !skip {
                let local: i128 = (day as i128) * 86400 + REGULAR_OPEN as i128;
                if local < i64::MIN as i128 || local > i64::MAX as i128 {
                    return None;
                }
                return eastern_local_to_utc(local as i64);
            }
            k = k + 1;
        }
        None
    }

    /// The holidays that fall in `year`, in list order.
    pub fn get_holidays_for_year(&self, year: i32) -> (r: Vec<&MarketHoliday>)
        ensures
            r@.map_values(|h: &MarketHoliday| *h) == self.holidays@.filter(
                |h: MarketHoliday| year_of_day(h.date as int) == Some(year as int),
            ),
    {
        let ghost keep = |h: MarketHoliday| year_of_day(h.date as int) == Some(year as int);
        let mut out: Vec<&MarketHoliday> = Vec::new();
        let n = self.holidays.len();
        let mut i: usize = 0;
        while i < n
            invariant
                n == self.holidays@.len(),
                i <= n,
                keep == (|h: MarketHoliday| year_of_day(h.date as int) == Some(year as int)),
                out@.map_values(|h: &MarketHoliday| *h) == self.holidays@.subrange(0, i as int).filter(keep),
            decreases n - i,
        {
            let h = &self.holidays[i];
            let ghost sub = self.holidays@.subrange(0, i as int + 1);
            let ghost prev = out@;
            proof {
                assert(sub.drop_last() =~= self.holidays@.subrange(0, i as int));
                assert(sub.last() == *h);
                reveal(Seq::filter);
            }
            let ce: i128 = h.date as i128 + EPOCH_CE_DAY as i128;
            let in_year = if ce < i32::MIN as i128 || ce > i32::MAX as i128 {
                false
            } else {
                match year_of_ce(ce as i32) {
                    Some(y) => y == year,
                    None => false,
                }
            };
            if in_year {
                out.push(h);
                assert(out@.map_values(|h: &MarketHoliday| *h) =~= prev.map_values(|h: &MarketHoliday| *h).push(*h));
            }
            i = i + 1;
        }
        assert(self.holidays@.subrange(0, n as int) =~= self.holidays@);
        out
    }
}

} // verus!
