use chrono::{TimeZone, Utc};
use chrono_tz::US::Eastern;
use paper_broker::calendar::{epoch_day, HolidayType, MarketCalendar, MarketSession};

fn eastern(y: i32, m: u32, d: u32, h: u32, mi: u32) -> i64 {
    Eastern.with_ymd_and_hms(y, m, d, h, mi, 0).unwrap().with_timezone(&Utc).timestamp()
}

#[test]
fn test_regular_trading_hours() {
    let calendar = MarketCalendar::default();
    let timestamp = eastern(2024, 1, 2, 10, 0);
    assert!(calendar.is_trading_allowed(timestamp));
    let session = calendar.get_session_info(timestamp);
    assert_eq!(session.session, MarketSession::Regular);
    assert!(!session.is_holiday);
}

#[test]
fn test_holiday_blocking() {
    let calendar = MarketCalendar::default();
    let timestamp = eastern(2024, 1, 1, 10, 0);
    assert!(!calendar.is_trading_allowed(timestamp));
    let session = calendar.get_session_info(timestamp);
    assert_eq!(session.session, MarketSession::Closed);
    assert!(session.is_holiday);
    assert_eq!(session.holiday_name, Some("New Year's Day".to_string()));
}

#[test]
fn test_early_close_holiday() {
    let calendar = MarketCalendar::default();
    let timestamp = eastern(2024, 11, 29, 12, 0);
    assert!(calendar.is_trading_allowed(timestamp));
    let session = calendar.get_session_info(timestamp);
    assert_eq!(session.session, MarketSession::Regular);
    assert!(session.is_holiday);
    let session_after = calendar.get_session_info(eastern(2024, 11, 29, 14, 0));
    assert_eq!(session_after.session, MarketSession::Closed);
}

#[test]
fn test_weekend_blocking() {
    let calendar = MarketCalendar::default();
    let timestamp = eastern(2024, 1, 6, 10, 0);
    assert!(!calendar.is_trading_allowed(timestamp));
    let session = calendar.get_session_info(timestamp);
    assert_eq!(session.session, MarketSession::Closed);
    assert!(!session.is_holiday);
}

#[test]
fn test_extended_hours_configuration() {
    let calendar = MarketCalendar::default().with_extended_hours(true, true);
    let timestamp = eastern(2024, 1, 2, 5, 0);
    assert!(calendar.is_trading_allowed(timestamp));
    assert_eq!(calendar.get_session_info(timestamp).session, MarketSession::PreMarket);
    let timestamp_ah = eastern(2024, 1, 2, 18, 0);
    assert!(calendar.is_trading_allowed(timestamp_ah));
    assert_eq!(calendar.get_session_info(timestamp_ah).session, MarketSession::AfterHours);
}

#[test]
fn test_holiday_trading_override() {
    let calendar = MarketCalendar::default().with_holiday_trading(true);
    assert!(calendar.is_trading_allowed(eastern(2024, 1, 1, 10, 0)));
}

#[test]
fn test_custom_holiday() {
    let mut calendar = MarketCalendar::default();
    let custom_date = epoch_day(2024, 6, 17).unwrap();
    calendar.add_holiday(custom_date, "Custom Holiday".to_string(), HolidayType::Full);
    let timestamp = eastern(2024, 6, 17, 10, 0);
    assert!(!calendar.is_trading_allowed(timestamp));
    let session = calendar.get_session_info(timestamp);
    assert_eq!(session.session, MarketSession::Closed);
    assert!(session.is_holiday);
    assert_eq!(session.holiday_name, Some("Custom Holiday".to_string()));
}

#[test]
fn extended_hours_off_by_default() {
    let calendar = MarketCalendar::default();
    assert!(!calendar.is_trading_allowed(eastern(2024, 1, 2, 5, 0)));
    assert!(!calendar.is_trading_allowed(eastern(2024, 1, 2, 18, 0)));
    assert_eq!(calendar.get_session_info(eastern(2024, 1, 2, 3, 59)).session, MarketSession::Closed);
    assert_eq!(calendar.get_session_info(eastern(2024, 1, 2, 9, 30)).session, MarketSession::Regular);
    assert_eq!(calendar.get_session_info(eastern(2024, 1, 2, 16, 0)).session, MarketSession::AfterHours);
    assert_eq!(calendar.get_session_info(eastern(2024, 1, 2, 20, 0)).session, MarketSession::Closed);
}

#[test]
fn next_session_skips_weekend_and_holiday() {
    let calendar = MarketCalendar::default();
    // Friday 2024-01-12 -> Monday is MLK day -> Tuesday 2024-01-16 09:30.
    let next = calendar.get_next_session_start(eastern(2024, 1, 12, 12, 0)).unwrap();
    assert_eq!(next, eastern(2024, 1, 16, 9, 30));
    let next = calendar.get_next_session_start(eastern(2024, 1, 2, 12, 0)).unwrap();
    assert_eq!(next, eastern(2024, 1, 3, 9, 30));
}

#[test]
fn trading_days_and_holidays_by_year() {
    let mut calendar = MarketCalendar::default();
    let start = epoch_day(2024, 1, 1).unwrap();
    let end = epoch_day(2024, 1, 7).unwrap();
    let days = calendar.get_trading_days(start, end);
    assert_eq!(days, vec![start + 1, start + 2, start + 3, start + 4]);
    assert!(!calendar.is_trading_day(start));
    assert_eq!(calendar.get_holidays_for_year(2024).len(), 12);
    assert_eq!(calendar.get_holidays_for_year(2025).len(), 0);
    calendar.remove_holiday(start);
    assert!(calendar.is_trading_day(start));
    assert!(calendar.get_holiday(start).is_none());
}

#[test]
fn default_holidays_named() {
    let calendar = MarketCalendar::default();
    assert_eq!(calendar.holidays.len(), 12);
    assert_eq!(calendar.holidays[9].name, "Day after Thanksgiving");
    assert_eq!(calendar.holidays[9].holiday_type, HolidayType::EarlyClose);
    assert_eq!(calendar.get_session_info(eastern(2024, 11, 29, 12, 0)).end_time, 13 * 3600);
    assert_eq!(calendar.get_session_info(eastern(2024, 1, 2, 12, 0)).end_time, 16 * 3600);
}
