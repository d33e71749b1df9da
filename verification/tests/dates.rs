use bale_engine::date::{fmt_u64, months_between, Date};

fn date(y: u32, m: u32, d: u32) -> Date {
    Date::new(y, m, d).expect("valid date")
}

#[test]
fn decimal_rendering() {
    assert_eq!(fmt_u64(0), "0");
    assert_eq!(fmt_u64(7), "7");
    assert_eq!(fmt_u64(10), "10");
    assert_eq!(fmt_u64(2005), "2005");
    assert_eq!(fmt_u64(1000000), "1000000");
}

#[test]
fn day_first_text_strips_leading_zeros() {
    assert_eq!(date(2005, 6, 7).day_first_text(), "7.6.2005");
    assert_eq!(date(1999, 12, 31).day_first_text(), "31.12.1999");
    assert_eq!(date(2010, 10, 1).day_first_text(), "1.10.2010");
}

#[test]
fn parse_iso_round_trip() {
    assert_eq!(Date::parse_iso("2005-06-07"), Some(date(2005, 6, 7)));
    assert_eq!(Date::parse_iso("1999-12-31"), Some(date(1999, 12, 31)));
}

#[test]
fn parse_iso_rejects_malformed_text() {
    assert_eq!(Date::parse_iso(""), None);
    assert_eq!(Date::parse_iso("2005-6-07"), None);
    assert_eq!(Date::parse_iso("2005/06/07"), None);
    assert_eq!(Date::parse_iso("2005-06-07x"), None);
    assert_eq!(Date::parse_iso("05-06-2007"), None);
}

#[test]
fn parse_iso_rejects_impossible_dates() {
    assert_eq!(Date::parse_iso("2005-02-30"), None);
    assert_eq!(Date::parse_iso("2005-13-01"), None);
    assert_eq!(Date::parse_iso("2005-00-10"), None);
    assert_eq!(Date::parse_iso("2005-04-31"), None);
}

#[test]
fn parse_iso_knows_leap_years() {
    assert_eq!(Date::parse_iso("2004-02-29"), Some(date(2004, 2, 29)));
    assert_eq!(Date::parse_iso("1900-02-29"), None);
    assert_eq!(Date::parse_iso("2000-02-29"), Some(date(2000, 2, 29)));
}

#[test]
fn whole_months_count_day_of_month() {
    let start = date(2024, 1, 1);
    assert_eq!(months_between(&date(2010, 1, 1), &start), 168);
    assert_eq!(months_between(&date(2010, 1, 2), &start), 167);
    assert_eq!(months_between(&date(2023, 12, 1), &start), 1);
    assert_eq!(months_between(&date(2024, 1, 1), &start), 0);
    assert_eq!(months_between(&date(2024, 3, 1), &start), -2);
}

#[test]
fn date_new_rejects_invalid() {
    assert!(Date::new(2024, 2, 30).is_none());
    assert!(Date::new(2024, 0, 1).is_none());
    assert!(Date::new(0, 1, 1).is_none());
    assert!(Date::new(10000, 1, 1).is_none());
    assert!(Date::new(2024, 12, 31).is_some());
}
