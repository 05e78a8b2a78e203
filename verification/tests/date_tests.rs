use work_record::date::{days_in_month, is_leap, Date};

#[test]
fn formats_with_zero_padding() {
    let d = Date { year: 987, month: 6, day: 5 };
    assert_eq!(d.format(), "0987-06-05");
}

#[test]
fn parse_inverts_format() {
    let d = Date { year: 2024, month: 12, day: 31 };
    assert_eq!(Date::parse(&d.format()), Some(d));
}

#[test]
fn parse_accepts_plain_dates() {
    assert_eq!(Date::parse("2024-06-15"), Some(Date { year: 2024, month: 6, day: 15 }));
}

#[test]
fn parse_rejects_bad_shapes() {
    assert_eq!(Date::parse(""), None);
    assert_eq!(Date::parse("2024-6-15"), None);
    assert_eq!(Date::parse("2024/06/15"), None);
    assert_eq!(Date::parse("2024-13-01"), None);
    assert_eq!(Date::parse("2024-02-30"), None);
    assert_eq!(Date::parse("0000-01-01"), None);
    assert_eq!(Date::parse("abcd-ef-gh"), None);
}

#[test]
fn leap_year_rules() {
    assert!(is_leap(2024));
    assert!(!is_leap(2023));
    assert!(!is_leap(1900));
    assert!(is_leap(2000));
}

#[test]
fn month_lengths() {
    assert_eq!(days_in_month(2024, 2), 29);
    assert_eq!(days_in_month(2023, 2), 28);
    assert_eq!(days_in_month(2024, 4), 30);
    assert_eq!(days_in_month(2024, 1), 31);
}

#[test]
fn succ_crosses_month_and_year_ends() {
    let d = Date { year: 2024, month: 2, day: 29 };
    assert_eq!(d.succ(), Some(Date { year: 2024, month: 3, day: 1 }));
    let e = Date { year: 2023, month: 12, day: 31 };
    assert_eq!(e.succ(), Some(Date { year: 2024, month: 1, day: 1 }));
    let top = Date { year: 9999, month: 12, day: 31 };
    assert_eq!(top.succ(), None);
}

#[test]
fn pred_crosses_month_and_year_starts() {
    let d = Date { year: 2024, month: 3, day: 1 };
    assert_eq!(d.pred(), Some(Date { year: 2024, month: 2, day: 29 }));
    let e = Date { year: 2024, month: 1, day: 1 };
    assert_eq!(e.pred(), Some(Date { year: 2023, month: 12, day: 31 }));
    let bottom = Date { year: 1, month: 1, day: 1 };
    assert_eq!(bottom.pred(), None);
}

#[test]
fn sub_days_counts_back() {
    let d = Date { year: 2024, month: 3, day: 1 };
    assert_eq!(d.sub_days(1), Date { year: 2024, month: 2, day: 29 });
    assert_eq!(d.sub_days(31), Date { year: 2024, month: 1, day: 30 });
}

#[test]
fn sub_days_falls_back_when_out_of_range() {
    let d = Date { year: 1, month: 1, day: 3 };
    assert_eq!(d.sub_days(5), d);
}

#[test]
fn from_ymd_validates() {
    assert!(Date::from_ymd(2024, 2, 29).is_some());
    assert!(Date::from_ymd(2023, 2, 29).is_none());
    assert!(Date::from_ymd(10000, 1, 1).is_none());
    assert!(Date::from_ymd(0, 1, 1).is_none());
}

#[test]
fn today_is_a_real_recent_date() {
    let t = work_record::clock::today();
    assert!(Date::from_ymd(t.year, t.month, t.day).is_some());
    assert!(t.year >= 2024);
}

#[test]
fn le_is_calendar_order() {
    let a = Date { year: 2024, month: 6, day: 15 };
    let b = Date { year: 2024, month: 7, day: 1 };
    assert!(a.le(&b));
    assert!(!b.le(&a));
    assert!(a.le(&a));
}
