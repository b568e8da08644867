use chan_core::time::CTime;

#[test]
fn ctime_timestamp_of_date_and_time() {
    let t = CTime::new(2024, 1, 2, 3, 4, 5, false);
    assert_eq!(t.ts, 1704164645);
    let epoch = CTime::new(1970, 1, 1, 0, 0, 0, false);
    assert_eq!(epoch.ts, 0);
}

#[test]
fn ctime_auto_midnight_means_end_of_day() {
    let t = CTime::new(2024, 1, 2, 0, 0, 0, true);
    assert_eq!(t.ts, 1704239940);
}

#[test]
fn ctime_leap_day() {
    let t = CTime::new(2000, 2, 29, 12, 0, 0, false);
    assert_eq!(t.ts, 951825600);
}

#[test]
fn ctime_strings() {
    let t = CTime::new(2024, 1, 2, 3, 4, 5, false);
    assert_eq!(t.to_string(), "2024/01/02 03:04");
    assert_eq!(t.to_date_str("-"), "2024-01-02");
    let d = t.to_date();
    assert_eq!(d.to_string(), "2024/01/02");
    assert_eq!(d.ts, 1704153600);
}
