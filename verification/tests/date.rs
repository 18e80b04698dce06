use commit_race::date::convert_timestamp_to_month_and_year;

#[test]
fn should_convert_week_timestamp_to_month() {
    let timestamp = 1361059200;
    let month = convert_timestamp_to_month_and_year(&timestamp);
    assert_eq!(month, "Feb 2013");
}

#[test]
fn labels_follow_the_calendar() {
    assert_eq!(convert_timestamp_to_month_and_year(&0), "Jan 1970");
    assert_eq!(convert_timestamp_to_month_and_year(&2678399), "Jan 1970");
    assert_eq!(convert_timestamp_to_month_and_year(&2678400), "Feb 1970");
    assert_eq!(convert_timestamp_to_month_and_year(&1590403200), "May 2020");
    assert_eq!(convert_timestamp_to_month_and_year(&u32::MAX), "Feb 2106");
}
