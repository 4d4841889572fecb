use repo_trust::date::Date;

#[test]
fn a_year_before() {
    assert_eq!(Date::new(2024, 3, 1).days_before(365).as_deref(), Some("2023-03-02"));
    assert_eq!(Date::new(2023, 10, 19).days_before(365).as_deref(), Some("2022-10-19"));
    assert_eq!(Date::new(2024, 1, 5).days_before(0).as_deref(), Some("2024-01-05"));
    assert_eq!(Date::new(10, 1, 1).days_before(1).as_deref(), Some("0009-12-31"));
}

#[test]
fn days_outside_the_calendar() {
    assert!(Date::new(2023, 2, 29).days_before(1).is_none());
    assert!(Date::new(2023, 13, 1).days_before(1).is_none());
    assert!(Date::new(0, 1, 1).days_before(1).is_none());
    assert!(Date::new(2023, 1, 1).days_before(u64::MAX).is_none());
}
