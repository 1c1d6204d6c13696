use amortization::date::Date;

#[test]
fn date_new_accepts_real_days() {
    assert!(Date::new(2024, 10, 19).is_some());
    assert!(Date::new(2024, 2, 29).is_some());
    assert!(Date::new(2000, 2, 29).is_some());
    assert!(Date::new(2024, 12, 31).is_some());
}

#[test]
fn date_new_rejects_impossible_days() {
    assert!(Date::new(2023, 2, 29).is_none());
    assert!(Date::new(1900, 2, 29).is_none());
    assert!(Date::new(2024, 4, 31).is_none());
    assert!(Date::new(2024, 0, 1).is_none());
    assert!(Date::new(2024, 13, 1).is_none());
    assert!(Date::new(2024, 1, 0).is_none());
    assert!(Date::new(400_000, 1, 1).is_none());
}

#[test]
fn advance_month_rolls_the_year_over() {
    let d = Date::new(2024, 12, 19).unwrap();
    assert_eq!(d.advance_month(), Date::new(2025, 1, 19));
}

#[test]
fn advance_month_keeps_the_day() {
    let d = Date::new(2024, 10, 19).unwrap();
    assert_eq!(d.advance_month(), Date::new(2024, 11, 19));
}

#[test]
fn advance_month_rejects_missing_days() {
    let d = Date::new(2025, 1, 31).unwrap();
    assert_eq!(d.advance_month(), None);
    let e = Date::new(2025, 1, 29).unwrap();
    assert_eq!(e.advance_month(), None);
    let f = Date::new(2024, 1, 29).unwrap();
    assert_eq!(f.advance_month(), Date::new(2024, 2, 29));
}

#[test]
fn date_new_honours_year_range() {
    assert!(Date::new(262_142, 1, 1).is_some());
    assert!(Date::new(262_143, 1, 1).is_none());
    assert!(Date::new(-262_143, 1, 1).is_some());
    assert!(Date::new(-262_144, 1, 1).is_none());
}

#[test]
fn advance_month_stops_at_the_last_supported_year() {
    let d = Date::new(262_142, 12, 19).unwrap();
    assert_eq!(d.advance_month(), None);
}
