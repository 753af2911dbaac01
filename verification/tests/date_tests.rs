use watchsync::date::parse_date;
use watchsync::date::Date;

#[test]
fn full_date_parses() {
    let d = parse_date("2019-04-05").unwrap();
    assert_eq!(d.year, 2019);
    assert_eq!(d.month, 4);
    assert_eq!(d.day, 5);
}

#[test]
fn missing_month_and_day_default_to_one() {
    let d = parse_date("2019").unwrap();
    assert_eq!(d.year, 2019);
    assert_eq!(d.month, 1);
    assert_eq!(d.day, 1);

    let d = parse_date("2019-07").unwrap();
    assert_eq!(d.year, 2019);
    assert_eq!(d.month, 7);
    assert_eq!(d.day, 1);
}

#[test]
fn zero_components_default_to_one() {
    let d = parse_date("2019-00-00").unwrap();
    assert_eq!(d.month, 1);
    assert_eq!(d.day, 1);
}

#[test]
fn invalid_characters_are_rejected() {
    assert!(parse_date("20a9-04-05").is_none());
    assert!(parse_date("2019-0x-05").is_none());
    assert!(parse_date("2019-04-0 ").is_none());
    assert!(parse_date("2019-04-05-06").is_none());
}

#[test]
fn impossible_dates_are_rejected() {
    assert!(parse_date("2019-13-01").is_none());
    assert!(parse_date("2019-04-31").is_none());
    assert!(parse_date("2019-02-29").is_none());
    assert!(parse_date("0000-01-01").is_none());
    assert!(parse_date("").is_none());
}

#[test]
fn leap_day_parses_in_leap_years() {
    assert!(parse_date("2020-02-29").is_some());
    assert!(parse_date("2000-02-29").is_some());
    assert!(parse_date("1900-02-29").is_none());
}

#[test]
fn day_numbers_count_days() {
    let first = Date::new(1, 1, 1).unwrap();
    assert_eq!(first.day_number(), 0);

    let epoch = Date::new(1970, 1, 1).unwrap();
    assert_eq!(epoch.day_number(), 719162);

    let feb28 = Date::new(2020, 2, 28).unwrap();
    let mar1 = Date::new(2020, 3, 1).unwrap();
    assert_eq!(mar1.day_number() - feb28.day_number(), 2);

    let feb28 = Date::new(2019, 2, 28).unwrap();
    let mar1 = Date::new(2019, 3, 1).unwrap();
    assert_eq!(mar1.day_number() - feb28.day_number(), 1);
}

#[test]
fn date_new_accepts_only_real_days() {
    assert!(Date::new(2019, 4, 30).is_some());
    assert!(Date::new(2019, 4, 31).is_none());
    assert!(Date::new(2019, 0, 1).is_none());
    assert!(Date::new(0, 1, 1).is_none());
    assert!(Date::new(10000, 1, 1).is_none());
}
