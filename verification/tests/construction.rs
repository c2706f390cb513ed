use business::Calendar;
use business::CalendarConfig;
use business::Date;
use business::IntoDate;
use business::Weekday;

#[test]
fn construct_rejects_overlapping_dates() {
    let day = Date::from_ymd(2022, 10, 03);
    let other = Date::from_ymd(2022, 10, 10);
    let result = Calendar::construct(
        vec![Weekday::Monday],
        vec![other, day],
        vec![day],
    );
    let err = result.err().expect("overlap must be rejected");
    assert_eq!(err.conflicting, day);
    assert_eq!(
        err.message(),
        "a date is listed both as a holiday and as an extra working date"
    );
}

#[test]
fn construct_accepts_disjoint_dates() {
    let holiday = Date::from_ymd(2022, 10, 03);
    let extra = Date::from_ymd(2022, 10, 08);
    let cal = Calendar::construct(
        vec![Weekday::Monday, Weekday::Tuesday],
        vec![holiday],
        vec![extra],
    )
    .ok()
    .expect("disjoint sets must be accepted");
    assert_eq!(cal.holidays, vec![holiday]);
    assert_eq!(cal.extra_working_dates, vec![extra]);
}

#[test]
fn extra_working_date_rescues_weekend_day() {
    let saturday = Date::from_ymd(2022, 10, 01);
    let cal = Calendar::construct(
        vec![
            Weekday::Monday,
            Weekday::Tuesday,
            Weekday::Wednesday,
            Weekday::Thursday,
            Weekday::Friday,
        ],
        vec![],
        vec![saturday],
    )
    .ok()
    .expect("no overlap");
    assert_eq!(cal.is_business_day(saturday), true);

    let other_saturday = Date::from_ymd(2022, 10, 08);
    assert_eq!(cal.is_business_day(other_saturday), false);
}

#[test]
fn holiday_excludes_working_weekday() {
    let monday = Date::from_ymd(2022, 10, 03);
    let cal = Calendar::new(vec![Weekday::Monday], vec![monday]);
    assert_eq!(cal.is_business_day(monday), false);

    let next_monday = Date::from_ymd(2022, 10, 10);
    assert_eq!(cal.is_business_day(next_monday), true);
}

#[test]
fn empty_working_days_has_no_business_days() {
    let cal = Calendar::new(vec![], vec![]);
    let monday = Date::from_ymd(2022, 10, 03);
    assert_eq!(cal.is_business_day(monday), false);
}

#[test]
fn from_config_applies_defaults() {
    let config = CalendarConfig {
        working_days: None,
        holidays: None,
        extra_working_dates: None,
    };
    let cal = Calendar::from_config(config).ok().expect("defaults are valid");
    assert_eq!(cal.is_business_day(Date::from_ymd(2022, 10, 03)), true);
    assert_eq!(cal.is_business_day(Date::from_ymd(2022, 10, 01)), false);
    assert!(cal.holidays.is_empty());
    assert!(cal.extra_working_dates.is_empty());
}

#[test]
fn from_config_keeps_explicit_lists() {
    let config = CalendarConfig {
        working_days: Some(vec![Weekday::Monday, Weekday::Tuesday, Weekday::Friday]),
        holidays: Some(vec![
            Date::from_ymd(2022, 1, 1),
            Date::from_ymd(2012, 12, 25),
        ]),
        extra_working_dates: None,
    };
    let cal = Calendar::from_config(config).ok().expect("no overlap");
    assert_eq!(
        cal.working_days,
        vec![Weekday::Monday, Weekday::Tuesday, Weekday::Friday]
    );
    assert_eq!(
        cal.holidays,
        vec![Date::from_ymd(2022, 1, 1), Date::from_ymd(2012, 12, 25)]
    );
    // 2012-12-25 was a Tuesday, but it is listed as a holiday.
    assert_eq!(cal.is_business_day(Date::from_ymd(2012, 12, 25)), false);
    assert_eq!(cal.is_business_day(Date::from_ymd(2012, 12, 24)), true);
}

#[test]
fn from_config_rejects_overlap() {
    let day = Date::from_ymd(2022, 10, 03);
    let config = CalendarConfig {
        working_days: None,
        holidays: Some(vec![day]),
        extra_working_dates: Some(vec![day]),
    };
    let err = Calendar::from_config(config).err().expect("overlap");
    assert_eq!(err.conflicting, day);
}

#[test]
fn weekdays_follow_the_civil_calendar() {
    assert_eq!(Date::from_ymd(1970, 1, 1).weekday(), Weekday::Thursday);
    assert_eq!(Date::from_ymd(1969, 12, 31).weekday(), Weekday::Wednesday);
    assert_eq!(Date::from_ymd(2022, 10, 1).weekday(), Weekday::Saturday);
    assert_eq!(Date::from_ymd(2022, 10, 3).weekday(), Weekday::Monday);
    assert_eq!(Date::from_ymd(2020, 2, 29).weekday(), Weekday::Saturday);
    assert_eq!(Date::from_ymd(2000, 1, 1).weekday(), Weekday::Saturday);
    assert_eq!(Date::from_ymd(1, 1, 1).weekday(), Weekday::Monday);
}

#[test]
fn day_numbers_count_from_the_epoch() {
    assert_eq!(Date::from_ymd(1970, 1, 1).day_number(), 0);
    assert_eq!(Date::from_ymd(1970, 1, 2).day_number(), 1);
    assert_eq!(Date::from_ymd(1969, 12, 31).day_number(), -1);
    assert_eq!(Date::from_ymd(2022, 10, 1).day_number(), 19266);
    assert_eq!(Date::from_ymd(2000, 3, 1).day_number(), 11017);
}

#[test]
fn day_number_round_trip() {
    let date = Date::from_ymd(2022, 10, 1);
    assert_eq!(Date::from_day_number(19266), date);
    assert_eq!(date.add_days(2), Date::from_ymd(2022, 10, 3));
    assert_eq!(date.add_days(-1), Date::from_ymd(2022, 9, 30));
    assert_eq!(date.into_date(), date);
}

#[test]
fn add_zero_anchors_forward_and_subtract_zero_backward() {
    let sat = Date::from_ymd(2022, 10, 01);
    let cal = Calendar::workweek();

    let rolled_forward = cal.roll_forward(sat);
    let rolled_backward = cal.roll_backward(sat);
    assert_eq!(cal.add_business_days(sat, 0), rolled_forward);
    assert_eq!(cal.subtract_business_days(sat, 0), rolled_backward);

    // The two anchors differ on a non-business day.
    assert_eq!(rolled_forward, Date::from_ymd(2022, 10, 03));
    assert_eq!(rolled_backward, Date::from_ymd(2022, 09, 30));
}

#[test]
fn stepping_is_strict_on_business_days() {
    let mon = Date::from_ymd(2022, 10, 03);
    let cal = Calendar::workweek();
    assert_ne!(cal.next_business_day(mon), mon);
    assert_ne!(cal.previous_business_day(mon), mon);
}

#[test]
fn rolling_is_identity_on_business_days() {
    let cal = Calendar::workweek();
    for day in 3..8 {
        let date = Date::from_ymd(2022, 10, day);
        if cal.is_business_day(date) {
            assert_eq!(cal.roll_forward(date), date);
            assert_eq!(cal.roll_backward(date), date);
        }
    }
}
