use bike_demand::common::RawRecord;
use bike_demand::data::{is_functioning, month_of_date, prepare_records};
use bike_demand::report::season_of_month;

fn row(date: &str, functioning: &str) -> RawRecord {
    RawRecord {
        date: date.to_string(),
        rented_bike_count: 254,
        hour: 0,
        temperature_tenths: 21,
        humidity_tenths: 810,
        wind_speed_tenths: 15,
        visibility_m: 20000,
        dew_point_tenths: 9,
        solar_radiation_hundredths: 0,
        rainfall_tenths: 0,
        snowfall_mm: 0,
        seasons: "Winter".to_string(),
        holiday: "No Holiday".to_string(),
        functioning_day: functioning.to_string(),
        month: 0,
    }
}

#[test]
fn month_is_the_second_field() {
    assert_eq!(month_of_date("01/12/2017"), 12);
    assert_eq!(month_of_date("15/03/2018"), 3);
    assert_eq!(month_of_date("01/7"), 7);
    assert_eq!(month_of_date("01/+4/2018"), 4);
}

#[test]
fn unreadable_month_defaults_to_one() {
    assert_eq!(month_of_date("2017"), 1);
    assert_eq!(month_of_date(""), 1);
    assert_eq!(month_of_date("01/xx/2017"), 1);
    assert_eq!(month_of_date("01//2017"), 1);
    assert_eq!(month_of_date("01/-3/2017"), 1);
    assert_eq!(month_of_date("01/99999999999/2017"), 1);
}

#[test]
fn only_yes_is_functioning() {
    assert!(is_functioning("Yes"));
    assert!(!is_functioning("No"));
    assert!(!is_functioning("yes"));
    assert!(!is_functioning("Yes "));
}

#[test]
fn prepare_keeps_functioning_days_with_months() {
    let rows = vec![
        row("01/12/2017", "Yes"),
        row("02/12/2017", "No"),
        row("03/01/2018", "Yes"),
    ];
    let kept = prepare_records(&rows);
    assert_eq!(kept.len(), 2);
    assert_eq!(kept[0].date, "01/12/2017");
    assert_eq!(kept[0].month, 12);
    assert_eq!(kept[0].rented_bike_count, 254);
    assert_eq!(kept[0].seasons, "Winter");
    assert_eq!(kept[0].holiday, "No Holiday");
    assert_eq!(kept[1].date, "03/01/2018");
    assert_eq!(kept[1].month, 1);
}

#[test]
fn seasons_by_month() {
    assert_eq!(season_of_month(3), "Spring");
    assert_eq!(season_of_month(5), "Spring");
    assert_eq!(season_of_month(6), "Summer");
    assert_eq!(season_of_month(8), "Summer");
    assert_eq!(season_of_month(9), "Fall");
    assert_eq!(season_of_month(11), "Fall");
    assert_eq!(season_of_month(12), "Winter");
    assert_eq!(season_of_month(1), "Winter");
    assert_eq!(season_of_month(0), "Winter");
}
