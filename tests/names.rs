use forest_green::cli::help;
use forest_green::compose::output_file_name;
use forest_green::timestamp::{is_night, parse_date, time_of_day};
use forest_green::Error;

#[test]
fn parses_timestamp_and_label() {
    let (t, label) = parse_date("camX_loc_site_20230615_143022").unwrap();
    assert_eq!(t, 1686839422);
    assert_eq!(label, "15.06.2023, 14:30:22");
}

#[test]
fn parses_with_empty_leading_fields() {
    let (t, label) = parse_date("__x_20230615_000000").unwrap();
    assert_eq!(t, 1686787200);
    assert_eq!(label, "15.06.2023, 00:00:00");
}

#[test]
fn four_fields_are_malformed() {
    let name = "camX_loc_20230615_143022";
    assert_eq!(parse_date(name), Err(Error::MalformedName(name.to_string())));
}

#[test]
fn six_fields_are_malformed() {
    let name = "a_b_c_20230615_143022_x";
    assert_eq!(parse_date(name), Err(Error::MalformedName(name.to_string())));
}

#[test]
fn non_numeric_fields_are_malformed() {
    for name in ["a_b_c_2023x615_143022", "a_b_c_20230615_14302z", "a_b_c_2023061_1430222"] {
        assert_eq!(parse_date(name), Err(Error::MalformedName(name.to_string())));
    }
}

#[test]
fn out_of_range_calendar_values_are_malformed() {
    for name in [
        "a_b_c_20231315_143022",
        "a_b_c_20230230_143022",
        "a_b_c_20230615_243022",
        "a_b_c_20230615_146022",
        "a_b_c_20230615_143060",
    ] {
        assert_eq!(parse_date(name), Err(Error::MalformedName(name.to_string())));
    }
}

#[test]
fn leap_day_parses() {
    assert!(parse_date("a_b_c_20240229_120000").is_ok());
    assert!(parse_date("a_b_c_20230229_120000").is_err());
}

#[test]
fn night_window_wrapping_midnight() {
    let day = 1686787200; // 2023-06-15 00:00:00
    let start = 20 * 3600;
    let end = 6 * 3600;
    assert!(is_night(day + 23 * 3600, start, end));
    assert!(is_night(day + 5 * 3600, start, end));
    assert!(!is_night(day + 12 * 3600, start, end));
    assert!(is_night(day + 20 * 3600, start, end));
    assert!(!is_night(day + 6 * 3600, start, end));
}

#[test]
fn equal_night_bounds_are_always_night() {
    let day = 1686787200;
    for h in 0..24 {
        assert!(is_night(day + h * 3600, 6 * 3600, 6 * 3600));
        assert!(is_night(day + h * 3600 + 1799, 0, 0));
    }
}

#[test]
fn time_of_day_before_the_epoch() {
    assert_eq!(time_of_day(-1), 86399);
    assert_eq!(time_of_day(86400 * 3 + 5), 5);
}

#[test]
fn output_name_appends_instant() {
    let name = output_file_name("a_b_c_20230615_143022", "jpg", 1686839422).unwrap();
    assert_eq!(name, "a_b_c_20230615_143022_green2023-06-15 14:30:22 UTC.jpg");
}

#[test]
fn help_names_the_configuration_file() {
    assert_eq!(help(), "usage: forest-green [<configuration_file>]\n");
}
