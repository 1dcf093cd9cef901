use dbexport::calendar::{date_and_time, date_from_ymd, time_from_hms, MAX_YEAR, MIN_YEAR};
use dbexport::definitions::{Date, DateTime, Time};
use dbexport::text::{decimal_text, push_decimal};
use dbexport::utils::{query_failure, report_query_error, FAILURE_EXIT_CODE};

#[test]
fn decimal_text_writes_without_leading_zeros() {
    assert_eq!(decimal_text(0), "0");
    assert_eq!(decimal_text(7), "7");
    assert_eq!(decimal_text(10), "10");
    assert_eq!(decimal_text(3306), "3306");
    assert_eq!(decimal_text(1_000_000), "1000000");
    assert_eq!(decimal_text(u64::MAX), "18446744073709551615");
}

#[test]
fn push_decimal_appends() {
    let mut text = "port ".to_string();
    push_decimal(&mut text, 5432);
    push_decimal(&mut text, 0);
    assert_eq!(text, "port 54320");
}

#[test]
fn dates_exist_as_the_calendar_says() {
    assert_eq!(date_from_ymd(2024, 2, 29), Some(Date { year: 2024, month: 2, day: 29 }));
    assert_eq!(date_from_ymd(2023, 2, 29), None);
    assert_eq!(date_from_ymd(2000, 2, 29), Some(Date { year: 2000, month: 2, day: 29 }));
    assert_eq!(date_from_ymd(1900, 2, 29), None);
    assert_eq!(date_from_ymd(1900, 2, 28), Some(Date { year: 1900, month: 2, day: 28 }));
    assert_eq!(date_from_ymd(-4, 2, 29), Some(Date { year: -4, month: 2, day: 29 }));
    assert_eq!(date_from_ymd(0, 2, 29), Some(Date { year: 0, month: 2, day: 29 }));
    assert_eq!(date_from_ymd(-1, 2, 29), None);
    for (month, days) in [(1, 31), (3, 31), (4, 30), (5, 31), (6, 30), (7, 31), (8, 31), (9, 30), (10, 31), (11, 30), (12, 31)] {
        assert_eq!(date_from_ymd(2023, month, days), Some(Date { year: 2023, month, day: days }));
        assert_eq!(date_from_ymd(2023, month, days + 1), None);
    }
    assert_eq!(date_from_ymd(2023, 0, 1), None);
    assert_eq!(date_from_ymd(2023, 13, 1), None);
    assert_eq!(date_from_ymd(2023, 1, 0), None);
}

#[test]
fn dates_lie_in_the_years_that_can_be_held() {
    assert_eq!(MIN_YEAR, -262143);
    assert_eq!(MAX_YEAR, 262142);
    assert_eq!(date_from_ymd(MAX_YEAR, 12, 31), Some(Date { year: MAX_YEAR, month: 12, day: 31 }));
    assert_eq!(date_from_ymd(MAX_YEAR + 1, 1, 1), None);
    assert_eq!(date_from_ymd(MIN_YEAR, 1, 1), Some(Date { year: MIN_YEAR, month: 1, day: 1 }));
    assert_eq!(date_from_ymd(MIN_YEAR - 1, 12, 31), None);
    assert_eq!(date_from_ymd(i32::MAX, 1, 1), None);
    assert_eq!(date_from_ymd(i32::MIN, 1, 1), None);
}

#[test]
fn times_of_day_exist_up_to_the_last_second() {
    assert_eq!(time_from_hms(0, 0, 0), Some(Time { hour: 0, minute: 0, second: 0 }));
    assert_eq!(time_from_hms(23, 59, 59), Some(Time { hour: 23, minute: 59, second: 59 }));
    assert_eq!(time_from_hms(24, 0, 0), None);
    assert_eq!(time_from_hms(23, 60, 0), None);
    assert_eq!(time_from_hms(23, 59, 60), None);
    assert_eq!(time_from_hms(u32::MAX, 0, 0), None);
}

#[test]
fn date_and_time_joins_the_two() {
    let date = Date { year: 2024, month: 5, day: 6 };
    let time = Time { hour: 7, minute: 8, second: 9 };
    assert_eq!(date_and_time(date, time), DateTime { date, time });
}

#[test]
fn a_failed_query_is_reported_with_its_text() {
    let query = "select * from no_such_table";
    let report = report_query_error(query, "Table 'shop.no_such_table' doesn't exist");
    assert_eq!(
        report,
        "Error while running the query:\nselect * from no_such_table\nTable 'shop.no_such_table' doesn't exist"
    );
    assert!(report.contains(query));
}

#[test]
fn a_failed_query_ends_the_tool_with_exit_code_one() {
    let query = "select * from no_such_table";
    let failure = query_failure(query, "relation \"no_such_table\" does not exist");
    assert!(failure.message.contains(query));
    assert_eq!(failure.exit_code, 1);
    assert_eq!(FAILURE_EXIT_CODE, 1);
    assert_eq!(query_failure("", "").message, "Error while running the query:\n\n");
}
