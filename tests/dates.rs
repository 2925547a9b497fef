use lazyplan::date::{naive_date_to_date, CalendarDate, DateChunked};
use lazyplan::error::PlanError;

fn d(year: i32, month: u32, day: u32) -> CalendarDate {
    CalendarDate { year, month, day }
}

#[test]
fn day_numbers() {
    assert_eq!(naive_date_to_date(d(1970, 1, 1)), 0);
    assert_eq!(naive_date_to_date(d(1969, 12, 31)), -1);
    assert_eq!(naive_date_to_date(d(2005, 9, 10)), 13036);
    assert_eq!(naive_date_to_date(d(2020, 1, 1)), 18262);
    assert_eq!(naive_date_to_date(d(2000, 2, 29)), 11016);
    assert_eq!(naive_date_to_date(d(1, 1, 1)), -719162);
}

#[test]
fn from_naive_date_columns() {
    let ca = DateChunked::from_naive_date("when", vec![d(1970, 1, 2), d(2020, 1, 1)]);
    assert_eq!(ca.name, "when");
    assert_eq!(ca.values, vec![Some(1), Some(18262)]);
    let opt = DateChunked::from_naive_date_options("when", vec![Some(d(1970, 1, 3)), None]);
    assert_eq!(opt.values, vec![Some(2), None]);
}

#[test]
fn strftime_formats_days() {
    let ca = DateChunked { name: "d".to_string(), values: vec![Some(13036), None, Some(0)] };
    let out = ca.strftime("%Y-%m-%d").unwrap();
    assert_eq!(out.name, "d");
    assert_eq!(out.values, vec![Some("2005-09-10".to_string()), None, Some("1970-01-01".to_string())]);
    let text = ca.to_string("%d/%m/%Y").unwrap();
    assert_eq!(text.values[0], Some("10/09/2005".to_string()));
}

#[test]
fn strftime_rejects_bad_input() {
    let ca = DateChunked { name: "d".to_string(), values: vec![Some(0)] };
    assert_eq!(ca.strftime("%Q").err(), Some(PlanError::ComputeError));
    let far = DateChunked { name: "d".to_string(), values: vec![Some(i32::MAX)] };
    assert_eq!(far.strftime("%Y").err(), Some(PlanError::ComputeError));
    let nulls = DateChunked { name: "d".to_string(), values: vec![None] };
    assert_eq!(nulls.strftime("%Q").unwrap().values, vec![None]);
}

#[test]
fn day_numbers_back_to_dates() {
    let dates = vec![d(2020, 2, 29), d(1969, 12, 31), d(1, 1, 1)];
    let ca = DateChunked::from_naive_date("x", dates.clone());
    let back = ca.as_date_iter().unwrap();
    assert_eq!(back, dates.into_iter().map(Some).collect::<Vec<_>>());
    let with_null = DateChunked { name: "x".to_string(), values: vec![None, Some(13036)] };
    assert_eq!(with_null.as_date_iter().unwrap(), vec![None, Some(d(2005, 9, 10))]);
    let far = DateChunked { name: "x".to_string(), values: vec![Some(i32::MIN)] };
    assert_eq!(far.as_date_iter().err(), Some(PlanError::ComputeError));
}
