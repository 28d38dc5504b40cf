use daterange::InvalidDateFormat;
use daterange::Range;
use daterange::date::Date;
use daterange::date::parse_date;
use daterange::date::render_date;

#[test]
fn initial_sanity_check() {
    assert_eq!(1, 1);
}

#[test]
fn range_object_basics() {
    let range = Range::new("2021-10-01", "2021-04-01").unwrap();
    assert_eq!(range.start(), "2021-04-01");
    assert_eq!(range.end(), "2021-10-01");
    assert_eq!(range.elapsed_days(), 7 * 26 + 1);
}

#[test]
fn range_object_reversed_arguments() {
    let range = Range::new("2021-04-01", "2021-10-01").unwrap();
    assert_eq!(range.start(), "2021-04-01");
    assert_eq!(range.end(), "2021-10-01");
    assert_eq!(range.elapsed_days(), 7 * 26 + 1);
}

#[test]
fn between_checks_inside_range() {
    let range = Range::new("2021-04-01", "2021-10-01").unwrap();
    assert_eq!(range.between("2021-03-31").unwrap(), false);
    assert_eq!(range.between("2021-04-01").unwrap(), true);
    assert_eq!(range.between("2021-07-01").unwrap(), true);
    assert_eq!(range.between("2021-10-01").unwrap(), true);
    assert_eq!(range.between("2021-10-02").unwrap(), false);
}

#[test]
fn outside_checks_before_and_after_range() {
    let range = Range::new("2021-04-01", "2021-10-01").unwrap();
    assert_eq!(range.start_before("2021-03-31").unwrap(), true);
    assert_eq!(range.start_before("2021-04-01").unwrap(), false);
    assert_eq!(range.end_after("2021-10-01").unwrap(), false);
    assert_eq!(range.end_after("2021-10-02").unwrap(), true);
}

#[test]
fn construction_order_is_irrelevant() {
    let pairs: [(&str, &str); 3] = [
        ("2021-10-01", "2021-04-01"),
        ("0000-01-01", "9999-12-31"),
        ("2024-02-29", "2024-02-29"),
    ];
    for (a, b) in pairs {
        let one = Range::new(a, b).unwrap();
        let other = Range::new(b, a).unwrap();
        assert_eq!(one.start(), other.start());
        assert_eq!(one.end(), other.end());
        assert_eq!(one.elapsed_days(), other.elapsed_days());
    }
}

#[test]
fn start_never_after_end() {
    let cases: [(&str, &str); 4] = [
        ("2021-10-01", "2021-04-01"),
        ("2021-04-01", "2021-10-01"),
        ("1999-12-31", "2000-01-01"),
        ("2021-07-15", "2021-07-15"),
    ];
    for (a, b) in cases {
        let range = Range::new(a, b).unwrap();
        assert!(range.start() <= range.end());
        assert!(range.elapsed_days() >= 0);
    }
}

#[test]
fn single_day_range_has_zero_elapsed_days() {
    let range = Range::new("2021-07-15", "2021-07-15").unwrap();
    assert_eq!(range.start(), "2021-07-15");
    assert_eq!(range.end(), "2021-07-15");
    assert_eq!(range.elapsed_days(), 0);
    assert_eq!(range.between("2021-07-15").unwrap(), true);
    assert_eq!(range.start_before("2021-07-15").unwrap(), false);
    assert_eq!(range.end_after("2021-07-15").unwrap(), false);
}

#[test]
fn distinct_endpoints_have_positive_elapsed_days() {
    let range = Range::new("2021-07-15", "2021-07-16").unwrap();
    assert_eq!(range.elapsed_days(), 1);
    assert_ne!(range.start(), range.end());
}

#[test]
fn elapsed_days_crosses_leap_and_common_february() {
    assert_eq!(Range::new("2020-02-28", "2020-03-01").unwrap().elapsed_days(), 2);
    assert_eq!(Range::new("2021-02-28", "2021-03-01").unwrap().elapsed_days(), 1);
    assert_eq!(Range::new("2020-01-01", "2021-01-01").unwrap().elapsed_days(), 366);
    assert_eq!(Range::new("2021-01-01", "2022-01-01").unwrap().elapsed_days(), 365);
    assert_eq!(Range::new("0000-01-01", "0001-01-01").unwrap().elapsed_days(), 366);
}

#[test]
fn inclusive_boundaries_hold_for_endpoints() {
    let range = Range::new("2021-04-01", "2021-10-01").unwrap();
    assert_eq!(range.between(&range.start()).unwrap(), true);
    assert_eq!(range.between(&range.end()).unwrap(), true);
}

#[test]
fn each_date_falls_in_exactly_one_region() {
    let range = Range::new("2021-04-01", "2021-10-01").unwrap();
    let dates: [&str; 7] = [
        "2021-03-31",
        "2021-04-01",
        "2021-04-02",
        "2021-07-01",
        "2021-09-30",
        "2021-10-01",
        "2021-10-02",
    ];
    for d in dates {
        let before = range.start_before(d).unwrap();
        let inside = range.between(d).unwrap();
        let after = range.end_after(d).unwrap();
        let count: u32 = before as u32 + inside as u32 + after as u32;
        assert_eq!(count, 1);
    }
}

#[test]
fn rendered_endpoints_reconstruct_the_same_range() {
    let range = Range::new("2021-10-01", "2021-04-01").unwrap();
    let again = Range::new(&range.start(), &range.end()).unwrap();
    assert_eq!(again.start(), range.start());
    assert_eq!(again.end(), range.end());
    assert_eq!(again.elapsed_days(), range.elapsed_days());
}

#[test]
fn rendering_zero_pads_every_field() {
    let range = Range::new("0001-02-03", "0001-02-03").unwrap();
    assert_eq!(range.start(), "0001-02-03");
    let range = Range::new("0000-01-01", "9999-12-31").unwrap();
    assert_eq!(range.start(), "0000-01-01");
    assert_eq!(range.end(), "9999-12-31");
}

#[test]
fn malformed_first_date_is_reported() {
    assert_eq!(Range::new("2021/10/01", "2021-04-01").unwrap_err(), InvalidDateFormat::FirstDate);
    assert_eq!(Range::new("2021-10-1", "2021-04-01").unwrap_err(), InvalidDateFormat::FirstDate);
    assert_eq!(Range::new("21-10-01", "2021-04-01").unwrap_err(), InvalidDateFormat::FirstDate);
    assert_eq!(Range::new("", "2021-04-01").unwrap_err(), InvalidDateFormat::FirstDate);
    assert_eq!(Range::new("2021-13-01", "2021-04-01").unwrap_err(), InvalidDateFormat::FirstDate);
    assert_eq!(Range::new("2021-00-01", "2021-04-01").unwrap_err(), InvalidDateFormat::FirstDate);
    assert_eq!(Range::new("2021-02-30", "2021-04-01").unwrap_err(), InvalidDateFormat::FirstDate);
    assert_eq!(Range::new("2021-02-29", "2021-04-01").unwrap_err(), InvalidDateFormat::FirstDate);
    assert_eq!(Range::new("1900-02-29", "2021-04-01").unwrap_err(), InvalidDateFormat::FirstDate);
    assert_eq!(Range::new("2021-04-31", "2021-04-01").unwrap_err(), InvalidDateFormat::FirstDate);
}

#[test]
fn malformed_second_date_is_reported() {
    assert_eq!(Range::new("2021-10-01", "2021-4-01").unwrap_err(), InvalidDateFormat::SecondDate);
    assert_eq!(
        Range::new("2021-10-01", "2021-04-00").unwrap_err(),
        InvalidDateFormat::SecondDate
    );
    assert_eq!(Range::new("2021-10-01", "not-a-day").unwrap_err(), InvalidDateFormat::SecondDate);
}

#[test]
fn malformed_first_date_wins_over_second() {
    assert_eq!(Range::new("bad", "also bad").unwrap_err(), InvalidDateFormat::FirstDate);
}

#[test]
fn malformed_query_date_is_reported() {
    let range = Range::new("2021-04-01", "2021-10-01").unwrap();
    assert_eq!(range.between("2021-06-31").unwrap_err(), InvalidDateFormat::QueryDate);
    assert_eq!(range.start_before("June 2021").unwrap_err(), InvalidDateFormat::QueryDate);
    assert_eq!(range.end_after("2021 -10-01").unwrap_err(), InvalidDateFormat::QueryDate);
}

#[test]
fn leap_day_parses_in_leap_years_only() {
    assert!(parse_date("2024-02-29").is_some());
    assert!(parse_date("2000-02-29").is_some());
    assert!(parse_date("1900-02-29").is_none());
    assert!(parse_date("2021-02-29").is_none());
}

#[test]
fn parse_accepts_exactly_the_canonical_shape() {
    assert_eq!(
        parse_date("2021-04-01"),
        Some(Date { year: 2021, month: 4, day: 1 })
    );
    assert!(parse_date("2021-04-01 ").is_none());
    assert!(parse_date(" 2021-04-01").is_none());
    assert!(parse_date("2021-04-0a").is_none());
    assert!(parse_date("2021+04-01").is_none());
}

#[test]
fn render_writes_the_canonical_shape() {
    assert_eq!(render_date(&Date { year: 2021, month: 4, day: 1 }), "2021-04-01");
    assert_eq!(render_date(&Date { year: 3, month: 12, day: 31 }), "0003-12-31");
    assert_eq!(render_date(&Date { year: 9999, month: 1, day: 9 }), "9999-01-09");
}
