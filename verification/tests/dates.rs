use sitegen::format_date;

#[test]
fn formats_plain_date() {
    assert_eq!(format_date("2024-03-07"), "March 7, 2024");
}

#[test]
fn unknown_month_still_renders_day_and_year() {
    assert_eq!(format_date("2024-13-01"), "Unknown 1, 2024");
}

#[test]
fn non_numeric_input_is_returned_unchanged() {
    assert_eq!(format_date("not-a-date"), "not-a-date");
}

#[test]
fn time_suffix_is_ignored() {
    assert_eq!(format_date("2024-01-05T10:30:00Z"), "January 5, 2024");
}

#[test]
fn wrong_segment_count_is_returned_unchanged() {
    assert_eq!(format_date("2024"), "2024");
    assert_eq!(format_date("2024-03"), "2024-03");
    assert_eq!(format_date("2024-03-07-08"), "2024-03-07-08");
}

#[test]
fn single_digit_month_is_not_in_the_table() {
    assert_eq!(format_date("2024-3-07"), "Unknown 7, 2024");
}

#[test]
fn december_day_without_leading_zero() {
    assert_eq!(format_date("1999-12-10"), "December 10, 1999");
}

#[test]
fn empty_segments_are_not_numeric() {
    assert_eq!(format_date("--"), "--");
}
