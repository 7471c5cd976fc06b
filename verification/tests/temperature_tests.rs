use climate_controller::temperature::{interpret_reading, reading_is_fresh, ReadingStep};

#[test]
fn reading_of_plain_number() {
    assert_eq!(interpret_reading(Some("21500")), ReadingStep::Reading(21500));
}

#[test]
fn reading_with_sign() {
    assert_eq!(interpret_reading(Some("-1250")), ReadingStep::Reading(-1250));
    assert_eq!(interpret_reading(Some("+7")), ReadingStep::Reading(7));
}

#[test]
fn reading_with_trailing_newline_is_retried() {
    assert_eq!(interpret_reading(Some("21500\n")), ReadingStep::RetryAfterSeconds(1));
}

#[test]
fn reading_not_a_number_is_retried_after_one_second() {
    assert_eq!(interpret_reading(Some("")), ReadingStep::RetryAfterSeconds(1));
    assert_eq!(interpret_reading(Some("-")), ReadingStep::RetryAfterSeconds(1));
    assert_eq!(interpret_reading(Some("12a")), ReadingStep::RetryAfterSeconds(1));
    assert_eq!(interpret_reading(Some(" 12")), ReadingStep::RetryAfterSeconds(1));
}

#[test]
fn reading_out_of_range_is_retried() {
    assert_eq!(interpret_reading(Some("2147483647")), ReadingStep::Reading(i32::MAX));
    assert_eq!(interpret_reading(Some("-2147483648")), ReadingStep::Reading(i32::MIN));
    assert_eq!(interpret_reading(Some("2147483648")), ReadingStep::RetryAfterSeconds(1));
}

#[test]
fn unreadable_file_is_retried_after_ten_seconds() {
    assert_eq!(interpret_reading(None), ReadingStep::RetryAfterSeconds(10));
}

#[test]
fn reading_is_reused_for_one_and_a_half_seconds() {
    assert!(reading_is_fresh(0));
    assert!(reading_is_fresh(1_499_999_999));
    assert!(!reading_is_fresh(1_500_000_000));
    assert!(!reading_is_fresh(10_000_000_000));
}
