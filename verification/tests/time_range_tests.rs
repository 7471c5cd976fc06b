use climate_controller::time_range::{TimeDesc, TimeOfDay, TimeRange, TimeRangeDesc, TimeRangeError};

fn at(hour: u8, minute: u8) -> TimeOfDay {
    TimeOfDay { hour, minute, second: 0, nanosecond: 0 }
}

fn desc(sh: u8, sm: u8, eh: u8, em: u8) -> TimeRangeDesc {
    TimeRangeDesc {
        start: TimeDesc { hours: sh, minutes: sm },
        end: TimeDesc { hours: eh, minutes: em },
    }
}

#[test]
fn try_from_valid_description() {
    let range = TimeRange::try_from(desc(6, 30, 18, 0)).unwrap();
    assert_eq!(range.start, at(6, 30));
    assert_eq!(range.end, at(18, 0));
}

#[test]
fn try_from_rejects_bad_start_first() {
    match TimeRange::try_from(desc(24, 0, 25, 0)) {
        Err(TimeRangeError::InvalidStart(e)) => assert_eq!(e.name(), "hour"),
        other => panic!("unexpected {other:?}"),
    }
    match TimeRange::try_from(desc(1, 60, 2, 0)) {
        Err(TimeRangeError::InvalidStart(e)) => assert_eq!(e.name(), "minute"),
        other => panic!("unexpected {other:?}"),
    }
}

#[test]
fn try_from_rejects_bad_end() {
    match TimeRange::try_from(desc(1, 0, 2, 60)) {
        Err(TimeRangeError::InvalidEnd(e)) => assert_eq!(e.name(), "minute"),
        other => panic!("unexpected {other:?}"),
    }
    match TimeRange::try_from(desc(1, 0, 24, 0)) {
        Err(TimeRangeError::InvalidEnd(e)) => assert_eq!(e.name(), "hour"),
        other => panic!("unexpected {other:?}"),
    }
}

#[test]
fn try_from_accepts_last_minute_of_day() {
    let range = TimeRange::from_desc(desc(0, 0, 23, 59)).unwrap();
    assert_eq!(range.end, at(23, 59));
}

#[test]
fn forward_window_includes_start_excludes_end() {
    let range = TimeRange { start: at(6, 0), end: at(18, 0) };
    assert!(range.is_met_at(at(6, 0)));
    assert!(range.is_met_at(at(12, 0)));
    assert!(!range.is_met_at(at(18, 0)));
    assert!(!range.is_met_at(at(5, 59)));
    assert!(!range.is_met_at(at(23, 0)));
}

#[test]
fn backward_window_holds_between_end_and_start() {
    // Start after end: the window holds from the end to the start.
    let range = TimeRange { start: at(22, 0), end: at(6, 0) };
    assert!(range.is_met_at(at(6, 0)));
    assert!(range.is_met_at(at(12, 0)));
    assert!(!range.is_met_at(at(22, 0)));
    assert!(!range.is_met_at(at(23, 30)));
    assert!(!range.is_met_at(at(3, 0)));
}

#[test]
fn swapped_ends_give_same_answer() {
    let a = TimeRange { start: at(8, 15), end: at(9, 45) };
    let b = TimeRange { start: at(9, 45), end: at(8, 15) };
    for hour in 0..24u8 {
        for minute in [0u8, 15, 30, 45] {
            assert_eq!(a.is_met_at(at(hour, minute)), b.is_met_at(at(hour, minute)));
        }
    }
}

#[test]
fn empty_window_never_holds() {
    let range = TimeRange { start: at(7, 0), end: at(7, 0) };
    assert!(!range.is_met_at(at(7, 0)));
    assert!(!range.is_met_at(at(12, 0)));
}

#[test]
fn seconds_and_nanoseconds_count() {
    let range = TimeRange { start: at(6, 0), end: at(18, 0) };
    let just_before_end = TimeOfDay { hour: 17, minute: 59, second: 59, nanosecond: 999_999_999 };
    assert!(range.is_met_at(just_before_end));
    let a = TimeOfDay { hour: 6, minute: 0, second: 0, nanosecond: 1 };
    assert!(a.is_earlier_than(&TimeOfDay { hour: 6, minute: 0, second: 1, nanosecond: 0 }));
    assert!(!a.is_earlier_than(&at(6, 0)));
}

#[test]
fn is_met_reads_clock_or_fails() {
    let range = TimeRange { start: at(0, 0), end: at(0, 0) };
    match range.is_met() {
        Ok(met) => assert!(!met),
        Err(_) => {},
    }
}
