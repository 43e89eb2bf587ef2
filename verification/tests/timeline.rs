use pkg_history::timeline::assert_log_lines_order;
use pkg_history::timeline::check_log_lines_order;
use pkg_history::timeline::datetime_not_later;
use pkg_history::timeline::parse_to_datetime;
use pkg_history::timeline::DateTimeParts;
use pkg_history::timeline::TimelineFault;

#[test]
fn timestamps_are_read() {
    let p = parse_to_datetime("2023-01-05 10:12:13 status installed vim:amd64").ok().unwrap();
    assert_eq!(
        p,
        DateTimeParts { year: 2023, month: 1, day: 5, hour: 10, minute: 12, second: 13, nanosecond: 0 }
    );
    assert!(matches!(parse_to_datetime("status installed"), Err(TimelineFault::NoMatch)));
    assert!(matches!(parse_to_datetime("2023-13-05 10:12:13 x"), Err(TimelineFault::Unparsable(_))));
}

#[test]
fn timestamps_compare_chronologically() {
    let a = DateTimeParts { year: 2023, month: 1, day: 5, hour: 10, minute: 12, second: 13, nanosecond: 0 };
    let b = DateTimeParts { year: 2023, month: 2, day: 1, hour: 0, minute: 0, second: 0, nanosecond: 0 };
    assert!(datetime_not_later(&a, &b));
    assert!(!datetime_not_later(&b, &a));
    assert!(datetime_not_later(&a, &a));
}

#[test]
fn a_log_in_order_passes() {
    let contents = "2023-01-05 10:12:13 a\n2023-01-05 10:12:13 b\n2024-01-01 00:00:00 c\n";
    assert!(check_log_lines_order(contents).is_ok());
    assert!(check_log_lines_order("").is_ok());
    assert_log_lines_order(contents);
}

#[test]
fn a_line_out_of_order_is_reported() {
    let contents = "2023-01-05 10:12:13 a\n2023-01-04 10:12:13 b\n2022-01-04 10:12:13 c\n";
    let e = check_log_lines_order(contents).err().unwrap();
    assert_eq!(e.line_number, 1);
    assert_eq!(e.line, "2023-01-04 10:12:13 b");
    match e.fault {
        TimelineFault::OutOfOrder(p) => assert_eq!(p.day, 5),
        _ => panic!("the second line is out of order"),
    }
}

#[test]
fn a_line_without_timestamp_is_reported() {
    let e = check_log_lines_order("2023-01-05 10:12:13 a\nno time here\n").err().unwrap();
    assert_eq!(e.line_number, 1);
    assert!(matches!(e.fault, TimelineFault::NoMatch));
}
