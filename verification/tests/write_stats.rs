use pkg_history::stats::format_duration;
use pkg_history::stats::update_stats_since;
use pkg_history::stats::Elapsed;
use pkg_history::stats::Stats;
use std::time::{Duration, SystemTime};

/// Waits until `span` has passed by the system clock.
fn wait_for(span: Duration) {
    let start = SystemTime::now();
    while start.elapsed().map(|d| d < span).unwrap_or(true) {
        std::hint::spin_loop();
    }
}

#[test]
fn duration_should_be_added() {
    let (mut d1, d2) = (Elapsed::from_secs(2), Elapsed::from_secs(3));
    d1 = d1.checked_add(&d2).unwrap();
    assert_eq!(d1.as_secs(), Elapsed::from_secs(5).as_secs());
    assert_eq!(d1.as_millis(), 5000);
}

#[test]
fn new_stats_based_on_duration_should_be_added() {
    let mut stats = Stats::new();
    Elapsed::from_secs(3).update_stats(
        String::from("some operation"),
        &mut stats,
    );
    let d = stats.get("some operation").unwrap();
    assert_eq!(3, d.as_secs());
}

#[test]
fn existing_stats_based_on_duration_should_be_updated() {
    let mut stats = Stats::new();
    Elapsed::from_secs(3).update_stats(
        String::from("some operation"),
        &mut stats,
    );
    Elapsed::from_secs(5).update_stats(
        String::from("some operation"),
        &mut stats,
    );
    let d = stats.get("some operation").unwrap();
    assert_eq!(d.as_secs(), 8,
        "{}",
        format!(
            "Duration is: {}, should be: 8", d.as_secs()
        ),
    );
}

#[test]
fn new_stats_based_on_systemtime_should_be_added() {
    let time_begin = SystemTime::now();
    wait_for(
        Duration::from_secs(3)
    );

    let mut stats = Stats::new();
    update_stats_since(
        &time_begin,
        String::from("some operation"),
        &mut stats,
    );
    let d = stats.get("some operation").unwrap();
    assert!(
        matches!(d.as_secs(), 3..=4),
        "{}",
        format!(
            "Duration is: {}", d.as_secs()
        ),
    );
}

#[test]
fn existing_stats_based_on_systemtime_should_be_updated() {
    let mut time_begin = SystemTime::now();
    wait_for(
        Duration::from_secs(3)
    );

    let mut stats = Stats::new();
    update_stats_since(
        &time_begin,
        String::from("some operation"),
        &mut stats,
    );

    time_begin = SystemTime::now();
    wait_for(
        Duration::from_secs(5)
    );
    update_stats_since(
        &time_begin,
        String::from("some operation"),
        &mut stats,
    );

    let d = stats.get("some operation").unwrap();
    assert!(
        matches!(d.as_secs(), 8..=9),
        "{}",
        format!(
            "Duration is: {}, should be: 8", d.as_secs()
        ),
    );
}

#[test]
fn stats_keep_names_apart() {
    let mut stats = Stats::new();
    Elapsed::from_secs(1).update_stats(String::from("reading"), &mut stats);
    Elapsed::from_secs(2).update_stats(String::from("sorting"), &mut stats);
    Elapsed::from_secs(4).update_stats(String::from("reading"), &mut stats);
    assert_eq!(stats.len(), 2);
    assert_eq!(stats.get("reading").unwrap().as_secs(), 5);
    assert_eq!(stats.get("sorting").unwrap().as_secs(), 2);
    assert!(stats.get("printing").is_none());
    let (name, total) = stats.entry(0);
    assert_eq!(name, "reading");
    assert_eq!(total.as_secs(), 5);
}

#[test]
fn durations_are_reported_in_minutes_seconds_or_milliseconds() {
    assert_eq!(format_duration(&Elapsed::from_secs(125)), "2min 5sec");
    assert_eq!(format_duration(&Elapsed::from_secs(2)), "0min 2sec");
    assert_eq!(format_duration(&Elapsed::from_secs(1)), "1sec 0ms");
    assert_eq!(format_duration(&Elapsed::from_secs(0)), "0ms");
    let mut stats = Stats::new();
    let before = SystemTime::now();
    update_stats_since(&before, String::from("quick"), &mut stats);
    let quick = stats.get("quick").unwrap();
    assert!(format_duration(&quick).ends_with("ms"));
}

#[test]
fn spans_beyond_the_range_do_not_add() {
    let max = Elapsed::from_secs(u64::MAX);
    assert!(max.checked_add(&Elapsed::from_secs(1)).is_none());
    assert_eq!(max.subsec_millis(), 0);
}

#[test]
fn a_measurement_is_recorded_only_where_there_is_one_that_fits() {
    let mut stats = Stats::new();
    stats.record_measurement(String::from("step"), None);
    assert!(stats.get("step").is_none());
    stats.record_measurement(String::from("step"), Some(Elapsed::from_secs(u64::MAX)));
    stats.record_measurement(String::from("step"), Some(Elapsed::from_secs(1)));
    assert_eq!(stats.get("step").unwrap().as_secs(), u64::MAX);
    let mut small = Stats::new();
    small.record_measurement(String::from("step"), Some(Elapsed::from_secs(2)));
    small.record_measurement(String::from("step"), Some(Elapsed::from_secs(3)));
    assert_eq!(small.get("step").unwrap().as_secs(), 5);
}

#[test]
fn the_epoch_readings_are_one_instant() {
    let t = pkg_history::stats::TimeBegin::new();
    assert_eq!(t.old, SystemTime::UNIX_EPOCH);
    assert_eq!(t.action_remove_push, t.old);
    let r = pkg_history::stats::TimeBeginRemoveDependecies::new();
    assert_eq!(r.package_list_remove, SystemTime::UNIX_EPOCH);
}
