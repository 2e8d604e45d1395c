use bettercpt::watchdog::{Watchdog, WatchdogError};

#[test]
fn new_watchdog_no_timeouts() {
    let mut wd = Watchdog::new();
    wd.start("test-plugin").unwrap();
    wd.heartbeat("test-plugin").unwrap();
    assert!(wd.check().is_empty());
}

#[test]
fn missing_heartbeat_triggers_timeout() {
    let mut wd = Watchdog::new();
    wd.start("late-plugin").unwrap();
    assert!(wd.check().is_empty());
}

const SEC: u64 = 1_000_000_000;

#[test]
fn heartbeat_older_than_five_seconds_times_out() {
    let mut wd = Watchdog::new();
    wd.start_at("a", 0).unwrap();
    wd.start_at("b", 0).unwrap();
    assert!(wd.check_at(5 * SEC).is_empty());
    wd.heartbeat_at("b", 3 * SEC).unwrap();
    assert_eq!(wd.check_at(5 * SEC + 1), vec!["a".to_string()]);
    assert_eq!(wd.check_at(8 * SEC + 1), vec!["a".to_string(), "b".to_string()]);
}

#[test]
fn heartbeat_of_unwatched_plugin_refused() {
    let mut wd = Watchdog::new();
    assert_eq!(wd.heartbeat_at("ghost", 1), Err(WatchdogError::NotFound));
    wd.start_at("p", 0).unwrap();
    wd.stop("p");
    assert_eq!(wd.heartbeat("p"), Err(WatchdogError::NotFound));
    assert!(wd.check_at(100 * SEC).is_empty());
}

#[test]
fn check_is_taken_no_earlier_than_the_latest_heartbeat() {
    let mut wd = Watchdog::new();
    wd.start_at("fresh", 1000 * SEC).unwrap();
    wd.start_at("silent", 0).unwrap();
    assert_eq!(wd.check(), vec!["silent".to_string()]);
    wd.stop("silent");
    assert!(wd.check().is_empty());
}
