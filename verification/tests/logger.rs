use bettercpt::logger::{civil_from_days, date_string, today_str, LogRotation, MAX_LOG_SIZE};

#[test]
fn civil_dates() {
    assert_eq!(civil_from_days(719468), (1970, 1, 1));
    assert_eq!(civil_from_days(0), (0, 3, 1));
    assert_eq!(civil_from_days(719468 + 19723), (2024, 1, 1));
    assert_eq!(civil_from_days(719468 + 19782), (2024, 2, 29));
    assert_eq!(civil_from_days(-1), (0, 2, 29));
    assert_eq!(civil_from_days(-306), (-1, 4, 30));
}

#[test]
fn date_strings() {
    assert_eq!(date_string(0), "1970-01-01");
    assert_eq!(date_string(86399), "1970-01-01");
    assert_eq!(date_string(86400), "1970-01-02");
    assert_eq!(date_string(1_709_164_800), "2024-02-29");
    assert_eq!(date_string(253_402_300_799), "9999-12-31");
    let today = today_str();
    assert_eq!(today.len(), 10);
}

#[test]
fn rotation_numbers_files_within_a_day() {
    let mut r = LogRotation::new();
    assert!(r.needs_rotation(false));
    assert_eq!(r.rotate("2024-01-01"), "bettercpt_2024-01-01.log");
    assert!(!r.needs_rotation(true));
    r.record_written(MAX_LOG_SIZE);
    assert!(r.needs_rotation(true));
    assert_eq!(r.rotate("2024-01-01"), "bettercpt_2024-01-01.1.log");
    assert_eq!(r.rotate("2024-01-01"), "bettercpt_2024-01-01.2.log");
    assert_eq!(r.current_size, 0);
    assert_eq!(r.rotate("2024-01-02"), "bettercpt_2024-01-02.log");
    assert_eq!(r.current_seq, 0);
}
