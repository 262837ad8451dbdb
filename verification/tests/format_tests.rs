use fast_log::Level;
use fast_log::appender::{FastLogFormatRecord, FastLogRecord};
use fast_log::clock::{Timestamp, older_than, stamp_seconds};
use fast_log::consts::LogSize;
use fast_log::error::LogError;

fn ts(year: u32, month: u32, day: u32, hour: u32, minute: u32, second: u32, micros: u32) -> Timestamp {
    Timestamp { year, month, day, hour, minute, second, micros }
}

#[test]
fn default_formatter_renders_one_line() {
    let fmt = FastLogFormatRecord::new();
    let mut rec = FastLogRecord::new_record(
        Level::Info,
        "t".to_string(),
        "hello".to_string(),
        "my_mod".to_string(),
        "f.rs".to_string(),
        Some(7),
        ts(2024, 1, 2, 3, 4, 5, 7),
    );
    fmt.do_format(&mut rec);
    assert_eq!(rec.formatted, "2024-01-02T03:04:05.000007 INFO my_mod - hello\n");
}

#[test]
fn formatter_prints_every_level_tag() {
    let fmt = FastLogFormatRecord::new();
    let cases = [
        (Level::Error, "ERROR"),
        (Level::Warn, "WARN"),
        (Level::Info, "INFO"),
        (Level::Debug, "DEBUG"),
        (Level::Trace, "TRACE"),
    ];
    for (level, tag) in cases {
        let mut rec = FastLogRecord::new_record(
            level,
            "t".to_string(),
            "x".to_string(),
            "m".to_string(),
            "f.rs".to_string(),
            None,
            ts(2024, 12, 31, 23, 59, 58, 999999),
        );
        fmt.do_format(&mut rec);
        assert_eq!(rec.formatted, format!("2024-12-31T23:59:58.999999 {} m - x\n", tag));
    }
}

#[test]
fn control_records_carry_their_sentinels() {
    let f = FastLogRecord::flush_record(ts(2024, 1, 1, 0, 0, 0, 0));
    assert_eq!(f.args, "flush");
    assert_eq!(f.formatted, "flush");
    let e = FastLogRecord::exit_record(ts(2024, 1, 1, 0, 0, 0, 0));
    assert_eq!(e.args, "exit");
    assert_eq!(e.formatted, "exit");
}

#[test]
fn calendar_seconds_count_real_days() {
    let epoch = stamp_seconds(&ts(1970, 1, 1, 0, 0, 0, 0));
    assert_eq!(epoch, 719468 * 86400);
    let a = stamp_seconds(&ts(2024, 1, 1, 0, 0, 0, 0));
    let b = stamp_seconds(&ts(2024, 1, 2, 0, 0, 0, 0));
    assert_eq!(b - a, 86400);
    // 2024 is a leap year.
    let c = stamp_seconds(&ts(2024, 2, 28, 12, 0, 0, 0));
    let d = stamp_seconds(&ts(2024, 3, 1, 12, 0, 0, 0));
    assert_eq!(d - c, 2 * 86400);
    // And the known distance from the epoch to the millennium.
    let y2k = stamp_seconds(&ts(2000, 1, 1, 0, 0, 0, 0));
    assert_eq!(y2k - epoch, 946684800);
}

#[test]
fn older_than_compares_against_now() {
    let now = ts(2024, 1, 2, 3, 4, 5, 0);
    assert!(older_than(&ts(2024, 1, 2, 2, 0, 0, 0), &now, 3600));
    assert!(!older_than(&ts(2024, 1, 2, 2, 4, 5, 0), &now, 3600));
    // A timestamp in the future is never "older".
    assert!(!older_than(&ts(2024, 1, 2, 9, 0, 0, 0), &now, 3600));
}

#[test]
fn the_clock_reports_fields_in_range() {
    let t = Timestamp::now();
    assert!((1970..=9999).contains(&t.year));
    assert!((1..=12).contains(&t.month));
    assert!((1..=31).contains(&t.day));
    assert!(t.hour < 24 && t.minute < 60 && t.second < 60 && t.micros < 1000000);
}

#[test]
fn log_sizes_in_bytes() {
    assert_eq!(LogSize::KB(3).get_len(), 3072);
    assert_eq!(LogSize::MB(1).get_len(), 1048576);
    assert_eq!(LogSize::GB(1).get_len(), 1073741824);
}

#[test]
fn error_messages_name_their_kind() {
    assert_eq!(LogError::NotInitialized.message(), "logger is not initialized");
    assert_eq!(LogError::AlreadyInitialized.message(), "logger is already initialized");
    assert_eq!(LogError::EmptyAppenders.message(), "appenders can not be empty");
    assert_eq!(LogError::IoError("t.log".to_string()).message(), "io error");
    assert_eq!(LogError::PackerError("x".to_string()).message(), "packer error");
    assert_eq!(LogError::SendFailed.message(), "send failed");
}
