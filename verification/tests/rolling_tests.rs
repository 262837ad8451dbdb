use fast_log::clock::Timestamp;
use fast_log::file_split::RollingType;

fn ts(year: u32, month: u32, day: u32, hour: u32, minute: u32, second: u32) -> Timestamp {
    Timestamp { year, month, day, hour, minute, second, micros: 0 }
}

#[test]
fn parse_a_generated_snapshot_name() {
    let t = RollingType::All.file_name_parse_time("temp2024_01_02T03_04_05.123456.log");
    assert_eq!(t, Some(ts(2024, 1, 2, 3, 4, 5)));
}

#[test]
fn parse_ignores_everything_after_the_first_dot() {
    let t = RollingType::All.file_name_parse_time("temp2031_12_31T23_59_59.zip");
    assert_eq!(t, Some(ts(2031, 12, 31, 23, 59, 59)));
}

#[test]
fn parse_rejects_malformed_names() {
    let r = RollingType::All;
    assert_eq!(r.file_name_parse_time("temp.log"), None);
    assert_eq!(r.file_name_parse_time("other2024_01_02T03_04_05.log"), None);
    assert_eq!(r.file_name_parse_time("temp2024_13_02T03_04_05.log"), None);
    assert_eq!(r.file_name_parse_time("temp2024_01_02T25_04_05.log"), None);
    assert_eq!(r.file_name_parse_time("temp2024-01-02T03_04_05.log"), None);
    assert_eq!(r.file_name_parse_time("temp1899_01_02T03_04_05.log"), None);
    assert_eq!(r.file_name_parse_time("temp2024_01_02T03_04_0.log"), None);
    assert_eq!(r.file_name_parse_time("tem"), None);
}

#[test]
fn parse_validates_the_calendar_day() {
    let r = RollingType::All;
    assert_eq!(r.file_name_parse_time("temp2023_02_30T00_00_00.log"), None);
    assert_eq!(r.file_name_parse_time("temp2023_02_29T00_00_00.log"), None);
    assert_eq!(
        r.file_name_parse_time("temp2024_02_29T00_00_00.log"),
        Some(ts(2024, 2, 29, 0, 0, 0))
    );
    assert_eq!(r.file_name_parse_time("temp2100_02_29T00_00_00.log"), None);
    assert_eq!(
        r.file_name_parse_time("temp2000_02_29T00_00_00.log"),
        Some(ts(2000, 2, 29, 0, 0, 0))
    );
    assert_eq!(r.file_name_parse_time("temp2023_04_31T00_00_00.log"), None);
}

#[test]
fn parse_rejects_a_leap_second() {
    assert_eq!(RollingType::All.file_name_parse_time("temp2023_01_02T03_04_60.log"), None);
}

#[test]
fn read_paths_filters_and_sorts_newest_first() {
    let names = vec![
        "temp.log".to_string(),
        "temp2024_01_02T03_04_05.log".to_string(),
        "other.txt".to_string(),
        "temp2024_01_03T03_04_05.log".to_string(),
        "temp2023_12_31T00_00_00.log".to_string(),
    ];
    let sorted = RollingType::All.read_paths(names);
    assert_eq!(
        sorted,
        vec![
            "temp2024_01_03T03_04_05.log".to_string(),
            "temp2024_01_02T03_04_05.log".to_string(),
            "temp2023_12_31T00_00_00.log".to_string(),
        ]
    );
}

#[test]
fn snapshot_names_sort_in_time_order() {
    // Names generated from increasing instants sort newest first, whichever
    // calendar field carries the difference.
    let names = vec![
        "temp2024_02_01T00_00_00.000000.log".to_string(),
        "temp2024_01_31T23_59_59.999999.log".to_string(),
        "temp2024_01_31T23_59_59.000001.log".to_string(),
        "temp2023_12_31T00_00_00.000000.log".to_string(),
    ];
    let mut shuffled = names.clone();
    shuffled.rotate_left(2);
    let sorted = fast_log::file_split::RollingType::All.read_paths(shuffled);
    assert_eq!(sorted, names);
}

#[test]
fn all_removes_nothing() {
    let names = vec!["temp2024_01_02T03_04_05.log".to_string()];
    let removals = RollingType::All.do_rolling(names, &ts(2024, 1, 2, 4, 0, 0));
    assert!(removals.is_empty());
}

#[test]
fn p6_keep_num_retains_the_newest() {
    let names = vec![
        "temp.log".to_string(),
        "tempB.log".to_string(),
        "tempA.log".to_string(),
        "tempC.log".to_string(),
        "zzz".to_string(),
    ];
    let removals = RollingType::KeepNum(2).do_rolling(names, &ts(2024, 1, 2, 4, 0, 0));
    // Three candidates, the two newest names stay, the oldest goes.
    assert_eq!(removals, vec!["tempA.log".to_string()]);
}

#[test]
fn p6_keep_num_with_fewer_candidates_removes_nothing() {
    let names = vec!["temp.log".to_string(), "tempA.log".to_string()];
    let removals = RollingType::KeepNum(2).do_rolling(names, &ts(2024, 1, 2, 4, 0, 0));
    assert!(removals.is_empty());
}

#[test]
fn p7_keep_time_removes_only_the_expired() {
    let now = ts(2024, 1, 2, 3, 4, 5);
    let names = vec![
        "temp.log".to_string(),
        "temp2024_01_02T03_04_05.log".to_string(),
        "temp2024_01_02T01_00_00.log".to_string(),
        "temp2023_01_01T00_00_00.log".to_string(),
        "tempfoo.log".to_string(),
    ];
    let removals = RollingType::KeepTime(3600).do_rolling(names, &now);
    // Walked newest name first: the two-hour-old snapshot, then last year's;
    // the fresh one and the unparseable one stay.
    assert_eq!(
        removals,
        vec![
            "temp2024_01_02T01_00_00.log".to_string(),
            "temp2023_01_01T00_00_00.log".to_string(),
        ]
    );
}

#[test]
fn keep_time_boundary_is_strict() {
    let now = ts(2024, 1, 2, 4, 0, 0);
    let names = vec![
        "temp2024_01_02T03_00_00.log".to_string(),
        "temp2024_01_02T02_59_59.log".to_string(),
    ];
    let removals = RollingType::KeepTime(3600).do_rolling(names, &now);
    // Exactly one hour old is kept; one second beyond is removed.
    assert_eq!(removals, vec!["temp2024_01_02T02_59_59.log".to_string()]);
}
