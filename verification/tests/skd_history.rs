use kbc_core::schedule::civil_time;
use kbc_core::schedule::parse_header_date;
use kbc_core::skd::ScheduleType;
use kbc_core::skd_history::{select_update, HistoryFile};

fn file(timestamp: i64) -> HistoryFile {
    HistoryFile {
        data_type: ScheduleType::Gatya,
        path: format!("raw/gatya/{timestamp}.tsv"),
        timestamp,
    }
}

#[test]
fn selects_the_update_nearest_to_a_japan_day() {
    let files = vec![file(1_699_990_000), file(1_699_950_000)];
    // 1_699_950_000 is 2023-11-14 in Japan, 1_699_990_000 already 2023-11-15.
    assert_eq!(select_update(&files, Some(738_838)).unwrap().timestamp, 1_699_950_000);
    assert_eq!(select_update(&files, Some(738_839)).unwrap().timestamp, 1_699_990_000);
    assert_eq!(select_update(&files, None).unwrap().timestamp, 1_699_990_000);
    assert!(select_update(&Vec::new(), None).is_none());
}

#[test]
fn calendar_days_follow_the_civil_count() {
    // 2024-03-01 00:00 in Japan is 2024-02-29 15:00 UTC.
    assert_eq!(parse_header_date("20240301", "0000").unwrap(), 1_709_218_800);
    assert_eq!(parse_header_date("19700101", "0900").unwrap(), 0);
    assert_eq!(parse_header_date("21000301", "0900").unwrap(), 4_107_542_400);
    assert_eq!(parse_header_date("00010101", "0900").unwrap(), -62_135_596_800);
    assert!(parse_header_date("21000229", "0000").is_err());
}

#[test]
fn civil_fields_of_instants() {
    use_civil(0, (1970, 1, 1, 4, 0, 0, 0));
    use_civil(1_709_218_800, (2024, 2, 29, 4, 15, 0, 0));
    use_civil(-1, (1969, 12, 31, 3, 23, 59, 59));
    use_civil(4_107_542_399, (2100, 2, 28, 0, 23, 59, 59));
}

fn use_civil(seconds: i64, expected: (i32, u32, u32, u32, u32, u32, u32)) {
    let c = civil_time(seconds).unwrap();
    assert_eq!(
        (c.year, c.month, c.day, c.weekday_from_sunday, c.hour, c.minute, c.second),
        expected
    );
}
