use kbc_core::sale::{
    is_mission_id, list_stage_ids, normalized_date_key, parse_request, representative_stage_id,
    stage_name, stage_name_preserving_breaks, strip_display_markup, OrderedNames,
    SaleDisplayData, SaleEntry, SaleJson, SaleRequest,
};
use kbc_core::schedule::{format_duration, ScheduleHeader};

fn chars(s: &str) -> Vec<char> {
    s.chars().collect()
}

fn entry(stage_ids: Vec<i64>) -> SaleEntry {
    SaleEntry {
        header: ScheduleHeader {
            start_date: "20260101".to_owned(),
            start_time: "1100".to_owned(),
            end_date: "20260102".to_owned(),
            end_time: "1100".to_owned(),
            min_version: "140000".to_owned(),
            max_version: "999999".to_owned(),
        },
        time_blocks: Vec::new(),
        stage_ids,
        raw: None,
    }
}

#[test]
fn parses_supported_sale_requests() {
    assert!(matches!(parse_request(&[]), SaleRequest::Schedule));
    assert!(matches!(
        parse_request(&["102".to_owned(), "JSON".to_owned()]),
        SaleRequest::Json { id: 102 }
    ));
    assert!(matches!(
        parse_request(&["補完".to_owned(), "ステージ".to_owned()]),
        SaleRequest::Search { .. }
    ));
}

#[test]
fn formats_whole_duration_units() {
    let start = chrono::NaiveDate::from_ymd_opt(2026, 1, 1)
        .unwrap()
        .and_hms_opt(0, 0, 0)
        .unwrap()
        .and_utc()
        .timestamp();
    let end = chrono::NaiveDate::from_ymd_opt(2026, 1, 3)
        .unwrap()
        .and_hms_opt(1, 2, 59)
        .unwrap()
        .and_utc()
        .timestamp();
    assert_eq!(format_duration(start, end), "<2d1h2m>");
}

#[test]
fn reads_sale_requests_with_padding_and_modifiers() {
    match parse_request(&[" 7 ".to_owned(), "x".to_owned()]) {
        SaleRequest::Detail { id } => assert_eq!(id, 7),
        other => panic!("unexpected {other:?}"),
    }
    assert!(matches!(parse_request(&["7".to_owned(), "R".to_owned()]), SaleRequest::Raw { id: 7 }));
    match parse_request(&["  補完 ".to_owned()]) {
        SaleRequest::Search { query } => assert_eq!(query, "補完"),
        other => panic!("unexpected {other:?}"),
    }
}

#[test]
fn keeps_names_in_first_insertion_order() {
    let mut names = OrderedNames::new();
    names.insert(3, "c".to_owned());
    names.insert(1, "a".to_owned());
    names.insert(3, "C".to_owned());
    assert_eq!(names.get(3), Some("C"));
    assert_eq!(names.get(2), None);
    assert_eq!(names.entries(), vec![(3, "C".to_owned()), (1, "a".to_owned())]);
}

#[test]
fn names_stages_and_missions() {
    let mut sale_names = OrderedNames::new();
    sale_names.insert(100, "<b>開眼</b><br>ステージ".to_owned());
    let mut all_day = OrderedNames::new();
    all_day.insert(100, "other".to_owned());
    all_day.insert(200, "終日".to_owned());
    let mut missions = OrderedNames::new();
    missions.insert(5, "ミッション,説明".to_owned());
    let data = SaleDisplayData {
        sale: SaleJson { updated_at: String::new(), data: Vec::new() },
        sale_names,
        all_day_event_names: all_day,
        mission_names: missions,
        card_setting_stage_ids: vec![9, 42],
    };
    assert_eq!(stage_name(100, &data), "開眼 ステージ");
    assert_eq!(stage_name_preserving_breaks(100, &data), "開眼\nステージ");
    assert_eq!(stage_name(200, &data), "終日");
    assert_eq!(stage_name(300, &data), "不明");
    assert_eq!(stage_name(15_005, &data), "ミッション");
    assert_eq!(stage_name(8_001, &data), "不明");
    assert_eq!(
        data.merged_search_names(),
        vec![(100, "<b>開眼</b><br>ステージ".to_owned()), (200, "終日".to_owned())]
    );
    assert!(is_mission_id(9_999));
    assert!(!is_mission_id(10_000));
    assert_eq!(representative_stage_id(&entry(vec![42, 9]), &data.card_setting_stage_ids), Some(9));
    assert_eq!(representative_stage_id(&entry(vec![42]), &data.card_setting_stage_ids), None);
    assert_eq!(list_stage_ids(&entry(vec![1, 8_500, 2]), &[]), vec![1, 2]);
    assert_eq!(list_stage_ids(&entry(vec![1, 42]), &[42]), vec![42]);
    assert_eq!(strip_display_markup(&chars(" a<x>b</x> "), " "), chars("ab"));
    assert_eq!(normalized_date_key(" 1234 "), "00001234");
}
