use kbc_core::skd::{format_types, parse_date, with_related_sites, ScheduleType};

fn args(values: &[&str]) -> Vec<String> {
    values.iter().map(|v| v.to_string()).collect()
}

#[test]
fn appends_guild_related_sites() {
    let content = with_related_sites(
        "**KBC**\n<https://kbc.example/history>",
        &["https://example.com/".to_owned()],
    );

    assert_eq!(
        content.as_deref(),
        Some("**関連サイト**\n<https://kbc.example/history>\n<https://example.com/>")
    );
}

#[test]
fn leaves_other_content_and_refuses_overlong_messages() {
    assert_eq!(with_related_sites("plain", &["u".to_owned()]).as_deref(), Some("plain"));
    let long = format!("**関連サイト**\n{}", "a".repeat(1990));
    assert_eq!(with_related_sites(&long, &["https://x/".to_owned()]), None);
    assert!(with_related_sites(&long, &[]).is_some());
}

#[test]
fn reads_skd_dates() {
    assert_eq!(parse_date(&[]), Ok(None));
    assert_eq!(parse_date(&args(&["2026/07/30"])), Ok(Some((2026, 7, 30))));
    assert_eq!(parse_date(&args(&["2026", "7", "30"])), Ok(Some((2026, 7, 30))));
    assert_eq!(parse_date(&args(&["2026/02/29"])), Err(()));
    assert_eq!(parse_date(&args(&["2024/02/29"])), Ok(Some((2024, 2, 29))));
    assert_eq!(parse_date(&args(&["0999/01/01"])), Err(()));
    assert_eq!(parse_date(&args(&["26/01/01"])), Err(()));
    assert_eq!(parse_date(&args(&["2026/+1/01"])), Err(()));
}

#[test]
fn labels_schedule_types() {
    assert_eq!(format_types(&[ScheduleType::Gatya, ScheduleType::Item]), "gatya,item");
    for t in [ScheduleType::Gatya, ScheduleType::Sale, ScheduleType::Item] {
        assert_eq!(ScheduleType::parse(t.label()), Some(t));
    }
    assert_eq!(ScheduleType::parse("GATYA"), None);
}
