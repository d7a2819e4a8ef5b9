use kbc_core::gatya::{
    mode_for_type, mode_label, mode_matches_type, modes, parse_mode, parse_request, parse_target,
    type_for_mode, type_tag, GachaMode, GachaTarget, GatyaRequest,
};

fn chars(s: &str) -> Vec<char> {
    s.chars().collect()
}

#[test]
fn parses_supported_gatya_requests() {
    assert!(matches!(parse_request(&[]), GatyaRequest::Schedule { mode: None }));
    assert!(matches!(
        parse_request(&["E".to_owned(), "12".to_owned()]),
        GatyaRequest::Detail { mode: Some(GachaMode::Event), target: GachaTarget::Gacha(12) }
    ));
    assert!(matches!(
        parse_request(&["R".to_owned(), "s7".to_owned(), "json".to_owned()]),
        GatyaRequest::Json { mode: Some(GachaMode::Rare), target: GachaTarget::Series(7) }
    ));
}

#[test]
fn falls_back_to_a_search_of_the_remaining_words() {
    match parse_request(&["n".to_owned(), "ネコ".to_owned(), "祭".to_owned()]) {
        GatyaRequest::Search { mode, query } => {
            assert_eq!(mode, Some(GachaMode::Normal));
            assert_eq!(query, "ネコ 祭");
        }
        other => panic!("unexpected {other:?}"),
    }
    assert!(matches!(
        parse_request(&["3".to_owned(), "RAW".to_owned()]),
        GatyaRequest::Raw { mode: None, target: GachaTarget::Gacha(3) }
    ));
    assert!(matches!(
        parse_request(&["3".to_owned(), "x".to_owned()]),
        GatyaRequest::Search { mode: None, .. }
    ));
}

#[test]
fn reads_modes_and_targets() {
    assert_eq!(parse_mode(&chars("r")), Some(GachaMode::Rare));
    assert_eq!(parse_mode(&chars("x")), None);
    assert_eq!(parse_target(&chars("-5")), Some(GachaTarget::Gacha(-5)));
    assert_eq!(parse_target(&chars("S12")), Some(GachaTarget::Series(12)));
    assert_eq!(parse_target(&chars("s")), None);
    assert_eq!(parse_target(&chars("s+1")), None);
    assert_eq!(parse_target(&chars("s99999999999999999999")), None);
}

#[test]
fn maps_between_modes_and_types() {
    assert_eq!(mode_for_type(1), GachaMode::Rare);
    assert_eq!(mode_for_type(4), GachaMode::Event);
    assert_eq!(mode_for_type(7), GachaMode::Normal);
    for mode in [GachaMode::Rare, GachaMode::Event, GachaMode::Normal] {
        assert_eq!(mode_for_type(type_for_mode(mode)), mode);
        assert_eq!(parse_mode(&chars(mode_label(mode))), Some(mode));
    }
    assert_eq!(type_tag(4), " <イベント>");
    assert_eq!(type_tag(0), " <ノーマル>");
    assert_eq!(type_tag(1), "");
    assert!(mode_matches_type(None, 9));
    assert!(!mode_matches_type(Some(GachaMode::Rare), 4));
    assert_eq!(modes(None).len(), 3);
    assert_eq!(modes(Some(GachaMode::Event)), vec![GachaMode::Event]);
}
