use std::collections::HashMap;

use kbc_core::search::{fold_search_char, normalize_search_text};
use kbc_core::tut::{
    display_name, format_label, parse_request, search_enemies, EnemySearchData, EnemySearchEntry,
    TutOperation, TutRequest, TutSearchMatch,
};

fn args(values: &[&str]) -> Vec<String> {
    values.iter().map(|v| v.to_string()).collect()
}

#[test]
fn parses_non_motion_requests_and_normalized_search() {
    assert!(matches!(parse_request(&[]), TutRequest::Landing));
    assert!(matches!(parse_request(&["origin".to_owned()]), TutRequest::Help));
    assert!(matches!(
        parse_request(&["わんこ".to_owned(), "file".to_owned()]),
        TutRequest::Search { operation: TutOperation::File, .. }
    ));

    let data = EnemySearchData {
        entries: vec![EnemySearchEntry {
            id: 1,
            display_name: "ワンコ".to_owned(),
            aliases: vec!["犬".to_owned()],
        }],
        id_index: HashMap::from([(1, 0)]),
    };
    assert_eq!(search_enemies(&data, "わんこ", false).len(), 1);
    assert_eq!(search_enemies(&data, "1", false)[0].enemy.id, 1);
}

#[test]
fn reads_tut_flags_and_operations() {
    match parse_request(&args(&["ネコ", "-FORCE", "origin"])) {
        TutRequest::Search { query, force, operation: TutOperation::Origin } => {
            assert_eq!(query, "ネコ");
            assert!(force);
        }
        other => panic!("unexpected {other:?}"),
    }
    assert!(matches!(parse_request(&args(&["a", "file", "x"])), TutRequest::InvalidFile));
    assert!(matches!(parse_request(&args(&["a", "motion", "origin"])), TutRequest::InvalidMotion));
    assert!(matches!(
        parse_request(&args(&["a", "motion", "mp4", "w"])),
        TutRequest::Search { operation: TutOperation::Motion(_), .. }
    ));
}

#[test]
fn normalizes_search_text() {
    assert_eq!(normalize_search_text("  ＡＢＣ〜カ－ド "), "abc〜かーど");
    assert_eq!(fold_search_char('ァ'), 'ぁ');
    assert_eq!(fold_search_char('~'), '〜');
    assert_eq!(fold_search_char('-'), 'ー');
    assert_eq!(fold_search_char('x'), 'x');
}

#[test]
fn finds_enemies_by_alias_and_names_dummies() {
    let data = EnemySearchData {
        entries: vec![
            EnemySearchEntry { id: 3, display_name: "ダミー".to_owned(), aliases: vec!["ダミー".to_owned(), "にゃんこ".to_owned()] },
            EnemySearchEntry { id: 4, display_name: "ブタ".to_owned(), aliases: vec![] },
        ],
        id_index: HashMap::from([(3, 0), (4, 1)]),
    };
    let found = search_enemies(&data, "ニャン", false);
    assert_eq!(found.len(), 1);
    assert_eq!(found[0].matched_alias.as_deref(), Some("にゃんこ"));
    assert_eq!(display_name(&found[0]), "にゃんこ (ダミー)");
    assert!(search_enemies(&data, "ニャン", true).is_empty());
    assert!(search_enemies(&data, "   ", false).is_empty());
    assert!(search_enemies(&data, "9", false).is_empty());
    let plain = TutSearchMatch { enemy: data.entries[0].clone(), matched_alias: None };
    assert_eq!(format_label(&plain), "3 にゃんこ (ダミー)");
}
