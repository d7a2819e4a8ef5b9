use kbc_core::push::{access_stop, push_start, PushStart, PERMISSION_MESSAGE, USAGE_MESSAGE};

#[test]
fn push_answers_help_usage_and_permission() {
    assert!(matches!(push_start(&["HELP".to_owned()]), PushStart::Help));
    assert!(matches!(push_start(&["nonsense".to_owned()]), PushStart::Usage));
    assert!(matches!(push_start(&["skd".to_owned()]), PushStart::Request(_)));
    assert_eq!(access_stop(Some(false), true), Some(PERMISSION_MESSAGE));
    assert_eq!(access_stop(Some(true), false), Some(USAGE_MESSAGE));
    assert_eq!(access_stop(Some(true), true), None);
    assert_eq!(
        access_stop(None, true),
        Some("❌ 権限情報の読み込みに失敗しました。時間をおいて再度お試しください。")
    );
}
