use kbc_core::maint::{
    is_bot_administrator, normalize_subject_id, number_emoji, panel_content, parse_maintainer_request,
    parse_request, reaction_index, role_action, role_validation_message, MaintRequest,
};
use kbc_core::settings::NotificationRole;
use kbc_core::protocol::CoreActionData;

fn args(values: &[&str]) -> Vec<String> {
    values.iter().map(|v| v.to_string()).collect()
}

#[test]
fn normalizes_user_and_role_mentions() {
    assert_eq!(
        normalize_subject_id("<@123456789012345678>"),
        Some("123456789012345678".to_owned())
    );
    assert_eq!(
        normalize_subject_id("<@&987654321098765432>"),
        Some("987654321098765432".to_owned())
    );
    assert_eq!(normalize_subject_id("00000000000000000"), None);
}

#[test]
fn rejects_ids_of_the_wrong_shape() {
    assert_eq!(normalize_subject_id("<@!12345678901234567>"), Some("12345678901234567".to_owned()));
    assert_eq!(normalize_subject_id("1234567890123456"), None);
    assert_eq!(normalize_subject_id("99999999999999999999"), None);
    assert_eq!(normalize_subject_id("<@123456789012345678"), None);
}

#[test]
fn parses_maint_requests() {
    assert_eq!(
        parse_request(&args(&["MAINTAINER", "list"])),
        Some(MaintRequest::MaintainerList)
    );
    assert_eq!(
        parse_maintainer_request(&args(&["maintainer", "123456789012345678", "DEL"])),
        Some(MaintRequest::MaintainerUpdate {
            subject_id: "123456789012345678".to_owned(),
            enabled: false
        })
    );
    assert_eq!(parse_request(&args(&["maintainer", "123456789012345678", "x"])), None);
    assert_eq!(
        parse_request(&args(&["role", "通知", "A"])),
        Some(MaintRequest::CreateRole { name: "通知 A".to_owned() })
    );
    assert_eq!(parse_request(&args(&["role", &"あ".repeat(101)])), None);
    assert_eq!(parse_request(&args(&["pushsetting"])), Some(MaintRequest::PublishRolePanel));
    assert_eq!(
        parse_request(&args(&["pushsetting", "<@&123456789012345678>", "add"])),
        Some(MaintRequest::UpdatePanelRole {
            role_id: "123456789012345678".to_owned(),
            enabled: true
        })
    );
    assert_eq!(parse_request(&args(&[])), None);
}

#[test]
fn renders_the_role_panel() {
    assert_eq!(panel_content(&[]), "```\n通知設定\n設定されている通知ロールはありません\n```");
    let roles = vec![
        NotificationRole { role_id: "1".to_owned(), name: "ガチャ`速報".to_owned() },
        NotificationRole { role_id: "2".to_owned(), name: "メンテ".to_owned() },
    ];
    assert_eq!(panel_content(&roles), "```\n通知設定\n1 ガチャ′速報\n2 メンテ\n```");
    assert_eq!(number_emoji(0), Some("1️⃣"));
    assert_eq!(number_emoji(9), None);
    assert_eq!(reaction_index("3️⃣"), Some(2));
    assert_eq!(reaction_index("x"), None);
    assert_eq!(
        role_action("g", "u", "r".to_owned(), false),
        CoreActionData::RemoveGuildMemberRole {
            guild_id: "g".to_owned(),
            user_id: "u".to_owned(),
            role_id: "r".to_owned()
        }
    );
    assert_eq!(role_validation_message("role_unavailable"), "❌ 指定したロールが見つかりません。");
    assert_eq!(role_validation_message("other"), "❌ ロールを確認できませんでした。");
    assert!(is_bot_administrator("1347420765410295928"));
    assert!(!is_bot_administrator("1"));
}
