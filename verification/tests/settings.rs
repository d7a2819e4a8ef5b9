use kbc_core::settings::{
    apply_maintainer, apply_notification_role, apply_notification_role_panel, apply_related_url,
    apply_subscription, apply_subscription_role, encode_path_segment, guild_path, hex_encode,
    is_maintainer, new_guild_settings, normalize_web_url, notification_path, role_for_reaction,
    sort_texts, valid_event_id, valid_maintainer_subject_id, valid_repository_name,
    valid_snowflake, validate_maintainers, validate_path, validate_settings,
    MaintainerSettings, NotificationCategory, NotificationRole, NotificationRolePanel,
    StoreVersionState, Subscription,
};
use kbc_core::store_update::StorePlatform;

fn sub(channel: &str, category: NotificationCategory) -> Subscription {
    Subscription {
        guild_id: "100".to_owned(),
        channel_id: channel.to_owned(),
        category,
        role_ids: Vec::new(),
    }
}

fn role(id: &str, name: &str) -> NotificationRole {
    NotificationRole { role_id: id.to_owned(), name: name.to_owned() }
}

#[test]
fn checks_ids_and_paths() {
    assert!(valid_snowflake("123"));
    assert!(!valid_snowflake(""));
    assert!(!valid_snowflake("12a"));
    assert!(valid_maintainer_subject_id("12345678901234567"));
    assert!(!valid_maintainer_subject_id("00000000000000000"));
    assert!(valid_repository_name("kbc-data_1.0"));
    assert!(!valid_repository_name("a/b"));
    assert!(validate_path("config/guilds/1.json").is_ok());
    assert_eq!(validate_path("config/../x").unwrap_err().code(), "invalid-path");
    assert!(validate_path("a//b").is_err());
    assert_eq!(guild_path("42").unwrap(), "config/guilds/42.json");
    assert_eq!(guild_path("x").unwrap_err().code(), "invalid-guild-id");
    assert_eq!(hex_encode(&[0x00, 0xab, 0x7f]), "00ab7f");
    assert_eq!(encode_path_segment("a b/é"), "a%20b%2F%C3%A9");
    assert!(valid_event_id("skd:2026-01-01_x"));
    assert!(!valid_event_id("bad id"));
    let path = notification_path("abc").unwrap();
    assert_eq!(
        path,
        "notifications/events/ba7816bf8f01cfea414140de5dae2223b00361a396177a9cb410ff61f20015ad.json"
    );
    assert_eq!(notification_path("").unwrap_err().code(), "invalid-event-id");
}

#[test]
fn normalizes_web_addresses() {
    assert_eq!(normalize_web_url("https://Example.com").as_deref(), Some("https://example.com/"));
    assert_eq!(normalize_web_url("ftp://example.com/"), None);
    assert_eq!(normalize_web_url("https://user@example.com/"), None);
    assert_eq!(normalize_web_url("not a url"), None);
}

#[test]
fn subscribes_and_unsubscribes_idempotently() {
    let mut settings = new_guild_settings("100");
    assert!(apply_subscription(&mut settings, sub("1", NotificationCategory::Skd), true));
    assert!(!apply_subscription(&mut settings, sub("1", NotificationCategory::Skd), true));
    assert!(apply_subscription(&mut settings, sub("1", NotificationCategory::Ad), true));
    assert_eq!(settings.subscriptions.len(), 2);
    assert!(validate_settings(&settings).is_ok());
    assert!(apply_subscription(&mut settings, sub("1", NotificationCategory::Skd), false));
    assert!(!apply_subscription(&mut settings, sub("1", NotificationCategory::Skd), false));
    assert_eq!(settings.subscriptions, vec![sub("1", NotificationCategory::Ad)]);
}

#[test]
fn manages_notification_roles() {
    let mut settings = new_guild_settings("100");
    assert_eq!(apply_notification_role(&mut settings, role("7", "ガチャ"), true), Ok(true));
    assert_eq!(apply_notification_role(&mut settings, role("7", "ガチャ"), true), Ok(false));
    assert_eq!(apply_notification_role(&mut settings, role("7", "セール"), true), Ok(true));
    assert_eq!(settings.notification_roles, vec![role("7", "セール")]);
    apply_subscription(&mut settings, sub("1", NotificationCategory::Skd), true);
    assert_eq!(
        apply_subscription_role(&mut settings, "1", NotificationCategory::Skd, "7", true),
        Ok(true)
    );
    assert_eq!(settings.subscriptions[0].role_ids, vec!["7".to_owned()]);
    assert!(validate_settings(&settings).is_ok());
    assert_eq!(
        apply_subscription_role(&mut settings, "1", NotificationCategory::Skd, "8", true)
            .unwrap_err()
            .code(),
        "notification-role-not-registered"
    );
    assert_eq!(
        apply_subscription_role(&mut settings, "2", NotificationCategory::Skd, "7", true)
            .unwrap_err()
            .code(),
        "subscription-not-found"
    );
    assert_eq!(apply_notification_role(&mut settings, role("7", "x"), false), Ok(true));
    assert!(settings.notification_roles.is_empty());
    assert!(settings.subscriptions[0].role_ids.is_empty());
    for id in 10..19 {
        assert_eq!(apply_notification_role(&mut settings, role(&id.to_string(), "r"), true), Ok(true));
    }
    assert_eq!(
        apply_notification_role(&mut settings, role("99", "r"), true).unwrap_err().code(),
        "notification-role-limit-reached"
    );
}

#[test]
fn finds_roles_by_reaction_on_the_panel() {
    let mut settings = new_guild_settings("100");
    apply_notification_role(&mut settings, role("7", "ガチャ"), true).unwrap();
    let panel = NotificationRolePanel { channel_id: "5".to_owned(), message_id: "6".to_owned() };
    assert!(apply_notification_role_panel(&mut settings, panel.clone()));
    assert!(!apply_notification_role_panel(&mut settings, panel));
    assert_eq!(role_for_reaction(Some(&settings), "100", "5", "6", 0).as_deref(), Some("7"));
    assert_eq!(role_for_reaction(Some(&settings), "100", "5", "9", 0), None);
    assert_eq!(role_for_reaction(Some(&settings), "100", "5", "6", 1), None);
    assert_eq!(role_for_reaction(None, "100", "5", "6", 0), None);
}

#[test]
fn keeps_related_sites_within_limits() {
    let mut settings = new_guild_settings("100");
    assert_eq!(apply_related_url(&mut settings, "https://example.com", true), Ok(true));
    assert_eq!(settings.skd_related_urls, vec!["https://example.com/".to_owned()]);
    assert_eq!(apply_related_url(&mut settings, "https://example.com/", true), Ok(false));
    assert_eq!(
        apply_related_url(&mut settings, "nope", true).unwrap_err().code(),
        "invalid-related-url"
    );
    assert_eq!(apply_related_url(&mut settings, "https://example.com/", false), Ok(true));
    assert!(settings.skd_related_urls.is_empty());
    let long = format!("https://example.com/{}", "a".repeat(1190));
    assert_eq!(
        apply_related_url(&mut settings, &long, true).unwrap_err().code(),
        "related-url-limit-reached"
    );
}

#[test]
fn keeps_maintainers_sorted() {
    let mut m = MaintainerSettings { schema_version: 1, subject_ids: Vec::new() };
    assert_eq!(apply_maintainer(&mut m, "22222222222222222", true), Ok(true));
    assert_eq!(apply_maintainer(&mut m, "11111111111111111", true), Ok(true));
    assert_eq!(apply_maintainer(&mut m, "11111111111111111", true), Ok(false));
    assert_eq!(m.subject_ids, vec!["11111111111111111".to_owned(), "22222222222222222".to_owned()]);
    assert!(validate_maintainers(&m).is_ok());
    assert_eq!(apply_maintainer(&mut m, "bad", true).unwrap_err().code(), "invalid-maintainer-subject");
    assert_eq!(apply_maintainer(&mut m, "22222222222222222", false), Ok(true));
    assert!(is_maintainer(&m.subject_ids, "x", &["11111111111111111".to_owned()]));
    assert!(!is_maintainer(&m.subject_ids, "x", &[]));
    assert_eq!(
        sort_texts(vec!["b".to_owned(), "ab".to_owned(), "a".to_owned()]),
        vec!["a".to_owned(), "ab".to_owned(), "b".to_owned()]
    );
    let duplicate = MaintainerSettings {
        schema_version: 1,
        subject_ids: vec!["11111111111111111".to_owned(), "11111111111111111".to_owned()],
    };
    assert_eq!(validate_maintainers(&duplicate).unwrap_err().code(), "duplicate-maintainer-subject");
}

#[test]
fn records_store_versions() {
    let mut v = StoreVersionState::default();
    assert_eq!(v.version(StorePlatform::Ios), None);
    v.set_version(StorePlatform::Ios, "15.6".to_owned());
    assert_eq!(v.version(StorePlatform::Ios), Some("15.6"));
    assert_eq!(v.version(StorePlatform::Android), None);
}

#[test]
fn rejects_inconsistent_settings() {
    let mut settings = new_guild_settings("100");
    settings.subscriptions.push(sub("1", NotificationCategory::Skd));
    settings.subscriptions.push(sub("1", NotificationCategory::Skd));
    assert_eq!(validate_settings(&settings).unwrap_err().code(), "duplicate-subscription");
    let mut other = new_guild_settings("100");
    other.notification_roles.push(role("7", "a"));
    other.notification_roles.push(role("7", "b"));
    assert_eq!(validate_settings(&other).unwrap_err().code(), "duplicate-notification-role");
    let mut wrong = new_guild_settings("100");
    wrong.subscriptions.push(Subscription { guild_id: "200".to_owned(), ..sub("1", NotificationCategory::Ad) });
    assert_eq!(validate_settings(&wrong).unwrap_err().code(), "invalid-guild-settings");
}
