use kbc_core::command::missing_help;
use kbc_core::maint::{panel_role_error, panel_role_reply, removal_role};
use kbc_core::runtime::{action_queue_end, admit_event, RuntimeError};
use kbc_core::storage::{
    after_write, check_directory, check_guild_file, check_manifest, check_repository,
    content_status, contents_url, decode_repository_file, encode_document, rate_limited,
    repository_url, repository_usable, write_confirmed, DirectoryItem, RepositoryFile, WriteNext,
};
use kbc_core::settings::StorageError;

#[test]
fn repository_files_are_decoded_and_checked() {
    let file = decode_repository_file("file", "base64", "abc", "e30=\n").ok().unwrap();
    assert_eq!(file.content, "{}");
    assert_eq!(file.sha, "abc");
    let spaced = decode_repository_file("file", "base64", "s", "aGVs\nbG8=").ok().unwrap();
    assert_eq!(spaced.content, "hello");
    assert_eq!(decode_repository_file("dir", "base64", "s", "e30=").err().unwrap().code(), "invalid-file");
    assert_eq!(decode_repository_file("file", "utf8", "s", "e30=").err().unwrap().code(), "invalid-file");
    assert_eq!(decode_repository_file("file", "base64", "", "e30=").err().unwrap().code(), "invalid-file");
    assert_eq!(decode_repository_file("file", "base64", "s", "e30").err().unwrap().code(), "invalid-base64");
    assert_eq!(decode_repository_file("file", "base64", "s", "/w==").err().unwrap().code(), "invalid-utf8");
    let big = encode_document(&"a".repeat(262_145));
    assert_eq!(big.err().unwrap().code(), "document-too-large");
    let oversized = base64::Engine::encode(&base64::engine::general_purpose::STANDARD, vec![b'a'; 262_145]);
    assert_eq!(
        decode_repository_file("file", "base64", "s", &oversized).err().unwrap().code(),
        "document-too-large"
    );
    let fitting = base64::Engine::encode(&base64::engine::general_purpose::STANDARD, vec![b'a'; 262_144]);
    assert_eq!(decode_repository_file("file", "base64", "s", &fitting).ok().unwrap().content.len(), 262_144);
    assert_eq!(encode_document("{}").ok().unwrap(), "e30=");
    assert_eq!(encode_document("é").ok().unwrap(), "w6k=");
}

#[test]
fn repository_rules() {
    assert!(repository_usable(Some(true), None, Some(false)));
    assert!(!repository_usable(None, None, None));
    assert!(!repository_usable(Some(true), Some(true), None));
    assert!(!repository_usable(Some(true), None, Some(true)));
    assert_eq!(check_repository(Some(false), None, None).err().unwrap().code(), "repository-unavailable");
    assert!(check_manifest(1, "kbc-discord-bot-data").is_ok());
    assert_eq!(check_manifest(2, "kbc-discord-bot-data").err().unwrap().code(), "invalid-manifest");
    assert_eq!(check_manifest(1, "other").err().unwrap().code(), "invalid-manifest");
    assert!(check_guild_file("config/guilds/123456789012345678.json", "123456789012345678").is_ok());
    assert_eq!(
        check_guild_file("config/guilds/1.json", "123456789012345678").err().unwrap().code(),
        "invalid-guild-path"
    );
    let items = vec![
        DirectoryItem { entry_type: "file".to_owned(), path: "config/guilds/1.json".to_owned() },
        DirectoryItem { entry_type: "file".to_owned(), path: "config/guilds/2.json".to_owned() },
    ];
    assert_eq!(check_directory("config/guilds", &items).ok().unwrap(), vec!["config/guilds/1.json", "config/guilds/2.json"]);
    let bad = vec![DirectoryItem { entry_type: "dir".to_owned(), path: "config/guilds/x".to_owned() }];
    assert_eq!(check_directory("config/guilds", &bad).err().unwrap().code(), "invalid-directory");
    let outside = vec![DirectoryItem { entry_type: "file".to_owned(), path: "config/other.json".to_owned() }];
    assert_eq!(check_directory("config/guilds", &outside).err().unwrap().code(), "invalid-directory");
    assert!(matches!(after_write(0, Err(StorageError::new("conflict"))), WriteNext::Retry));
    assert!(matches!(after_write(1, Err(StorageError::new("conflict"))), WriteNext::Failed(e) if e.code() == "conflict"));
    assert!(matches!(after_write(0, Ok(())), WriteNext::Saved));
    assert_eq!(content_status(404).ok(), Some(false));
    assert_eq!(content_status(200).ok(), Some(true));
    assert_eq!(content_status(500).err().unwrap().code(), "http-500");
    assert!(rate_limited(403, true, false));
    assert!(!rate_limited(403, false, false));
    assert_eq!(repository_url("me", "data").ok().unwrap(), "https://api.github.com/repos/me/data");
    assert_eq!(repository_url("", "data").err().unwrap().code(), "invalid-configuration");
    assert_eq!(
        contents_url("https://api.github.com/repos/me/data", "meta.json", "main"),
        "https://api.github.com/repos/me/data/contents/meta.json?ref=main"
    );
    let back = Some(RepositoryFile { content: "x".to_owned(), sha: "s".to_owned() });
    assert!(write_confirmed(&back, "x"));
    assert!(!write_confirmed(&back, "y"));
    assert!(!write_confirmed(&None, "x"));
}

#[test]
fn panel_role_replies() {
    assert_eq!(panel_role_reply(true, true, true), "通知設定へ追加しました。");
    assert_eq!(panel_role_reply(false, false, true), "通知設定には登録されていません。");
    assert_eq!(
        panel_role_reply(true, false, false),
        "通知設定へ追加済みです。\n⚠️ 選択メッセージの更新に失敗しました。`o.maint pushsetting` を再実行してください。"
    );
    assert_eq!(panel_role_error("notification-role-limit-reached"), "❌ 通知ロールは最大9件までです。");
    assert_eq!(panel_role_error("other"), "❌ 通知ロール設定の保存に失敗しました。");
    assert_eq!(removal_role("42").name, "削除対象");
}

#[test]
fn help_texts_and_event_admission() {
    let all: Vec<String> = ["index", "push", "maint", "item", "sale", "st", "skd", "tut", "ut", "gatya", "eventdata"]
        .iter()
        .map(|s| s.to_string())
        .collect();
    assert_eq!(missing_help(&all), None);
    assert_eq!(missing_help(&all[1..].to_vec()), Some("missing command help index".to_owned()));
    let without_sale: Vec<String> = all.iter().filter(|s| *s != "sale").cloned().collect();
    assert_eq!(missing_help(&without_sale), Some("missing help content for sale".to_owned()));
    assert!(matches!(admit_event(2, 1, true), Err(RuntimeError::ProtocolVersion { expected: 1, actual: 2 })));
    assert!(matches!(admit_event(1, 1, true), Err(RuntimeError::ShuttingDown)));
    assert!(admit_event(1, 1, false).is_ok());
    assert!(action_queue_end(true).is_ok());
    assert!(matches!(action_queue_end(false), Err(RuntimeError::ActionQueueClosed)));
}
