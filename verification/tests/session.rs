use kbc_core::command::{
    action_id, parse_command_input, push_chunked, CommandExecutionError, CommandOutput,
    CommandRegistry, MAX_COMMAND_ACTIONS,
};
use kbc_core::protocol::CoreActionData;
use kbc_core::remote::{
    asset_url, attachment_content_type, attachment_file_name, fetch_decision, is_safe_asset_path,
    snapshot_fresh, FetchDecision, ResourceResponse,
};
use kbc_core::runtime::{RuntimeConfig, RuntimeError};
use kbc_core::session::{
    after_resume, expiry_actions, next_session_id, reaction_accepted, reaction_actions,
    registration_allowed, session_request_valid, valid_reactions, ActiveSession, SessionFollowUp,
    SessionNext,
};

fn session(reactions: &[&str], clear: bool) -> ActiveSession {
    ActiveSession {
        owner_id: "owner".to_owned(),
        channel_id: "channel".to_owned(),
        message_id: "message".to_owned(),
        reactions: reactions.iter().map(|r| r.to_string()).collect(),
        clear_reactions_on_completion: clear,
    }
}

#[test]
fn activates_and_consumes_owned_reaction_session() {
    assert!(session_request_valid("owner", "channel", 30_000_000_000, &["1️⃣".to_owned()]));
    let offered = reaction_actions("channel", "message", &["1️⃣".to_owned()]);
    assert!(matches!(
        offered.as_slice(),
        [CoreActionData::AddReaction { emoji, .. }] if emoji == "1️⃣"
    ));
    let active = session(&["1️⃣"], true);
    assert!(!reaction_accepted(&active, "channel", "other", "1️⃣"));
    assert!(reaction_accepted(&active, "channel", "owner", "1️⃣"));
    let resumed = vec![CoreActionData::SendMessage {
        channel_id: "channel".to_owned(),
        content: "1️⃣".to_owned(),
    }];
    let outcome = after_resume(&active, Some((resumed, SessionNext::Complete)));
    assert!(matches!(
        outcome.actions.as_slice(),
        [
            CoreActionData::ClearReactions { message_id, .. },
            CoreActionData::SendMessage { content, .. }
        ] if message_id == "message" && content == "1️⃣"
    ));
    assert_eq!(outcome.follow_up, SessionFollowUp::Finish);
}

#[test]
fn expires_active_session_with_cleanup_actions() {
    let active = session(&["▶️"], true);
    let expired = expiry_actions(&active, Some("受付終了".to_owned()));
    assert!(matches!(
        expired.as_slice(),
        [
            CoreActionData::ClearReactions { message_id, .. },
            CoreActionData::EditMessage { content, .. }
        ] if message_id == "message" && content == "受付終了"
    ));
    assert!(expiry_actions(&session(&["▶️"], false), None).is_empty());
}

#[test]
fn session_reactions_are_checked() {
    assert!(valid_reactions(&["a".to_owned(), "b".to_owned()]));
    assert!(!valid_reactions(&[]));
    assert!(!valid_reactions(&["a".to_owned(), "a".to_owned()]));
    assert!(!valid_reactions(&["".to_owned()]));
    let many: Vec<String> = (0..12).map(|i| i.to_string()).collect();
    assert!(!valid_reactions(&many));
    assert!(valid_reactions(&many[..11]));
    assert!(!session_request_valid("", "channel", 1, &["a".to_owned()]));
    assert!(!session_request_valid("owner", "channel", 0, &["a".to_owned()]));
    assert!(!session_request_valid("owner", "channel", 300_000_000_001, &["a".to_owned()]));
    assert!(session_request_valid("owner", "channel", 300_000_000_000, &["a".to_owned()]));
    assert!(!reaction_accepted(&session(&["a"], false), "elsewhere", "owner", "a"));
    assert!(!reaction_accepted(&session(&["a"], false), "channel", "owner", "b"));
}

#[test]
fn resumed_sessions_continue_or_open_new_ones() {
    let active = session(&["a"], false);
    let same = after_resume(&active, Some((Vec::new(), SessionNext::SameMessage(vec!["x".to_owned(), "y".to_owned()]))));
    assert_eq!(same.follow_up, SessionFollowUp::Activate);
    assert!(matches!(
        same.actions.as_slice(),
        [CoreActionData::AddReaction { emoji: a, .. }, CoreActionData::AddReaction { emoji: b, .. }]
            if a == "x" && b == "y"
    ));
    let new = after_resume(&active, Some((Vec::new(), SessionNext::NewMessage(vec!["x".to_owned()]))));
    assert_eq!(new.follow_up, SessionFollowUp::StartNew);
    assert!(new.actions.is_empty());
    let invalid = after_resume(&active, Some((Vec::new(), SessionNext::SameMessage(Vec::new()))));
    assert_eq!(invalid.follow_up, SessionFollowUp::Finish);
    let failed = after_resume(&active, None);
    assert!(matches!(
        failed.actions.as_slice(),
        [CoreActionData::SendMessage { content, .. }] if content == "❌ 選択結果の処理に失敗しました"
    ));
    assert_eq!(next_session_id(1), 2);
    assert_eq!(next_session_id(u64::MAX), 1);
    assert!(registration_allowed(0, 0, 0, 1));
    assert!(!registration_allowed(0, 1, 0, 1));
}

#[test]
fn runtime_settings_report_the_first_bad_one() {
    let c1 = RuntimeConfig { event_queue_capacity: 0, ..Default::default() };
    assert!(matches!(
        c1.validate(),
        Err(RuntimeError::InvalidQueueCapacity { queue: "event", capacity: 0, maximum: 1024 })
    ));
    let c2 = RuntimeConfig { action_queue_capacity: 1025, ..Default::default() };
    assert!(matches!(
        c2.validate(),
        Err(RuntimeError::InvalidQueueCapacity { queue: "action", capacity: 1025, maximum: 1024 })
    ));
    let c3 = RuntimeConfig { http_max_concurrency: 65, ..Default::default() };
    assert!(matches!(
        c3.validate(),
        Err(RuntimeError::InvalidConfiguration { setting: "http max concurrency", value: 65, maximum: 64 })
    ));
    let c4 = RuntimeConfig { http_request_timeout_nanos: 120_001_000_000, ..Default::default() };
    assert!(matches!(
        c4.validate(),
        Err(RuntimeError::InvalidConfiguration { setting: "HTTP request timeout milliseconds", value: 120_001, maximum: 120_000 })
    ));
    let c5 = RuntimeConfig { http_max_response_bytes: 0, ..Default::default() };
    assert!(matches!(
        c5.validate(),
        Err(RuntimeError::InvalidConfiguration { setting: "HTTP max response bytes", value: 0, .. })
    ));
    assert!(RuntimeConfig::default().validate().is_ok());
}

#[test]
fn command_lines_and_action_ids() {
    let parsed = parse_command_input("k!Gatya  R  12 ", "k!").unwrap();
    assert_eq!(parsed.name, "gatya");
    assert_eq!(parsed.arguments, vec!["R".to_owned(), "12".to_owned()]);
    assert!(parse_command_input("k!   ", "k!").is_none());
    assert!(parse_command_input("gatya", "k!").is_none());
    assert_eq!(action_id("event", 0), "action:event");
    assert_eq!(action_id("event", 1), "action:event:2");
}

#[test]
fn command_output_is_bounded() {
    let mut output = CommandOutput::new();
    for _ in 0..MAX_COMMAND_ACTIONS {
        assert!(output.push(CoreActionData::SendMessage { channel_id: "c".to_owned(), content: "x".to_owned() }).is_ok());
    }
    assert_eq!(
        output.push(CoreActionData::SendMessage { channel_id: "c".to_owned(), content: "x".to_owned() }),
        Err(CommandExecutionError::TooManyActions)
    );
    assert_eq!(output.into_actions().len(), MAX_COMMAND_ACTIONS);

    let mut chunked = CommandOutput::new();
    assert!(push_chunked(&mut chunked, "c", "hello", "json").is_ok());
    let actions = chunked.into_actions();
    assert!(matches!(
        actions.as_slice(),
        [CoreActionData::SendMessage { content, .. }] if content == "```json\nhello\n```"
    ));
}

#[test]
fn command_names_are_registered_once() {
    let registry = CommandRegistry::new(&vec![
        ("gatya".to_owned(), Vec::new()),
        ("Tut".to_owned(), vec!["enemy".to_owned()]),
    ])
    .ok()
    .unwrap();
    assert_eq!(registry.resolve("tut"), Some(1));
    assert_eq!(registry.resolve("enemy"), Some(1));
    assert_eq!(registry.resolve("gatya"), Some(0));
    assert_eq!(registry.resolve("other"), None);
    let duplicate = CommandRegistry::new(&vec![
        ("gatya".to_owned(), Vec::new()),
        ("x".to_owned(), vec!["GATYA".to_owned()]),
    ]);
    assert_eq!(duplicate.err().unwrap(), "gatya");
}

#[test]
fn asset_paths_are_checked() {
    assert!(is_safe_asset_path("Unit/uni656_m00.png"));
    assert!(is_safe_asset_path("ImageData/a_f.MAANIM"));
    assert!(!is_safe_asset_path("/Unit/a.png"));
    assert!(!is_safe_asset_path("Unit/../a.png"));
    assert!(!is_safe_asset_path("Unit//a.png"));
    assert!(!is_safe_asset_path("Unit/a.png?x"));
    assert!(!is_safe_asset_path("Unit/a.txt"));
    assert!(!is_safe_asset_path(""));
    assert_eq!(asset_url("https://x.test/", "Unit/a.png").unwrap(), "https://x.test/Unit/a.png");
    assert!(asset_url("https://x.test", "a/../b.png").is_none());
    assert_eq!(attachment_file_name("Unit/a.png"), "a.png");
    assert_eq!(attachment_file_name("Unit/"), "asset.bin");
    assert_eq!(attachment_content_type("a.PNG"), Some("image/png".to_owned()));
    assert_eq!(attachment_content_type("a.imgcut"), None);
}

#[test]
fn cached_resources_refresh_or_fall_back() {
    assert!(snapshot_fresh(true, 5, 10));
    assert!(!snapshot_fresh(true, 10, 10));
    assert!(!snapshot_fresh(false, 0, 10));
    let kept = fetch_decision(
        Some((Some("e1".to_owned()), Some("m1".to_owned()))),
        ResourceResponse::NotModified { etag: Some("e2".to_owned()), last_modified: None },
    );
    assert!(matches!(kept, FetchDecision::Revalidated { etag: Some(e), last_modified: Some(m) } if e == "e2" && m == "m1"));
    let failed = fetch_decision(None, ResourceResponse::NotModified { etag: None, last_modified: None });
    assert!(matches!(failed, FetchDecision::Failed { reason } if reason == "304 response was received without a snapshot"));
    let stale = fetch_decision(Some((None, None)), ResourceResponse::RequestFailed("down".to_owned()));
    assert!(matches!(stale, FetchDecision::Stale { reason } if reason == "down"));
    let replaced = fetch_decision(None, ResourceResponse::Parsed { etag: None, last_modified: Some("m".to_owned()) });
    assert!(matches!(replaced, FetchDecision::Replaced { etag: None, last_modified: Some(m) } if m == "m"));
}

#[test]
fn command_output_carries_a_session_request() {
    use_session_request();
    let c = RuntimeConfig { http_request_timeout_nanos: 999_999, ..Default::default() };
    assert!(matches!(
        c.validate(),
        Err(RuntimeError::InvalidConfiguration { setting: "HTTP request timeout milliseconds", value: 0, .. })
    ));
}

fn use_session_request() {
    let request = kbc_core::session::SessionRequest::new(
        "owner".to_owned(),
        "channel".to_owned(),
        30_000_000_000,
        vec!["1️⃣".to_owned()],
    )
    .ok()
    .unwrap()
    .clear_reactions_on_completion();
    assert!(request.clear_reactions_on_completion);
    let output = CommandOutput::with_session(
        CoreActionData::SendMessage { channel_id: "channel".to_owned(), content: "pick".to_owned() },
        request,
    );
    let (actions, session) = output.into_parts();
    assert_eq!(actions.len(), 1);
    assert_eq!(session.unwrap().owner_id, "owner");
    assert!(kbc_core::session::SessionRequest::new("".to_owned(), "c".to_owned(), 1, vec!["a".to_owned()]).is_err());
}
