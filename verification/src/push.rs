//! The `push` command: where and how update notifications are posted.
use vstd::prelude::*;

use crate::maint::is_snowflake;
use crate::settings::{NotificationCategory, MAX_SKD_RELATED_URLS};
use crate::text::{
    append, append_str, chars_of, chars_of_all, eq_ignore_case, eq_str, fmt_usize, is_all_digits, lower_seq, parse_u64,
    spec_starts_with, string_of, strip_prefix, to_lower, views,
};

verus! {

pub const USAGE_MESSAGE: &'static str = "使い方: o.push skd|ad|notice [off] / o.push skd|ad|notice role:<ロールID> [del] / o.push skd url <URL> add|del";

pub const PERMISSION_MESSAGE: &'static str = "通知先の変更にはBot管理者・Botメンテナー権限が必要です。";

#[derive(Debug)]
pub enum PushRequest {
    Subscription { category: NotificationCategory, enabled: bool },
    Role { category: NotificationCategory, role_id: String, enabled: bool },
    RelatedUrl { url: String, enabled: bool },
}

pub enum PushRequestView {
    Subscription { category: NotificationCategory, enabled: bool },
    Role { category: NotificationCategory, role_id: Seq<char>, enabled: bool },
    RelatedUrl { url: Seq<char>, enabled: bool },
}

impl View for PushRequest {
    type V = PushRequestView;

    open spec fn view(&self) -> PushRequestView {
        match self {
            PushRequest::Subscription { category, enabled } => PushRequestView::Subscription { category: *category, enabled: *enabled },
            PushRequest::Role { category, role_id, enabled } => PushRequestView::Role {
                category: *category,
                role_id: role_id@,
                enabled: *enabled,
            },
            PushRequest::RelatedUrl { url, enabled } => PushRequestView::RelatedUrl { url: url@, enabled: *enabled },
        }
    }
}

/// A role id, bare or as `<@&…>`: 17 to 20 digits naming a positive number.
pub open spec fn spec_role_id(value: Seq<char>) -> Option<Seq<char>> {
    let inner = if spec_starts_with(value, "<@&"@) && value.len() >= 4 && value.last() == '>' {
        value.subrange(3, value.len() - 1)
    } else {
        value
    };
    if is_snowflake(inner) {
        Some(inner)
    } else {
        None
    }
}

pub fn normalize_role_id(value: &[char]) -> (r: Option<Vec<char>>)
    ensures
        match r {
            Some(v) => spec_role_id(value@) == Some(v@),
            None => spec_role_id(value@) is None,
        },
{
    proof {
        reveal_strlit("<@&");
    }
    let inner = match strip_prefix(value, "<@&") {
        Some(rest) => if rest.len() > 0 && rest[rest.len() - 1] == '>' {
            assert(rest@.drop_last() =~= value@.subrange(3, value@.len() - 1));
            crate::text::slice(rest.as_slice(), 0, rest.len() - 1)
        } else {
            crate::text::slice(value, 0, value.len())
        },
        None => crate::text::slice(value, 0, value.len()),
    };
    assert(value@.subrange(0, value@.len() as int) =~= value@);
    if inner.len() < 17 || inner.len() > 20 || !is_all_digits(inner.as_slice()) {
        return None;
    }
    match parse_u64(inner.as_slice()) {
        Some(n) => if n > 0 {
            Some(inner)
        } else {
            None
        },
        None => None,
    }
}

pub open spec fn ic(a: Seq<char>, b: Seq<char>) -> bool {
    lower_seq(a) == lower_seq(b)
}

pub open spec fn spec_category(value: Seq<char>) -> Option<NotificationCategory> {
    let l = lower_seq(value);
    if l == "skd"@ {
        Some(NotificationCategory::Skd)
    } else if l == "ad"@ {
        Some(NotificationCategory::Ad)
    } else if l == "notice"@ {
        Some(NotificationCategory::Notice)
    } else {
        None
    }
}

/// `skd|ad|notice [off]`, `skd|ad|notice role:<id> [del]` or
/// `skd url <URL> add|del`; anything else is refused.
pub open spec fn spec_request(args: Seq<Seq<char>>) -> Option<PushRequestView> {
    if args.len() == 0 || args.len() > 4 {
        None
    } else {
        match spec_category(args[0]) {
            None => None,
            Some(category) => if category == NotificationCategory::Skd && args.len() == 4 && ic(args[1], "url"@) {
                if ic(args[3], "add"@) {
                    Some(PushRequestView::RelatedUrl { url: args[2], enabled: true })
                } else if ic(args[3], "del"@) {
                    Some(PushRequestView::RelatedUrl { url: args[2], enabled: false })
                } else {
                    None
                }
            } else if args.len() >= 2 && spec_starts_with(args[1], "role:"@) && spec_role_id(args[1].skip(5)) is Some {
                let role_id = spec_role_id(args[1].skip(5))->Some_0;
                if args.len() == 2 {
                    Some(PushRequestView::Role { category, role_id, enabled: true })
                } else if ic(args[2], "del"@) {
                    Some(PushRequestView::Role { category, role_id, enabled: false })
                } else {
                    None
                }
            } else if args.len() == 1 {
                Some(PushRequestView::Subscription { category, enabled: true })
            } else if ic(args[1], "off"@) && args.len() == 2 {
                Some(PushRequestView::Subscription { category, enabled: false })
            } else {
                None
            }
        }
    }
}

fn parse_category(value: &[char]) -> (r: Option<NotificationCategory>)
    ensures
        r == spec_category(value@),
{
    let l = to_lower(value);
    if eq_str(l.as_slice(), "skd") {
        Some(NotificationCategory::Skd)
    } else if eq_str(l.as_slice(), "ad") {
        Some(NotificationCategory::Ad)
    } else if eq_str(l.as_slice(), "notice") {
        Some(NotificationCategory::Notice)
    } else {
        None
    }
}

/// Reads the arguments of `push`.
pub fn parse_request(arguments: &[String]) -> (r: Option<PushRequest>)
    ensures
        match r {
            Some(req) => spec_request(crate::text::string_views(arguments@)) == Some(req@),
            None => spec_request(crate::text::string_views(arguments@)) is None,
        },
{
    proof {
        reveal_strlit("role:");
    }
    let args = chars_of_all(arguments);
    let ghost a = views(args@);
    assert(a == crate::text::string_views(arguments@));
    if args.len() == 0 || args.len() > 4 {
        return None;
    }
    let category = match parse_category(args[0].as_slice()) {
        Some(c) => c,
        None => {
            return None;
        },
    };
    assert(a[0] == args@[0]@);
    if category == NotificationCategory::Skd && args.len() == 4 && eq_ignore_case(args[1].as_slice(), "url") {
        assert(a[1] == args@[1]@ && a[2] == args@[2]@ && a[3] == args@[3]@);
        if eq_ignore_case(args[3].as_slice(), "add") {
            return Some(PushRequest::RelatedUrl { url: string_of(args[2].as_slice()), enabled: true });
        } else if eq_ignore_case(args[3].as_slice(), "del") {
            return Some(PushRequest::RelatedUrl { url: string_of(args[2].as_slice()), enabled: false });
        } else {
            return None;
        }
    }
    if args.len() >= 2 {
        assert(a[1] == args@[1]@);
        match strip_prefix(args[1].as_slice(), "role:") {
            Some(rest) => match normalize_role_id(rest.as_slice()) {
                Some(role_id) => {
                    if args.len() == 2 {
                        return Some(PushRequest::Role { category, role_id: string_of(role_id.as_slice()), enabled: true });
                    }
                    assert(a[2] == args@[2]@);
                    if eq_ignore_case(args[2].as_slice(), "del") {
                        return Some(PushRequest::Role { category, role_id: string_of(role_id.as_slice()), enabled: false });
                    }
                    return None;
                },
                None => {},
            },
            None => {},
        }
    }
    if args.len() == 1 {
        return Some(PushRequest::Subscription { category, enabled: true });
    }
    if eq_ignore_case(args[1].as_slice(), "off") && args.len() == 2 {
        return Some(PushRequest::Subscription { category, enabled: false });
    }
    None
}

// ---------------------------------------------------------------------------
// Replies
// ---------------------------------------------------------------------------

pub open spec fn label_of(c: NotificationCategory) -> Seq<char> {
    match c {
        NotificationCategory::Skd => "skd"@,
        NotificationCategory::Ad => "ad"@,
        NotificationCategory::Notice => "notice"@,
        NotificationCategory::UpdateAndroid => "update android"@,
        NotificationCategory::UpdateIos => "update ios"@,
    }
}

/// The reply once a channel is subscribed or unsubscribed.
pub open spec fn spec_subscription_reply(category: NotificationCategory, enabled: bool) -> Seq<char> {
    label_of(category) + "の更新通知をこのチャンネルで"@ + (if enabled {
        "登録"@
    } else {
        "解除"@
    }) + "しました。"@
}

pub fn subscription_reply(category: NotificationCategory, enabled: bool) -> (r: String)
    ensures
        r@ == spec_subscription_reply(category, enabled),
{
    let mut v = chars_of(category.label());
    append_str(&mut v, "の更新通知をこのチャンネルで");
    append_str(&mut v, if enabled {
        "登録"
    } else {
        "解除"
    });
    append_str(&mut v, "しました。");
    string_of(v.as_slice())
}

/// The reply when saving a subscription failed with a storage code.
pub open spec fn spec_subscription_error(code: Seq<char>) -> Seq<char> {
    if code == "not-configured"@ {
        "❌ 通知先の保存先が設定されていません。"@
    } else {
        "❌ 通知先の保存に失敗しました。時間をおいて再度お試しください。"@
    }
}

pub fn subscription_error(code: &str) -> (r: &'static str)
    ensures
        r@ == spec_subscription_error(code@),
{
    if eq_str(chars_of(code).as_slice(), "not-configured") {
        "❌ 通知先の保存先が設定されていません。"
    } else {
        "❌ 通知先の保存に失敗しました。時間をおいて再度お試しください。"
    }
}

/// The reply once a mention role was added or removed, or already was.
pub open spec fn spec_role_reply(category: NotificationCategory, role_id: Seq<char>, enabled: bool, changed: bool) -> Seq<char> {
    let tail = if enabled && changed {
        "` を追加しました。"@
    } else if enabled {
        "` は追加済みです。"@
    } else if changed {
        "` を削除しました。"@
    } else {
        "` は登録されていません。"@
    };
    label_of(category) + (if enabled {
        "通知のメンションへロール `"@
    } else if changed {
        "通知のメンションからロール `"@
    } else {
        "通知のメンションにロール `"@
    }) + role_id + tail
}

pub fn role_reply(category: NotificationCategory, role_id: &str, enabled: bool, changed: bool) -> (r: String)
    ensures
        r@ == spec_role_reply(category, role_id@, enabled, changed),
{
    let mut v = chars_of(category.label());
    append_str(&mut v, if enabled {
        "通知のメンションへロール `"
    } else if changed {
        "通知のメンションからロール `"
    } else {
        "通知のメンションにロール `"
    });
    append_str(&mut v, role_id);
    append_str(&mut v, if enabled && changed {
        "` を追加しました。"
    } else if enabled {
        "` は追加済みです。"
    } else if changed {
        "` を削除しました。"
    } else {
        "` は登録されていません。"
    });
    string_of(v.as_slice())
}

/// The reply when changing a mention role failed with a storage code.
pub open spec fn spec_role_error(code: Seq<char>) -> Seq<char> {
    if code == "notification-role-not-registered"@ {
        "❌ このロールは `o.maint pushsetting <ロールID> add` で登録されていません。"@
    } else if code == "subscription-not-found"@ {
        "❌ 先にこのチャンネルを通知先として登録してください。"@
    } else {
        "❌ 通知メンション設定の保存に失敗しました。"@
    }
}

pub fn role_error(code: &str) -> (r: &'static str)
    ensures
        r@ == spec_role_error(code@),
{
    let c = chars_of(code);
    if eq_str(c.as_slice(), "notification-role-not-registered") {
        "❌ このロールは `o.maint pushsetting <ロールID> add` で登録されていません。"
    } else if eq_str(c.as_slice(), "subscription-not-found") {
        "❌ 先にこのチャンネルを通知先として登録してください。"
    } else {
        "❌ 通知メンション設定の保存に失敗しました。"
    }
}

/// The reply once a related site was added or removed, or already was.
pub open spec fn spec_url_reply(enabled: bool, changed: bool) -> Seq<char> {
    if enabled && changed {
        "skd通知の関連サイトへURLを追加しました。"@
    } else if enabled {
        "このURLはskd通知の関連サイトへ追加済みです。"@
    } else if changed {
        "skd通知の関連サイトからURLを削除しました。"@
    } else {
        "このURLはskd通知の関連サイトに登録されていません。"@
    }
}

pub fn url_reply(enabled: bool, changed: bool) -> (r: &'static str)
    ensures
        r@ == spec_url_reply(enabled, changed),
{
    if enabled && changed {
        "skd通知の関連サイトへURLを追加しました。"
    } else if enabled {
        "このURLはskd通知の関連サイトへ追加済みです。"
    } else if changed {
        "skd通知の関連サイトからURLを削除しました。"
    } else {
        "このURLはskd通知の関連サイトに登録されていません。"
    }
}

/// The reply when changing a related site failed with a storage code.
pub open spec fn spec_url_error(code: Seq<char>) -> Seq<char> {
    if code == "invalid-related-url"@ {
        "❌ `http://` または `https://` で始まる有効なURLを指定してください。"@
    } else if code == "related-url-limit-reached"@ {
        "❌ 関連サイトURLは最大"@ + crate::text::decimal(MAX_SKD_RELATED_URLS as nat) + "件です。URLを短くする必要がある場合もあります。"@
    } else {
        "❌ 関連サイト設定の保存に失敗しました。"@
    }
}

pub fn url_error(code: &str) -> (r: String)
    ensures
        r@ == spec_url_error(code@),
{
    let c = chars_of(code);
    if eq_str(c.as_slice(), "invalid-related-url") {
        string_of(chars_of("❌ `http://` または `https://` で始まる有効なURLを指定してください。").as_slice())
    } else if eq_str(c.as_slice(), "related-url-limit-reached") {
        let mut v = chars_of("❌ 関連サイトURLは最大");
        append(&mut v, fmt_usize(MAX_SKD_RELATED_URLS).as_slice());
        append_str(&mut v, "件です。URLを短くする必要がある場合もあります。");
        string_of(v.as_slice())
    } else {
        string_of(chars_of("❌ 関連サイト設定の保存に失敗しました。").as_slice())
    }
}

// ---------------------------------------------------------------------------
// Running the command
// ---------------------------------------------------------------------------

pub const PERMISSION_LOAD_FAILED_MESSAGE: &'static str =
    "❌ 権限情報の読み込みに失敗しました。時間をおいて再度お試しください。";

/// What `push` does with its arguments before it asks for the caller's
/// permission: show its help, show its usage, or go on with a request.
pub enum PushStart {
    Help,
    Usage,
    Request(PushRequest),
}

/// A lone `help` (ASCII case ignored) asks for the help text; arguments
/// that are no request get the usage text.
pub fn push_start(arguments: &[String]) -> (r: PushStart)
    ensures
        match r {
            PushStart::Help => arguments@.len() == 1 && lower_seq(arguments@[0]@) == "help"@,
            PushStart::Usage => !(arguments@.len() == 1 && lower_seq(arguments@[0]@) == "help"@) && spec_request(
                crate::text::string_views(arguments@),
            ) is None,
            PushStart::Request(req) => !(arguments@.len() == 1 && lower_seq(arguments@[0]@) == "help"@)
                && spec_request(crate::text::string_views(arguments@)) == Some(req@),
        },
{
    if arguments.len() == 1 {
        let a = to_lower(chars_of(arguments[0].as_str()).as_slice());
        if crate::text::eq_str(a.as_slice(), "help") {
            return PushStart::Help;
        }
    }
    match parse_request(arguments) {
        Some(req) => PushStart::Request(req),
        None => PushStart::Usage,
    }
}

/// The message that stops a request after the permission check, if any:
/// a failed permission load, a caller without permission, or a message
/// outside a server (the usage text).
pub open spec fn spec_access_stop(access: Option<bool>, in_guild: bool) -> Option<Seq<char>> {
    match access {
        None => Some(PERMISSION_LOAD_FAILED_MESSAGE@),
        Some(false) => Some(PERMISSION_MESSAGE@),
        Some(true) => if in_guild {
            None
        } else {
            Some(USAGE_MESSAGE@)
        },
    }
}

/// Decides from the permission check (`None` where it could not be loaded)
/// and whether the message came from a server.
pub fn access_stop(access: Option<bool>, in_guild: bool) -> (r: Option<&'static str>)
    ensures
        match r {
            Some(m) => spec_access_stop(access, in_guild) == Some(m@),
            None => spec_access_stop(access, in_guild) is None,
        },
{
    match access {
        None => Some(PERMISSION_LOAD_FAILED_MESSAGE),
        Some(false) => Some(PERMISSION_MESSAGE),
        Some(true) => if in_guild {
            None
        } else {
            Some(USAGE_MESSAGE)
        },
    }
}

} // verus!
