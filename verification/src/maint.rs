//! Arguments of the `maint` command, mentions of users and roles, and the
//! notification role panel.
use vstd::prelude::*;

use crate::protocol::{CoreActionData, CoreActionView};
use crate::settings::NotificationRole;
use crate::text::{
    all_digits, append, append_str, chars_of, chars_of_all, eq_ignore_case, eq_str, fmt_usize,
    decimal, is_all_digits, join_str, lower_seq, parse_u64, parse_u64_spec, replace_str, skip_args,
    spec_join, spec_replace, spec_starts_with, string_of, string_views, strip_prefix,
    strip_suffix, to_lower, views,
};

verus! {

/// How `maint` is used.
pub fn usage_message() -> (r: &'static str)
    ensures
        r@ == "使い方: o.maint maintainer <ID> [del] / o.maint maintainer list / o.maint role <ロール名> / o.maint pushsetting [ロールID add|del]"@,
{
    "使い方: o.maint maintainer <ID> [del] / o.maint maintainer list / o.maint role <ロール名> / o.maint pushsetting [ロールID add|del]"
}

/// The longest name that a new notification role may have, in characters.
pub const MAX_ROLE_NAME_CHARS: usize = 100;

#[derive(Debug, PartialEq, Eq)]
pub enum MaintRequest {
    MaintainerUpdate { subject_id: String, enabled: bool },
    MaintainerList,
    CreateRole { name: String },
    PublishRolePanel,
    UpdatePanelRole { role_id: String, enabled: bool },
}

pub enum MaintRequestView {
    MaintainerUpdate { subject_id: Seq<char>, enabled: bool },
    MaintainerList,
    CreateRole { name: Seq<char> },
    PublishRolePanel,
    UpdatePanelRole { role_id: Seq<char>, enabled: bool },
}

impl View for MaintRequest {
    type V = MaintRequestView;

    open spec fn view(&self) -> MaintRequestView {
        match self {
            MaintRequest::MaintainerUpdate { subject_id, enabled } => MaintRequestView::MaintainerUpdate {
                subject_id: subject_id@,
                enabled: *enabled,
            },
            MaintRequest::MaintainerList => MaintRequestView::MaintainerList,
            MaintRequest::CreateRole { name } => MaintRequestView::CreateRole { name: name@ },
            MaintRequest::PublishRolePanel => MaintRequestView::PublishRolePanel,
            MaintRequest::UpdatePanelRole { role_id, enabled } => MaintRequestView::UpdatePanelRole {
                role_id: role_id@,
                enabled: *enabled,
            },
        }
    }
}

/// The inside of a `<@&…>`, `<@!…>` or `<@…>` mention, or the text itself
/// when it is not one.
pub open spec fn spec_unwrap_mention(value: Seq<char>) -> Seq<char> {
    let inner = if spec_starts_with(value, "<@&"@) {
        Some(value.skip(3))
    } else if spec_starts_with(value, "<@!"@) {
        Some(value.skip(3))
    } else if spec_starts_with(value, "<@"@) {
        Some(value.skip(2))
    } else {
        None
    };
    match inner {
        Some(v) => if v.len() > 0 && v.last() == '>' {
            v.drop_last()
        } else {
            value
        },
        None => value,
    }
}

/// A Discord id: 17 to 20 ASCII digits naming a positive `u64`.
pub open spec fn is_snowflake(v: Seq<char>) -> bool {
    &&& 17 <= v.len() <= 20
    &&& all_digits(v)
    &&& parse_u64_spec(v) matches Some(n) && n > 0
}

pub open spec fn spec_subject_id(value: Seq<char>) -> Option<Seq<char>> {
    let u = spec_unwrap_mention(value);
    if is_snowflake(u) {
        Some(u)
    } else {
        None
    }
}

fn unwrap_mention(value: &[char]) -> (r: Vec<char>)
    ensures
        r@ == spec_unwrap_mention(value@),
{
    proof {
        reveal_strlit("<@&");
        reveal_strlit("<@!");
        reveal_strlit("<@");
        reveal_strlit(">");
    }
    let inner = match strip_prefix(value, "<@&") {
        Some(v) => Some(v),
        None => match strip_prefix(value, "<@!") {
            Some(v) => Some(v),
            None => strip_prefix(value, "<@"),
        },
    };
    match inner {
        Some(v) => {
            if v.len() > 0 && v[v.len() - 1] == '>' {
                crate::text::slice(v.as_slice(), 0, v.len() - 1)
            } else {
                crate::text::slice(value, 0, value.len())
            }
        },
        None => crate::text::slice(value, 0, value.len()),
    }
}

/// The id that a mention or a bare id names, when it is a valid Discord id.
pub fn normalize_subject_id(value: &str) -> (r: Option<String>)
    ensures
        match r {
            Some(s) => spec_subject_id(value@) == Some(s@),
            None => spec_subject_id(value@) is None,
        },
{
    let v = chars_of(value);
    let u = unwrap_mention(v.as_slice());
    if u.len() < 17 || u.len() > 20 || !is_all_digits(u.as_slice()) {
        return None;
    }
    match parse_u64(u.as_slice()) {
        Some(n) => if n > 0 {
            Some(string_of(u.as_slice()))
        } else {
            None
        },
        None => None,
    }
}

/// `maintainer list`, or `maintainer <id> [del]`.
pub open spec fn spec_maintainer_request(args: Seq<Seq<char>>) -> Option<MaintRequestView> {
    if args.len() == 2 && lower_seq(args[1]) == lower_seq("list"@) {
        Some(MaintRequestView::MaintainerList)
    } else if !(2 <= args.len() <= 3) {
        None
    } else {
        match spec_subject_id(args[1]) {
            None => None,
            Some(subject_id) => if args.len() == 2 {
                Some(MaintRequestView::MaintainerUpdate { subject_id, enabled: true })
            } else if lower_seq(args[2]) == lower_seq("del"@) {
                Some(MaintRequestView::MaintainerUpdate { subject_id, enabled: false })
            } else {
                None
            },
        }
    }
}

/// The request that the arguments of `maint` spell, if any.
pub open spec fn spec_request(args: Seq<Seq<char>>) -> Option<MaintRequestView> {
    if args.len() == 0 {
        None
    } else {
        let first = lower_seq(args[0]);
        if first == "maintainer"@ {
            spec_maintainer_request(args)
        } else if first == "role"@ && args.len() >= 2 {
            let name = spec_join(args.skip(1), " "@);
            if name.len() > 0 && name.len() <= MAX_ROLE_NAME_CHARS {
                Some(MaintRequestView::CreateRole { name })
            } else {
                None
            }
        } else if first == "pushsetting"@ && args.len() == 1 {
            Some(MaintRequestView::PublishRolePanel)
        } else if first == "pushsetting"@ && args.len() == 3 {
            match spec_subject_id(args[1]) {
                None => None,
                Some(role_id) => if lower_seq(args[2]) == lower_seq("add"@) {
                    Some(MaintRequestView::UpdatePanelRole { role_id, enabled: true })
                } else if lower_seq(args[2]) == lower_seq("del"@) {
                    Some(MaintRequestView::UpdatePanelRole { role_id, enabled: false })
                } else {
                    None
                },
            }
        } else {
            None
        }
    }
}

pub open spec fn request_view(r: Option<MaintRequest>) -> Option<MaintRequestView> {
    match r {
        Some(m) => Some(m@),
        None => None,
    }
}

pub fn parse_maintainer_request(arguments: &[String]) -> (r: Option<MaintRequest>)
    ensures
        request_view(r) == spec_maintainer_request(string_views(arguments@)),
{
    let args = chars_of_all(arguments);
    let ghost a = string_views(arguments@);
    if args.len() == 2 {
        assert(args@[1]@ == a[1]);
        if eq_ignore_case(args[1].as_slice(), "list") {
            return Some(MaintRequest::MaintainerList);
        }
    }
    if args.len() < 2 || args.len() > 3 {
        return None;
    }
    assert(arguments@[1]@ == a[1]);
    let subject_id = match normalize_subject_id(arguments[1].as_str()) {
        Some(s) => s,
        None => {
            return None;
        },
    };
    if args.len() == 2 {
        return Some(MaintRequest::MaintainerUpdate { subject_id, enabled: true });
    }
    assert(args@[2]@ == a[2]);
    if eq_ignore_case(args[2].as_slice(), "del") {
        Some(MaintRequest::MaintainerUpdate { subject_id, enabled: false })
    } else {
        None
    }
}

/// Reads the arguments of `maint`.
pub fn parse_request(arguments: &[String]) -> (r: Option<MaintRequest>)
    ensures
        request_view(r) == spec_request(string_views(arguments@)),
{
    let args = chars_of_all(arguments);
    let ghost a = string_views(arguments@);
    assert(views(args@) =~= a);
    if args.len() == 0 {
        return None;
    }
    assert(args@[0]@ == a[0]);
    let first = to_lower(args[0].as_slice());
    if eq_str(first.as_slice(), "maintainer") {
        return parse_maintainer_request(arguments);
    }
    if eq_str(first.as_slice(), "role") && args.len() >= 2 {
        let rest = skip_args(&args, 1);
        let name = join_str(rest.as_slice(), " ");
        if name.len() > 0 && name.len() <= MAX_ROLE_NAME_CHARS {
            return Some(MaintRequest::CreateRole { name: string_of(name.as_slice()) });
        }
        return None;
    }
    if eq_str(first.as_slice(), "pushsetting") && args.len() == 1 {
        return Some(MaintRequest::PublishRolePanel);
    }
    if eq_str(first.as_slice(), "pushsetting") && args.len() == 3 {
        assert(arguments@[1]@ == a[1]);
        assert(args@[2]@ == a[2]);
        let role_id = match normalize_subject_id(arguments[1].as_str()) {
            Some(s) => s,
            None => {
                return None;
            },
        };
        if eq_ignore_case(args[2].as_slice(), "add") {
            return Some(MaintRequest::UpdatePanelRole { role_id, enabled: true });
        }
        if eq_ignore_case(args[2].as_slice(), "del") {
            return Some(MaintRequest::UpdatePanelRole { role_id, enabled: false });
        }
        return None;
    }
    None
}

/// What a refused notification role is answered, by the refusal's code.
pub fn role_validation_message(code: &str) -> (r: &'static str)
    ensures
        r@ == (if code@ == "role_has_permissions"@ {
            "❌ 権限を持つロールは通知設定へ追加できません。"@
        } else if code@ == "role_not_manageable"@ {
            "❌ Botが管理できないロールは通知設定へ追加できません。"@
        } else if code@ == "role_unavailable"@ {
            "❌ 指定したロールが見つかりません。"@
        } else {
            "❌ ロールを確認できませんでした。"@
        }),
{
    let c = chars_of(code);
    if eq_str(c.as_slice(), "role_has_permissions") {
        "❌ 権限を持つロールは通知設定へ追加できません。"
    } else if eq_str(c.as_slice(), "role_not_manageable") {
        "❌ Botが管理できないロールは通知設定へ追加できません。"
    } else if eq_str(c.as_slice(), "role_unavailable") {
        "❌ 指定したロールが見つかりません。"
    } else {
        "❌ ロールを確認できませんでした。"
    }
}

// ---------------------------------------------------------------------------
// Notification role panel
// ---------------------------------------------------------------------------

/// One numbered line of the panel; backquotes in the name would end the code block.
pub open spec fn panel_line(index: int, name: Seq<char>) -> Seq<char> {
    decimal((index + 1) as nat) + " "@ + spec_replace(name, "`"@, "′"@)
}

pub open spec fn panel_lines(roles: Seq<NotificationRole>) -> Seq<Seq<char>> {
    Seq::new(roles.len(), |i: int| panel_line(i, roles[i].name@))
}

/// The text of the role panel: a title and the numbered roles in a code block.
pub open spec fn spec_panel_content(roles: Seq<NotificationRole>) -> Seq<char> {
    let lines = if roles.len() == 0 {
        seq!["通知設定"@, "設定されている通知ロールはありません"@]
    } else {
        seq!["通知設定"@] + panel_lines(roles)
    };
    "```\n"@ + spec_join(lines, "\n"@) + "\n```"@
}

pub fn panel_content(roles: &[NotificationRole]) -> (r: String)
    requires
        roles@.len() < usize::MAX,
    ensures
        r@ == spec_panel_content(roles@),
{
    proof {
        reveal_strlit("`");
    }
    let mut lines: Vec<Vec<char>> = Vec::new();
    lines.push(chars_of("通知設定"));
    if roles.len() == 0 {
        lines.push(chars_of("設定されている通知ロールはありません"));
        assert(views(lines@) =~= seq!["通知設定"@, "設定されている通知ロールはありません"@]);
    } else {
        let mut i: usize = 0;
        while i < roles.len()
            invariant
                i <= roles@.len(),
                roles@.len() < usize::MAX,
                "`"@.len() > 0,
                views(lines@) == seq!["通知設定"@] + panel_lines(roles@).take(i as int),
            decreases roles@.len() - i,
        {
            let mut line = fmt_usize(i + 1);
            append_str(&mut line, " ");
            let name = chars_of(roles[i].name.as_str());
            let clean = replace_str(name.as_slice(), "`", "′");
            append(&mut line, clean.as_slice());
            let ghost before = lines@;
            lines.push(line);
            assert(views(lines@) =~= views(before).push(panel_line(i as int, roles@[i as int].name@)));
            assert(panel_lines(roles@).take(i + 1) =~= panel_lines(roles@).take(i as int).push(panel_line(i as int, roles@[i as int].name@)));
            assert(views(lines@) =~= seq!["通知設定"@] + panel_lines(roles@).take(i + 1));
            i += 1;
        }
        assert(panel_lines(roles@).take(i as int) =~= panel_lines(roles@));
    }
    let mut v = chars_of("```\n");
    let body = join_str(lines.as_slice(), "\n");
    append(&mut v, body.as_slice());
    append_str(&mut v, "\n```");
    string_of(v.as_slice())
}

/// The reactions that select the roles of the panel, in order.
pub open spec fn number_emojis() -> Seq<Seq<char>> {
    seq!["1️⃣"@, "2️⃣"@, "3️⃣"@, "4️⃣"@, "5️⃣"@, "6️⃣"@, "7️⃣"@, "8️⃣"@, "9️⃣"@]
}

/// The reaction of the role at an index of the panel, for the first nine.
pub fn number_emoji(index: usize) -> (r: Option<&'static str>)
    ensures
        match r {
            Some(e) => index < 9 && e@ == number_emojis()[index as int],
            None => index >= 9,
        },
{
    if index == 0 {
        Some("1️⃣")
    } else if index == 1 {
        Some("2️⃣")
    } else if index == 2 {
        Some("3️⃣")
    } else if index == 3 {
        Some("4️⃣")
    } else if index == 4 {
        Some("5️⃣")
    } else if index == 5 {
        Some("6️⃣")
    } else if index == 6 {
        Some("7️⃣")
    } else if index == 7 {
        Some("8️⃣")
    } else if index == 8 {
        Some("9️⃣")
    } else {
        None
    }
}

/// The panel index that a reaction selects.
pub fn reaction_index(emoji: &str) -> (r: Option<usize>)
    ensures
        match r {
            Some(i) => i < 9 && number_emojis()[i as int] == emoji@ && forall|j: int|
                0 <= j < i ==> number_emojis()[j] != emoji@,
            None => forall|j: int| 0 <= j < 9 ==> number_emojis()[j] != emoji@,
        },
{
    let e = chars_of(emoji);
    let mut i: usize = 0;
    while i < 9
        invariant
            i <= 9,
            e@ == emoji@,
            forall|j: int| 0 <= j < i ==> number_emojis()[j] != emoji@,
        decreases 9 - i,
    {
        let candidate = match number_emoji(i) {
            Some(c) => c,
            None => {
                return None;
            },
        };
        if eq_str(e.as_slice(), candidate) {
            return Some(i);
        }
        i += 1;
    }
    None
}

/// The action for a reaction on the panel: give the role when it was added,
/// take it back when it was removed.
pub fn role_action(guild_id: &str, user_id: &str, role_id: String, added: bool) -> (r: CoreActionData)
    ensures
        r@ == (if added {
            CoreActionView::AddGuildMemberRole {
                guild_id: guild_id@,
                user_id: user_id@,
                role_id: role_id@,
            }
        } else {
            CoreActionView::RemoveGuildMemberRole {
                guild_id: guild_id@,
                user_id: user_id@,
                role_id: role_id@,
            }
        }),
{
    if added {
        CoreActionData::AddGuildMemberRole {
            guild_id: guild_id.to_string(),
            user_id: user_id.to_string(),
            role_id,
        }
    } else {
        CoreActionData::RemoveGuildMemberRole {
            guild_id: guild_id.to_string(),
            user_id: user_id.to_string(),
            role_id,
        }
    }
}

/// The fixed bot administrators.
pub open spec fn administrator_ids() -> Seq<Seq<char>> {
    seq!["1447045405257760820"@, "1347420765410295928"@, "1138400546823340102"@]
}

pub fn is_bot_administrator(user_id: &str) -> (r: bool)
    ensures
        r == administrator_ids().contains(user_id@),
{
    let u = chars_of(user_id);
    let r = eq_str(u.as_slice(), "1447045405257760820") || eq_str(u.as_slice(), "1347420765410295928")
        || eq_str(u.as_slice(), "1138400546823340102");
    proof {
        if r {
            if u@ == "1447045405257760820"@ {
                assert(administrator_ids()[0] == user_id@);
            } else if u@ == "1347420765410295928"@ {
                assert(administrator_ids()[1] == user_id@);
            } else {
                assert(administrator_ids()[2] == user_id@);
            }
        } else {
            assert forall|j: int| 0 <= j < 3 implies administrator_ids()[j] != user_id@ by {}
        }
    }
    r
}

// ---------------------------------------------------------------------------
// Replies to a change of the notification roles
// ---------------------------------------------------------------------------

/// Sent when the role to add could not be checked.
pub const ROLE_UNCONFIRMED_MESSAGE: &'static str = "❌ ロールを確認できませんでした。";

/// Sent when the role settings cannot be read back after the change.
pub const ROLE_RELOAD_FAILED_MESSAGE: &'static str = "❌ 通知ロール設定を再読込できませんでした。";

/// Added to the reply when the selection message could not be updated.
pub const PANEL_UPDATE_FAILED_SUFFIX: &'static str =
    "\n⚠️ 選択メッセージの更新に失敗しました。`o.maint pushsetting` を再実行してください。";

/// The name a role is given while it is being removed.
pub const REMOVED_ROLE_NAME: &'static str = "削除対象";

/// The status of a role change, by whether the role was added or removed
/// and whether anything changed.
pub open spec fn spec_panel_role_status(enabled: bool, changed: bool) -> Seq<char> {
    if enabled && changed {
        "通知設定へ追加しました。"@
    } else if enabled {
        "通知設定へ追加済みです。"@
    } else if changed {
        "通知設定から削除しました。関連する通知メンションも解除しました。"@
    } else {
        "通知設定には登録されていません。"@
    }
}

/// The reply to a role change: its status, with a warning when the
/// selection message could not be updated.
pub open spec fn spec_panel_role_reply(enabled: bool, changed: bool, panel_updated: bool) -> Seq<char> {
    if panel_updated {
        spec_panel_role_status(enabled, changed)
    } else {
        spec_panel_role_status(enabled, changed) + PANEL_UPDATE_FAILED_SUFFIX@
    }
}

fn panel_role_status(enabled: bool, changed: bool) -> (r: &'static str)
    ensures
        r@ == spec_panel_role_status(enabled, changed),
{
    if enabled && changed {
        "通知設定へ追加しました。"
    } else if enabled {
        "通知設定へ追加済みです。"
    } else if changed {
        "通知設定から削除しました。関連する通知メンションも解除しました。"
    } else {
        "通知設定には登録されていません。"
    }
}

pub fn panel_role_reply(enabled: bool, changed: bool, panel_updated: bool) -> (r: String)
    ensures
        r@ == spec_panel_role_reply(enabled, changed, panel_updated),
{
    let mut v = chars_of(panel_role_status(enabled, changed));
    if !panel_updated {
        append_str(&mut v, PANEL_UPDATE_FAILED_SUFFIX);
    }
    string_of(v.as_slice())
}

/// The reply when saving a role change fails: the role limit, or a save
/// failure.
pub open spec fn spec_panel_role_error(code: Seq<char>) -> Seq<char> {
    if code == "notification-role-limit-reached"@ {
        "❌ 通知ロールは最大"@ + decimal(crate::settings::MAX_NOTIFICATION_ROLES as nat) + "件までです。"@
    } else {
        "❌ 通知ロール設定の保存に失敗しました。"@
    }
}

pub fn panel_role_error(code: &str) -> (r: String)
    ensures
        r@ == spec_panel_role_error(code@),
{
    let c = chars_of(code);
    if eq_str(c.as_slice(), "notification-role-limit-reached") {
        let mut v = chars_of("❌ 通知ロールは最大");
        let n = fmt_usize(crate::settings::MAX_NOTIFICATION_ROLES);
        append(&mut v, n.as_slice());
        append_str(&mut v, "件までです。");
        string_of(v.as_slice())
    } else {
        string_of(chars_of("❌ 通知ロール設定の保存に失敗しました。").as_slice())
    }
}

/// The role recorded for a removal: the role id with a placeholder name.
pub fn removal_role(role_id: &str) -> (r: NotificationRole)
    ensures
        r.role_id@ == role_id@,
        r.name@ == REMOVED_ROLE_NAME@,
{
    NotificationRole {
        role_id: string_of(chars_of(role_id).as_slice()),
        name: string_of(chars_of(REMOVED_ROLE_NAME).as_slice()),
    }
}

} // verus!
