//! The actions that the core asks its adapter to perform.
use vstd::prelude::*;

verus! {

#[derive(Clone, Debug, PartialEq, Eq)]
pub enum CoreActionData {
    SendMessage { channel_id: String, content: String },
    SendNotification { channel_id: String, content: String, nonce: String },
    EditMessage { channel_id: String, message_id: String, content: String },
    AddReaction { channel_id: String, message_id: String, emoji: String },
    ClearReactions { channel_id: String, message_id: String },
    AddGuildMemberRole { guild_id: String, user_id: String, role_id: String },
    RemoveGuildMemberRole { guild_id: String, user_id: String, role_id: String },
    SendAttachment {
        channel_id: String,
        file_name: String,
        content_type: Option<String>,
        message: Option<String>,
        data: Vec<u8>,
    },
}

pub enum CoreActionView {
    SendMessage { channel_id: Seq<char>, content: Seq<char> },
    SendNotification { channel_id: Seq<char>, content: Seq<char>, nonce: Seq<char> },
    EditMessage { channel_id: Seq<char>, message_id: Seq<char>, content: Seq<char> },
    AddReaction { channel_id: Seq<char>, message_id: Seq<char>, emoji: Seq<char> },
    ClearReactions { channel_id: Seq<char>, message_id: Seq<char> },
    AddGuildMemberRole { guild_id: Seq<char>, user_id: Seq<char>, role_id: Seq<char> },
    RemoveGuildMemberRole { guild_id: Seq<char>, user_id: Seq<char>, role_id: Seq<char> },
    SendAttachment {
        channel_id: Seq<char>,
        file_name: Seq<char>,
        content_type: Option<Seq<char>>,
        message: Option<Seq<char>>,
        data: Seq<u8>,
    },
}

pub open spec fn opt_view(o: Option<String>) -> Option<Seq<char>> {
    match o {
        Some(s) => Some(s@),
        None => None,
    }
}

impl View for CoreActionData {
    type V = CoreActionView;

    open spec fn view(&self) -> CoreActionView {
        match self {
            CoreActionData::SendMessage { channel_id, content } => CoreActionView::SendMessage {
                channel_id: channel_id@,
                content: content@,
            },
            CoreActionData::SendNotification { channel_id, content, nonce } => CoreActionView::SendNotification {
                channel_id: channel_id@,
                content: content@,
                nonce: nonce@,
            },
            CoreActionData::EditMessage { channel_id, message_id, content } => CoreActionView::EditMessage {
                channel_id: channel_id@,
                message_id: message_id@,
                content: content@,
            },
            CoreActionData::AddReaction { channel_id, message_id, emoji } => CoreActionView::AddReaction {
                channel_id: channel_id@,
                message_id: message_id@,
                emoji: emoji@,
            },
            CoreActionData::ClearReactions { channel_id, message_id } => CoreActionView::ClearReactions {
                channel_id: channel_id@,
                message_id: message_id@,
            },
            CoreActionData::AddGuildMemberRole { guild_id, user_id, role_id } => CoreActionView::AddGuildMemberRole {
                guild_id: guild_id@,
                user_id: user_id@,
                role_id: role_id@,
            },
            CoreActionData::RemoveGuildMemberRole { guild_id, user_id, role_id } => CoreActionView::RemoveGuildMemberRole {
                guild_id: guild_id@,
                user_id: user_id@,
                role_id: role_id@,
            },
            CoreActionData::SendAttachment { channel_id, file_name, content_type, message, data } => CoreActionView::SendAttachment {
                channel_id: channel_id@,
                file_name: file_name@,
                content_type: opt_view(*content_type),
                message: opt_view(*message),
                data: data@,
            },
        }
    }
}

/// A message with a text to a channel.
pub fn send_message(channel_id: &str, content: String) -> (r: CoreActionData)
    ensures
        r@ == (CoreActionView::SendMessage { channel_id: channel_id@, content: content@ }),
{
    CoreActionData::SendMessage { channel_id: channel_id.to_string(), content }
}

} // verus!
