//! The decisions of reaction sessions: which reaction a session takes, which
//! actions answer it, and how the session goes on. Waiting for events, timers
//! and the continuations themselves are run by the caller, which hands each
//! decision its plain inputs.
use vstd::prelude::*;

use crate::protocol::{CoreActionData, CoreActionView};
use crate::text::{chars_of, eq, string_of};

verus! {

/// Most reactions one session offers.
pub const MAX_SESSION_REACTIONS: usize = 11;

/// Longest lifetime of a session, in nanoseconds (five minutes).
pub const MAX_SESSION_TTL_NANOS: u128 = 300_000_000_000;

/// Sent when a continuation fails while handling a reaction.
pub const CONTINUATION_FAILED_MESSAGE: &'static str = "❌ 選択結果の処理に失敗しました";

/// Sent instead of a selection message when no session slot is free.
pub const SESSION_UNAVAILABLE_MESSAGE: &'static str =
    "❌ 現在ほかの選択操作を処理中です。少し待ってから再実行してください";

pub open spec fn str_views(v: Seq<String>) -> Seq<Seq<char>> {
    v.map_values(|s: String| s@)
}

pub open spec fn action_views(v: Seq<CoreActionData>) -> Seq<CoreActionView> {
    v.map_values(|a: CoreActionData| a@)
}

/// A set of reactions a session may offer: at least one, at most
/// `MAX_SESSION_REACTIONS`, none empty, no two alike.
pub open spec fn spec_valid_reactions(rs: Seq<Seq<char>>) -> bool {
    &&& rs.len() > 0
    &&& rs.len() <= MAX_SESSION_REACTIONS
    &&& forall|i: int| 0 <= i < rs.len() ==> #[trigger] rs[i].len() > 0
    &&& forall|i: int, j: int| 0 <= i < j < rs.len() ==> rs[i] != rs[j]
}

fn copy_str(s: &str) -> (r: String)
    ensures
        r@ == s@,
{
    string_of(chars_of(s).as_slice())
}

fn same_str(a: &str, b: &str) -> (r: bool)
    ensures
        r == (a@ == b@),
{
    eq(chars_of(a).as_slice(), chars_of(b).as_slice())
}

/// Whether a continuation's reactions can be offered.
pub fn valid_reactions(reactions: &[String]) -> (r: bool)
    ensures
        r == spec_valid_reactions(str_views(reactions@)),
{
    let n = reactions.len();
    let ghost rs = str_views(reactions@);
    if n == 0 || n > MAX_SESSION_REACTIONS {
        return false;
    }
    let mut i: usize = 0;
    while i < n
        invariant
            n == reactions@.len(),
            rs == str_views(reactions@),
            0 < n <= MAX_SESSION_REACTIONS,
            i <= n,
            forall|k: int| 0 <= k < i ==> #[trigger] rs[k].len() > 0,
            forall|k: int, l: int| 0 <= k < l < n && k < i ==> rs[k] != rs[l],
        decreases n - i,
    {
        let ci = chars_of(reactions[i].as_str());
        assert(rs[i as int] == reactions@[i as int]@);
        if ci.len() == 0 {
            return false;
        }
        let mut j: usize = i + 1;
        while j < n
            invariant
                n == reactions@.len(),
                rs == str_views(reactions@),
                i < n,
                i < j <= n,
                ci@ == rs[i as int],
                forall|l: int| i < l < j ==> rs[i as int] != #[trigger] rs[l],
            decreases n - j,
        {
            let cj = chars_of(reactions[j].as_str());
            assert(rs[j as int] == reactions@[j as int]@);
            if eq(ci.as_slice(), cj.as_slice()) {
                return false;
            }
            j += 1;
        }
        i += 1;
    }
    true
}

/// A session request is accepted with an owner, a channel, a lifetime above
/// zero and at most five minutes, and reactions that can be offered.
pub open spec fn spec_request_valid(
    owner_id: Seq<char>,
    channel_id: Seq<char>,
    ttl_nanos: u128,
    reactions: Seq<Seq<char>>,
) -> bool {
    &&& owner_id.len() > 0
    &&& channel_id.len() > 0
    &&& 0 < ttl_nanos <= MAX_SESSION_TTL_NANOS
    &&& spec_valid_reactions(reactions)
}

/// Checks a session request before it is registered.
pub fn session_request_valid(owner_id: &str, channel_id: &str, ttl_nanos: u128, reactions: &[String]) -> (r:
    bool)
    ensures
        r == spec_request_valid(owner_id@, channel_id@, ttl_nanos, str_views(reactions@)),
{
    let o = chars_of(owner_id);
    let c = chars_of(channel_id);
    o.len() > 0 && c.len() > 0 && 0 < ttl_nanos && ttl_nanos <= MAX_SESSION_TTL_NANOS
        && valid_reactions(reactions)
}

/// The session id issued after `current`: the next one, skipping zero when
/// the counter wraps.
pub fn next_session_id(current: u64) -> (r: u64)
    ensures
        r == (if current == u64::MAX {
            1
        } else {
            current + 1
        }),
{
    if current == u64::MAX {
        1
    } else {
        current + 1
    }
}

/// A session that waits for a reaction on one message.
pub struct ActiveSession {
    pub owner_id: String,
    pub channel_id: String,
    pub message_id: String,
    /// The reactions its continuation offers.
    pub reactions: Vec<String>,
    pub clear_reactions_on_completion: bool,
}

pub struct ActiveSessionView {
    pub owner_id: Seq<char>,
    pub channel_id: Seq<char>,
    pub message_id: Seq<char>,
    pub reactions: Seq<Seq<char>>,
    pub clear_reactions_on_completion: bool,
}

impl View for ActiveSession {
    type V = ActiveSessionView;

    open spec fn view(&self) -> ActiveSessionView {
        ActiveSessionView {
            owner_id: self.owner_id@,
            channel_id: self.channel_id@,
            message_id: self.message_id@,
            reactions: str_views(self.reactions@),
            clear_reactions_on_completion: self.clear_reactions_on_completion,
        }
    }
}

/// A reaction is taken when it comes in the session's channel, from its
/// owner, and is one of the reactions offered.
pub open spec fn spec_reaction_accepted(
    s: ActiveSessionView,
    channel_id: Seq<char>,
    user_id: Seq<char>,
    emoji: Seq<char>,
) -> bool {
    &&& s.channel_id == channel_id
    &&& s.owner_id == user_id
    &&& s.reactions.contains(emoji)
}

/// Whether a reaction on the session's message is taken.
pub fn reaction_accepted(session: &ActiveSession, channel_id: &str, user_id: &str, emoji: &str) -> (r:
    bool)
    ensures
        r == spec_reaction_accepted(session@, channel_id@, user_id@, emoji@),
{
    if !same_str(session.channel_id.as_str(), channel_id) || !same_str(
        session.owner_id.as_str(),
        user_id,
    ) {
        return false;
    }
    let ghost rs = str_views(session.reactions@);
    let mut i: usize = 0;
    while i < session.reactions.len()
        invariant
            rs == str_views(session.reactions@),
            session.channel_id@ == channel_id@,
            session.owner_id@ == user_id@,
            i <= session.reactions@.len(),
            forall|k: int| 0 <= k < i ==> rs[k] != emoji@,
        decreases session.reactions@.len() - i,
    {
        assert(rs[i as int] == session.reactions@[i as int]@);
        if same_str(session.reactions[i].as_str(), emoji) {
            assert(rs[i as int] == emoji@);
            return true;
        }
        i += 1;
    }
    assert(!rs.contains(emoji@));
    false
}

/// One `AddReaction` per offered reaction, in order, on the given message.
pub open spec fn spec_reaction_actions(
    channel_id: Seq<char>,
    message_id: Seq<char>,
    reactions: Seq<Seq<char>>,
) -> Seq<CoreActionView> {
    reactions.map_values(
        |e: Seq<char>| CoreActionView::AddReaction { channel_id, message_id, emoji: e },
    )
}

/// The actions that offer a continuation's reactions on a message.
pub fn reaction_actions(channel_id: &str, message_id: &str, reactions: &[String]) -> (r: Vec<
    CoreActionData,
>)
    ensures
        action_views(r@) == spec_reaction_actions(channel_id@, message_id@, str_views(reactions@)),
{
    let ghost target = spec_reaction_actions(channel_id@, message_id@, str_views(reactions@));
    let mut r: Vec<CoreActionData> = Vec::new();
    let mut i: usize = 0;
    while i < reactions.len()
        invariant
            i <= reactions@.len(),
            target == spec_reaction_actions(channel_id@, message_id@, str_views(reactions@)),
            action_views(r@) == target.take(i as int),
        decreases reactions@.len() - i,
    {
        let a = CoreActionData::AddReaction {
            channel_id: copy_str(channel_id),
            message_id: copy_str(message_id),
            emoji: copy_str(reactions[i].as_str()),
        };
        let ghost before = action_views(r@);
        r.push(a);
        assert(action_views(r@) =~= before.push(a@));
        assert(target.take(i + 1) =~= target.take(i as int).push(target[i as int]));
        i += 1;
    }
    assert(target.take(i as int) =~= target);
    r
}

/// How a continuation goes on after it handled a reaction, with the
/// reactions of the next continuation where there is one.
pub enum SessionNext {
    Complete,
    SameMessage(Vec<String>),
    NewMessage(Vec<String>),
}

pub enum SessionNextView {
    Complete,
    SameMessage(Seq<Seq<char>>),
    NewMessage(Seq<Seq<char>>),
}

impl View for SessionNext {
    type V = SessionNextView;

    open spec fn view(&self) -> SessionNextView {
        match self {
            SessionNext::Complete => SessionNextView::Complete,
            SessionNext::SameMessage(rs) => SessionNextView::SameMessage(str_views(rs@)),
            SessionNext::NewMessage(rs) => SessionNextView::NewMessage(str_views(rs@)),
        }
    }
}

/// What the session manager does after a reaction was handled: finish, keep
/// the session on the same message with the next continuation, or open a
/// new session (same owner, channel, lifetime and clearing) for a new message.
#[derive(PartialEq, Eq, Structural, Clone, Copy, Debug)]
pub enum SessionFollowUp {
    Finish,
    Activate,
    StartNew,
}

pub struct ResumeOutcome {
    pub actions: Vec<CoreActionData>,
    pub follow_up: SessionFollowUp,
}

impl View for ResumeOutcome {
    type V = (Seq<CoreActionView>, SessionFollowUp);

    open spec fn view(&self) -> (Seq<CoreActionView>, SessionFollowUp) {
        (action_views(self.actions@), self.follow_up)
    }
}

/// The answer to a taken reaction: the reactions are cleared first where the
/// session asks for it, then come the continuation's actions; a next
/// continuation on the same message has its reactions added and is kept; one
/// for a new message becomes a new session; one whose reactions cannot be
/// offered ends the session.
pub open spec fn spec_after_resume(
    s: ActiveSessionView,
    actions: Seq<CoreActionView>,
    next: SessionNextView,
) -> (Seq<CoreActionView>, SessionFollowUp) {
    let cleared = if s.clear_reactions_on_completion {
        seq![CoreActionView::ClearReactions { channel_id: s.channel_id, message_id: s.message_id }]
    } else {
        Seq::empty()
    };
    let base = cleared + actions;
    match next {
        SessionNextView::SameMessage(rs) => if spec_valid_reactions(rs) {
            (
                base + spec_reaction_actions(s.channel_id, s.message_id, rs),
                SessionFollowUp::Activate,
            )
        } else {
            (base, SessionFollowUp::Finish)
        },
        SessionNextView::NewMessage(rs) => if spec_valid_reactions(rs) {
            (base, SessionFollowUp::StartNew)
        } else {
            (base, SessionFollowUp::Finish)
        },
        SessionNextView::Complete => (base, SessionFollowUp::Finish),
    }
}

/// What a failed continuation is answered with.
pub open spec fn failure_actions(s: ActiveSessionView) -> Seq<CoreActionView> {
    seq![
        CoreActionView::SendMessage {
            channel_id: s.channel_id,
            content: CONTINUATION_FAILED_MESSAGE@,
        },
    ]
}

/// Decides the answer to a taken reaction from what the continuation gave
/// back: its actions and how it goes on, or `None` where it failed.
pub fn after_resume(session: &ActiveSession, resumed: Option<(Vec<CoreActionData>, SessionNext)>) -> (r:
    ResumeOutcome)
    ensures
        r@ == (match resumed {
            Some((actions, next)) => spec_after_resume(session@, action_views(actions@), next@),
            None => spec_after_resume(session@, failure_actions(session@), SessionNextView::Complete),
        }),
{
    let s = session;
    let (resume_actions, next) = match resumed {
        Some((a, n)) => (a, n),
        None => {
            let m = CoreActionData::SendMessage {
                channel_id: copy_str(s.channel_id.as_str()),
                content: copy_str(CONTINUATION_FAILED_MESSAGE),
            };
            let mut v: Vec<CoreActionData> = Vec::new();
            v.push(m);
            assert(action_views(v@) =~= failure_actions(s@));
            (v, SessionNext::Complete)
        },
    };
    let ghost given = action_views(resume_actions@);
    let mut actions: Vec<CoreActionData> = Vec::new();
    if s.clear_reactions_on_completion {
        actions.push(
            CoreActionData::ClearReactions {
                channel_id: copy_str(s.channel_id.as_str()),
                message_id: copy_str(s.message_id.as_str()),
            },
        );
    }
    let ghost cleared = action_views(actions@);
    let mut rest = resume_actions;
    actions.append(&mut rest);
    assert(action_views(actions@) =~= cleared + given);
    match next {
        SessionNext::SameMessage(rs) => {
            if valid_reactions(rs.as_slice()) {
                let mut adds = reaction_actions(
                    s.channel_id.as_str(),
                    s.message_id.as_str(),
                    rs.as_slice(),
                );
                let ghost base = action_views(actions@);
                let ghost added = action_views(adds@);
                actions.append(&mut adds);
                assert(action_views(actions@) =~= base + added);
                ResumeOutcome { actions, follow_up: SessionFollowUp::Activate }
            } else {
                ResumeOutcome { actions, follow_up: SessionFollowUp::Finish }
            }
        },
        SessionNext::NewMessage(rs) => {
            if valid_reactions(rs.as_slice()) {
                ResumeOutcome { actions, follow_up: SessionFollowUp::StartNew }
            } else {
                ResumeOutcome { actions, follow_up: SessionFollowUp::Finish }
            }
        },
        SessionNext::Complete => ResumeOutcome { actions, follow_up: SessionFollowUp::Finish },
    }
}

/// The actions when a session runs out of time: the reactions are cleared
/// where the session asks for it, and the message is edited to the
/// continuation's timeout text where it has one.
pub open spec fn spec_expiry_actions(s: ActiveSessionView, timeout_content: Option<Seq<char>>) -> Seq<
    CoreActionView,
> {
    let cleared = if s.clear_reactions_on_completion {
        seq![CoreActionView::ClearReactions { channel_id: s.channel_id, message_id: s.message_id }]
    } else {
        Seq::empty()
    };
    match timeout_content {
        Some(content) => cleared.push(
            CoreActionView::EditMessage {
                channel_id: s.channel_id,
                message_id: s.message_id,
                content,
            },
        ),
        None => cleared,
    }
}

/// The actions that end a session that ran out of time.
pub fn expiry_actions(session: &ActiveSession, timeout_content: Option<String>) -> (r: Vec<
    CoreActionData,
>)
    ensures
        action_views(r@) == spec_expiry_actions(session@, crate::protocol::opt_view(timeout_content)),
{
    let mut actions: Vec<CoreActionData> = Vec::new();
    if session.clear_reactions_on_completion {
        actions.push(
            CoreActionData::ClearReactions {
                channel_id: copy_str(session.channel_id.as_str()),
                message_id: copy_str(session.message_id.as_str()),
            },
        );
    }
    let ghost cleared = action_views(actions@);
    match timeout_content {
        Some(content) => {
            let e = CoreActionData::EditMessage {
                channel_id: copy_str(session.channel_id.as_str()),
                message_id: copy_str(session.message_id.as_str()),
                content,
            };
            actions.push(e);
            assert(action_views(actions@) =~= cleared.push(e@));
        },
        None => {},
    }
    actions
}

/// The message sent in place of a selection when no session slot is free.
pub fn unavailable_action(channel_id: String) -> (r: CoreActionData)
    ensures
        r@ == (CoreActionView::SendMessage {
            channel_id: channel_id@,
            content: SESSION_UNAVAILABLE_MESSAGE@,
        }),
{
    CoreActionData::SendMessage { channel_id, content: copy_str(SESSION_UNAVAILABLE_MESSAGE) }
}

/// A reaction session is registered only while fewer than the maximum are
/// pending, being armed or active.
pub fn registration_allowed(pending: usize, arming: usize, active: usize, maximum: usize) -> (r: bool)
    ensures
        r == (pending + arming + active < maximum),
{
    if pending >= maximum {
        return false;
    }
    let rest = maximum - pending;
    if arming >= rest {
        return false;
    }
    active < rest - arming
}

/// A session that a command asks for: its owner and channel, its lifetime,
/// the reactions its continuation offers, and whether the reactions are
/// cleared when it ends. The continuation itself stays with the caller.
pub struct SessionRequest {
    pub owner_id: String,
    pub channel_id: String,
    pub ttl_nanos: u128,
    pub reactions: Vec<String>,
    pub clear_reactions_on_completion: bool,
}

impl SessionRequest {
    /// A session request, refused with `InvalidSession` unless
    /// `session_request_valid` accepts it; reactions are kept on completion.
    pub fn new(owner_id: String, channel_id: String, ttl_nanos: u128, reactions: Vec<String>) -> (r: Result<
        SessionRequest,
        crate::command::CommandExecutionError,
    >)
        ensures
            match r {
                Ok(q) => spec_request_valid(owner_id@, channel_id@, ttl_nanos, str_views(reactions@)) && q.owner_id@
                    == owner_id@ && q.channel_id@ == channel_id@ && q.ttl_nanos == ttl_nanos && str_views(q.reactions@)
                    == str_views(reactions@) && !q.clear_reactions_on_completion,
                Err(e) => !spec_request_valid(owner_id@, channel_id@, ttl_nanos, str_views(reactions@)) && e
                    == crate::command::CommandExecutionError::InvalidSession,
            },
    {
        if !session_request_valid(owner_id.as_str(), channel_id.as_str(), ttl_nanos, reactions.as_slice()) {
            return Err(crate::command::CommandExecutionError::InvalidSession);
        }
        Ok(SessionRequest { owner_id, channel_id, ttl_nanos, reactions, clear_reactions_on_completion: false })
    }

    /// The same request, with the reactions cleared when the session ends.
    pub fn clear_reactions_on_completion(self) -> (r: Self)
        ensures
            r.owner_id == self.owner_id,
            r.channel_id == self.channel_id,
            r.ttl_nanos == self.ttl_nanos,
            r.reactions == self.reactions,
            r.clear_reactions_on_completion,
    {
        SessionRequest { clear_reactions_on_completion: true, ..self }
    }
}

} // verus!
