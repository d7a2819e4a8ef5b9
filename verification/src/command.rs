//! Commands: reading a command line, the bounded list of actions a command
//! answers with, the ids of those actions, and the table of command names.
use vstd::prelude::*;

use crate::output::{text_chunks, DISCORD_TEXT_CHUNK_SIZE};
use crate::protocol::{CoreActionData, CoreActionView};
use crate::session::action_views;
use crate::text::{
    append, append_str, chars_of, decimal, eq, fmt_usize, lower_seq, spec_lines, spec_starts_with,
    spec_trim, spec_words, string_of, string_views, strip_prefix, to_lower, trim, views, words,
};

verus! {

/// Most actions one command may answer with.
pub const MAX_COMMAND_ACTIONS: usize = 32;

#[derive(Debug, PartialEq, Eq, Structural, Clone, Copy)]
pub enum CommandExecutionError {
    TooManyActions,
    InvalidSession,
}

/// The actions a command answers with, at most `MAX_COMMAND_ACTIONS`.
pub struct CommandOutput {
    actions: Vec<CoreActionData>,
    session: Option<crate::session::SessionRequest>,
}

impl View for CommandOutput {
    type V = Seq<CoreActionView>;

    closed spec fn view(&self) -> Seq<CoreActionView> {
        action_views(self.actions@)
    }
}

impl CommandOutput {
    pub open spec fn wf(&self) -> bool {
        self@.len() <= MAX_COMMAND_ACTIONS
    }

    /// The session the command asks for, if any.
    pub closed spec fn session_of(&self) -> Option<crate::session::SessionRequest> {
        self.session
    }

    pub fn new() -> (r: Self)
        ensures
            r@ == Seq::<CoreActionView>::empty(),
            r.session_of() is None,
            r.wf(),
    {
        CommandOutput { actions: Vec::new(), session: None }
    }

    pub fn single(action: CoreActionData) -> (r: Self)
        ensures
            r@ == seq![action@],
            r.session_of() is None,
            r.wf(),
    {
        let mut actions: Vec<CoreActionData> = Vec::new();
        actions.push(action);
        assert(action_views(actions@) =~= seq![action@]);
        CommandOutput { actions, session: None }
    }

    /// One action that opens a session.
    pub fn with_session(action: CoreActionData, session: crate::session::SessionRequest) -> (r: Self)
        ensures
            r@ == seq![action@],
            r.session_of() == Some(session),
            r.wf(),
    {
        let mut actions: Vec<CoreActionData> = Vec::new();
        actions.push(action);
        assert(action_views(actions@) =~= seq![action@]);
        CommandOutput { actions, session: Some(session) }
    }

    /// The actions, in order, and the session asked for.
    pub fn into_parts(self) -> (r: (Vec<CoreActionData>, Option<crate::session::SessionRequest>))
        ensures
            action_views(r.0@) == self@,
            r.1 == self.session_of(),
    {
        (self.actions, self.session)
    }

    /// Adds an action, refusing it once the output holds the most actions.
    pub fn push(&mut self, action: CoreActionData) -> (r: Result<(), CommandExecutionError>)
        ensures
            r is Ok <==> old(self)@.len() < MAX_COMMAND_ACTIONS,
            r is Ok ==> final(self)@ == old(self)@.push(action@),
            r matches Err(e) ==> e == CommandExecutionError::TooManyActions && final(self)@ == old(
                self,
            )@,
            final(self).session_of() == old(self).session_of(),
    {
        if self.actions.len() >= MAX_COMMAND_ACTIONS {
            return Err(CommandExecutionError::TooManyActions);
        }
        let ghost before = action_views(self.actions@);
        self.actions.push(action);
        assert(action_views(self.actions@) =~= before.push(action@));
        Ok(())
    }

    /// The actions, in order.
    pub fn into_actions(self) -> (r: Vec<CoreActionData>)
        ensures
            action_views(r@) == self@,
    {
        self.actions
    }
}

/// Adds a message with a text to a channel.
pub fn push_message(output: &mut CommandOutput, channel_id: &str, content: String) -> (r: Result<
    (),
    CommandExecutionError,
>)
    ensures
        r is Ok <==> old(output)@.len() < MAX_COMMAND_ACTIONS,
        r is Ok ==> final(output)@ == old(output)@.push(
            CoreActionView::SendMessage { channel_id: channel_id@, content: content@ },
        ),
        r matches Err(e) ==> e == CommandExecutionError::TooManyActions && final(output)@ == old(
            output,
        )@,
{
    output.push(crate::protocol::send_message(channel_id, content))
}

/// The opening of a code block in a language (none where it is empty).
pub open spec fn code_opening(language: Seq<char>) -> Seq<char> {
    "```"@ + language + "\n"@
}

/// The messages that show a text as code blocks, chunk by chunk.
pub open spec fn chunk_messages(channel_id: Seq<char>, text: Seq<char>, language: Seq<char>) -> Seq<
    CoreActionView,
> {
    text_chunks(text, DISCORD_TEXT_CHUNK_SIZE as nat).map_values(
        |c: Seq<char>|
            CoreActionView::SendMessage {
                channel_id,
                content: code_opening(language) + c + "\n```"@,
            },
    )
}

/// Adds a text as code blocks of at most `DISCORD_TEXT_CHUNK_SIZE` UTF-16
/// units of text each. Where the output fills up, the blocks that fit are
/// added and `TooManyActions` is returned.
pub fn push_chunked(output: &mut CommandOutput, channel_id: &str, text: &str, language: &str) -> (r:
    Result<(), CommandExecutionError>)
    requires
        old(output).wf(),
        text@.len() <= usize::MAX / 4,
    ensures
        ({
            let msgs = chunk_messages(channel_id@, text@, language@);
            let room = MAX_COMMAND_ACTIONS - old(output)@.len();
            &&& r is Ok <==> old(output)@.len() + msgs.len() <= MAX_COMMAND_ACTIONS
            &&& r is Ok ==> final(output)@ == old(output)@ + msgs
            &&& r matches Err(e) ==> e == CommandExecutionError::TooManyActions && final(output)@
                == old(output)@ + msgs.take(room)
        }),
{
    proof {
        reveal_strlit("```");
        reveal_strlit("\n");
        reveal_strlit("\n```");
    }
    let ghost msgs = chunk_messages(channel_id@, text@, language@);
    let ghost start = output@;
    let mut opening: Vec<char> = Vec::new();
    append_str(&mut opening, "```");
    append_str(&mut opening, language);
    append_str(&mut opening, "\n");
    assert(opening@ =~= code_opening(language@));
    let chunks = crate::output::split_text_into_chunks(text, DISCORD_TEXT_CHUNK_SIZE);
    let ghost cv = string_views(chunks@);
    assert(msgs.len() == chunks@.len());
    let mut i: usize = 0;
    while i < chunks.len()
        invariant
            i <= chunks@.len(),
            cv == string_views(chunks@),
            cv == text_chunks(text@, DISCORD_TEXT_CHUNK_SIZE as nat),
            msgs == chunk_messages(channel_id@, text@, language@),
            opening@ == code_opening(language@),
            start.len() <= MAX_COMMAND_ACTIONS,
            start.len() + i <= MAX_COMMAND_ACTIONS,
            output@ == start + msgs.take(i as int),
            start == old(output)@,
            msgs.len() == chunks@.len(),
        decreases chunks@.len() - i,
    {
        let mut content: Vec<char> = Vec::new();
        append(&mut content, opening.as_slice());
        let piece = chars_of(chunks[i].as_str());
        append(&mut content, piece.as_slice());
        append_str(&mut content, "\n```");
        proof {
            reveal_strlit("\n```");
        }
        assert(content@ =~= code_opening(language@) + cv[i as int] + "\n```"@);
        let ghost before = output@;
        let pushed = push_message(output, channel_id, string_of(content.as_slice()));
        assert(msgs[i as int] == CoreActionView::SendMessage {
            channel_id: channel_id@,
            content: content@,
        });
        assert(msgs.take(i + 1) =~= msgs.take(i as int).push(msgs[i as int]));
        match pushed {
            Ok(()) => {},
            Err(e) => {
                assert(start.len() + i == MAX_COMMAND_ACTIONS);
                assert(output@ == start + msgs.take(i as int));
                return Err(e);
            },
        }
        i += 1;
    }
    assert(msgs.take(i as int) =~= msgs);
    Ok(())
}

/// The id of a command's `index`-th action for an event: the first is
/// `action:<event>`, the later ones `action:<event>:<n>`, counting from one.
pub open spec fn spec_action_id(event_id: Seq<char>, index: nat) -> Seq<char> {
    if index == 0 {
        "action:"@ + event_id
    } else {
        "action:"@ + event_id + ":"@ + decimal(index + 1)
    }
}

pub fn action_id(event_id: &str, index: usize) -> (r: String)
    requires
        index < usize::MAX,
    ensures
        r@ == spec_action_id(event_id@, index as nat),
{
    proof {
        reveal_strlit("action:");
        reveal_strlit(":");
    }
    let mut v: Vec<char> = Vec::new();
    append_str(&mut v, "action:");
    append_str(&mut v, event_id);
    if index != 0 {
        append_str(&mut v, ":");
        let n = fmt_usize(index + 1);
        append(&mut v, n.as_slice());
    }
    assert(v@ =~= spec_action_id(event_id@, index as nat));
    string_of(v.as_slice())
}

/// A command line: the lower-cased command name and its arguments.
pub struct ParsedCommandInput {
    pub name: String,
    pub arguments: Vec<String>,
}

/// A message is a command when it starts with the prefix and has a word
/// after it: the first word, lower-cased in ASCII, names the command and the
/// rest are its arguments.
pub open spec fn spec_command_input(content: Seq<char>, prefix: Seq<char>) -> Option<
    (Seq<char>, Seq<Seq<char>>),
> {
    if !spec_starts_with(content, prefix) {
        None
    } else {
        let ws = spec_words(spec_trim(content.skip(prefix.len() as int)));
        if ws.len() == 0 {
            None
        } else {
            Some((lower_seq(ws[0]), ws.drop_first()))
        }
    }
}

pub fn parse_command_input(content: &str, prefix: &str) -> (r: Option<ParsedCommandInput>)
    ensures
        match r {
            Some(p) => spec_command_input(content@, prefix@) == Some(
                (p.name@, string_views(p.arguments@)),
            ),
            None => spec_command_input(content@, prefix@) is None,
        },
{
    let cv = chars_of(content);
    let rest = match strip_prefix(cv.as_slice(), prefix) {
        Some(r) => r,
        None => {
            return None;
        },
    };
    let t = trim(rest.as_slice());
    let ws = words(t.as_slice());
    if ws.len() == 0 {
        return None;
    }
    let name = to_lower(ws[0].as_slice());
    let ghost wv = views(ws@);
    let mut arguments: Vec<String> = Vec::new();
    let mut i: usize = 1;
    while i < ws.len()
        invariant
            1 <= i <= ws@.len(),
            wv == views(ws@),
            string_views(arguments@) == wv.subrange(1, i as int),
        decreases ws@.len() - i,
    {
        let ghost before = string_views(arguments@);
        let a = string_of(ws[i].as_slice());
        arguments.push(a);
        assert(string_views(arguments@) =~= before.push(a@));
        assert(wv.subrange(1, i + 1) =~= wv.subrange(1, i as int).push(wv[i as int]));
        i += 1;
    }
    assert(wv.subrange(1, i as int) =~= wv.drop_first());
    Some(ParsedCommandInput { name: string_of(name.as_slice()), arguments })
}

/// The names under which commands are found: each command's name and
/// aliases, lower-cased in ASCII, with the index of the command.
pub struct CommandRegistry {
    names: Vec<(String, usize)>,
}

pub open spec fn name_views(v: Seq<(String, usize)>) -> Seq<(Seq<char>, usize)> {
    v.map_values(|p: (String, usize)| (p.0@, p.1))
}

/// Every name a list of commands registers, in order: per command its name,
/// then its aliases, lower-cased.
pub open spec fn registered_names(commands: Seq<(Seq<char>, Seq<Seq<char>>)>) -> Seq<(Seq<char>, usize)>
    decreases commands.len(),
{
    if commands.len() == 0 {
        Seq::empty()
    } else {
        let k = (commands.len() - 1) as usize;
        let c = commands.last();
        registered_names(commands.drop_last()) + command_names(c, k)
    }
}

/// The first name, in order, that an earlier one already took.
pub open spec fn first_duplicate(names: Seq<(Seq<char>, usize)>) -> Option<Seq<char>>
    decreases names.len(),
{
    if names.len() == 0 {
        None
    } else {
        match first_duplicate(names.drop_last()) {
            Some(x) => Some(x),
            None => if exists|i: int| 0 <= i < names.len() - 1 && #[trigger] names[i].0 == names.last().0 {
                Some(names.last().0)
            } else {
                None
            },
        }
    }
}

/// The names one command registers, with its index.
pub open spec fn command_names(c: (Seq<char>, Seq<Seq<char>>), k: usize) -> Seq<(Seq<char>, usize)> {
    seq![c.0].add(c.1).map_values(|n: Seq<char>| (lower_seq(n), k))
}

pub open spec fn command_views(v: Seq<(String, Vec<String>)>) -> Seq<(Seq<char>, Seq<Seq<char>>)> {
    v.map_values(|c: (String, Vec<String>)| (c.0@, string_views(c.1@)))
}

fn find_name(names: &Vec<(String, usize)>, name: &[char]) -> (r: Option<usize>)
    ensures
        match r {
            Some(k) => k < names@.len() && names@[k as int].0@ == name@ && forall|i: int|
                0 <= i < k ==> names@[i].0@ != name@,
            None => forall|i: int| 0 <= i < names@.len() ==> names@[i].0@ != name@,
        },
{
    let mut k: usize = 0;
    while k < names.len()
        invariant
            k <= names@.len(),
            forall|i: int| 0 <= i < k ==> names@[i].0@ != name@,
        decreases names@.len() - k,
    {
        let kv = chars_of(names[k].0.as_str());
        if eq(kv.as_slice(), name) {
            return Some(k);
        }
        k += 1;
    }
    None
}

/// A name found twice within a prefix is the first duplicate of the whole
/// list too.
proof fn lemma_duplicate_prefix(names: Seq<(Seq<char>, usize)>, n: int)
    requires
        0 <= n <= names.len(),
        first_duplicate(names.take(n)) is Some,
    ensures
        first_duplicate(names) == first_duplicate(names.take(n)),
    decreases names.len() - n,
{
    if n < names.len() {
        assert(names.take(n + 1).drop_last() =~= names.take(n));
        lemma_duplicate_prefix(names, n + 1);
    } else {
        assert(names.take(n) =~= names);
    }
}

impl View for CommandRegistry {
    type V = Seq<(Seq<char>, usize)>;

    closed spec fn view(&self) -> Seq<(Seq<char>, usize)> {
        name_views(self.names@)
    }
}

impl CommandRegistry {
    /// Registers commands given as their name and aliases; a name that is
    /// registered twice (after lower-casing) is refused and reported.
    pub fn new(commands: &Vec<(String, Vec<String>)>) -> (r: Result<CommandRegistry, String>)
        ensures
            ({
                let all = registered_names(command_views(commands@));
                match r {
                    Ok(reg) => first_duplicate(all) is None && reg@ == all,
                    Err(name) => first_duplicate(all) == Some(name@),
                }
            }),
    {
        let ghost cs = command_views(commands@);
        let ghost all = registered_names(cs);
        let mut flat: Vec<(String, usize)> = Vec::new();
        let mut c: usize = 0;
        while c < commands.len()
            invariant
                c <= commands@.len(),
                cs == command_views(commands@),
                name_views(flat@) == registered_names(cs.take(c as int)),
            decreases commands@.len() - c,
        {
            let ghost block = command_names(cs[c as int], c);
            let ghost before = name_views(flat@);
            let own = to_lower(chars_of(commands[c].0.as_str()).as_slice());
            flat.push((string_of(own.as_slice()), c));
            assert(name_views(flat@) =~= before + block.take(1));
            let aliases = &commands[c].1;
            let mut j: usize = 0;
            while j < aliases.len()
                invariant
                    j <= aliases@.len(),
                    cs == command_views(commands@),
                    c < commands@.len(),
                    aliases@ == commands@[c as int].1@,
                    block == command_names(cs[c as int], c),
                    block.len() == aliases@.len() + 1,
                    name_views(flat@) == before + block.take(j + 1),
                decreases aliases@.len() - j,
            {
                let ghost mid = name_views(flat@);
                let lowered = to_lower(chars_of(aliases[j].as_str()).as_slice());
                flat.push((string_of(lowered.as_slice()), c));
                assert(block[j + 1] == (lower_seq(aliases@[j as int]@), c));
                assert(name_views(flat@) =~= mid.push(block[j + 1]));
                assert(block.take(j + 2) =~= block.take(j + 1).push(block[j + 1]));
                j += 1;
            }
            assert(block.take(j + 1) =~= block);
            assert(cs.take(c + 1).drop_last() =~= cs.take(c as int));
            c += 1;
        }
        assert(cs.take(c as int) =~= cs);
        let ghost fv = name_views(flat@);
        assert(fv.len() == flat@.len());
        let mut i: usize = 0;
        while i < flat.len()
            invariant
                i <= flat@.len(),
                fv == name_views(flat@),
                fv.len() == flat@.len(),
                fv == registered_names(command_views(commands@)),
                first_duplicate(fv.take(i as int)) is None,
            decreases flat@.len() - i,
        {
            let key = chars_of(flat[i].0.as_str());
            let ghost pre = fv.take(i as int);
            let ghost nxt = fv.take(i + 1);
            assert(nxt.drop_last() =~= pre);
            let mut k: usize = 0;
            while k < i
                invariant
                    k <= i < flat@.len(),
                    fv == name_views(flat@),
                    fv.len() == flat@.len(),
                    nxt == fv.take(i + 1),
                    nxt.drop_last() == fv.take(i as int),
                    first_duplicate(fv.take(i as int)) is None,
                    fv == registered_names(command_views(commands@)),
                    key@ == fv[i as int].0,
                    forall|m: int| 0 <= m < k ==> fv[m].0 != key@,
                decreases i - k,
            {
                let other = chars_of(flat[k].0.as_str());
                if eq(other.as_slice(), key.as_slice()) {
                    assert(nxt.len() == i + 1);
                    assert(nxt[k as int] == fv[k as int]);
                    assert(nxt.last() == fv[i as int]);
                    assert(nxt[k as int].0 == nxt.last().0);
                    assert(first_duplicate(nxt) == Some(key@));
                    assert(fv.take(i + 1) == nxt);
                    proof {
                        lemma_duplicate_prefix(fv, i as int + 1);
                    }
                    return Err(string_of(key.as_slice()));
                }
                k += 1;
            }
            assert(!(exists|m: int| 0 <= m < nxt.len() - 1 && #[trigger] nxt[m].0 == nxt.last().0));
            i += 1;
        }
        assert(fv.take(i as int) =~= fv);
        Ok(CommandRegistry { names: flat })
    }

    /// The index of the command registered under a lower-cased name.
    pub fn resolve(&self, normalized_name: &str) -> (r: Option<usize>)
        ensures
            match r {
                Some(k) => exists|i: int|
                    0 <= i < self@.len() && self@[i] == (normalized_name@, k),
                None => forall|i: int| 0 <= i < self@.len() ==> self@[i].0 != normalized_name@,
            },
    {
        let nv = chars_of(normalized_name);
        match find_name(&self.names, nv.as_slice()) {
            Some(k) => {
                assert(self@[k as int] == (normalized_name@, self.names@[k as int].1));
                Some(self.names[k].1)
            },
            None => None,
        }
    }
}

// ---------------------------------------------------------------------------
// Help content the commands need
// ---------------------------------------------------------------------------

/// The commands whose help text must be present, in the order they are
/// registered.
pub open spec fn help_topics() -> Seq<Seq<char>> {
    seq![
        "push"@,
        "maint"@,
        "item"@,
        "sale"@,
        "st"@,
        "skd"@,
        "tut"@,
        "ut"@,
        "gatya"@,
        "eventdata"@,
    ]
}

fn help_topic(i: usize) -> (r: &'static str)
    requires
        i < 10,
    ensures
        r@ == help_topics()[i as int],
{
    if i == 0 {
        "push"
    } else if i == 1 {
        "maint"
    } else if i == 2 {
        "item"
    } else if i == 3 {
        "sale"
    } else if i == 4 {
        "st"
    } else if i == 5 {
        "skd"
    } else if i == 6 {
        "tut"
    } else if i == 7 {
        "ut"
    } else if i == 8 {
        "gatya"
    } else {
        "eventdata"
    }
}

/// The first help topic among the first `n` that is missing.
pub open spec fn first_missing_topic(available: Seq<Seq<char>>, n: int) -> Option<Seq<char>>
    decreases n,
{
    if n <= 0 {
        None
    } else {
        match first_missing_topic(available, n - 1) {
            Some(t) => Some(t),
            None => if available.contains(help_topics()[n - 1]) {
                None
            } else {
                Some(help_topics()[n - 1])
            },
        }
    }
}

/// Why the commands cannot be registered with the help texts at hand: the
/// help index is missing, or the help of a command (the first in
/// registration order); `None` when all are there.
pub open spec fn spec_missing_help(available: Seq<Seq<char>>) -> Option<Seq<char>> {
    if !available.contains("index"@) {
        Some("missing command help index"@)
    } else {
        match first_missing_topic(available, 10) {
            Some(t) => Some("missing help content for "@ + t),
            None => None,
        }
    }
}

fn has_topic(available: &Vec<String>, topic: &str) -> (r: bool)
    ensures
        r == string_views(available@).contains(topic@),
{
    let ghost av = string_views(available@);
    let t = chars_of(topic);
    let mut i: usize = 0;
    while i < available.len()
        invariant
            i <= available@.len(),
            av == string_views(available@),
            t@ == topic@,
            forall|k: int| 0 <= k < i ==> av[k] != topic@,
        decreases available@.len() - i,
    {
        let a = chars_of(available[i].as_str());
        assert(av[i as int] == available@[i as int]@);
        if eq(a.as_slice(), t.as_slice()) {
            return true;
        }
        i += 1;
    }
    false
}

/// Checks that every help text the commands need is present, given the
/// names of the help texts at hand.
pub fn missing_help(available: &Vec<String>) -> (r: Option<String>)
    ensures
        match r {
            Some(m) => spec_missing_help(string_views(available@)) == Some(m@),
            None => spec_missing_help(string_views(available@)) is None,
        },
{
    let ghost av = string_views(available@);
    if !has_topic(available, "index") {
        return Some(string_of(chars_of("missing command help index").as_slice()));
    }
    let mut i: usize = 0;
    while i < 10
        invariant
            i <= 10,
            av == string_views(available@),
            av.contains("index"@),
            first_missing_topic(av, i as int) is None,
        decreases 10 - i,
    {
        let topic = help_topic(i);
        if !has_topic(available, topic) {
            let mut v = chars_of("missing help content for ");
            append_str(&mut v, topic);
            assert(first_missing_topic(av, i as int + 1) == Some(help_topics()[i as int]));
            proof {
                lemma_first_missing_stays(av, i as int + 1, 10);
            }
            return Some(string_of(v.as_slice()));
        }
        i += 1;
    }
    None
}

proof fn lemma_first_missing_stays(available: Seq<Seq<char>>, k: int, n: int)
    requires
        0 <= k <= n,
        first_missing_topic(available, k) is Some,
    ensures
        first_missing_topic(available, n) == first_missing_topic(available, k),
    decreases n - k,
{
    if k < n {
        lemma_first_missing_stays(available, k, n - 1);
    }
}

} // verus!
