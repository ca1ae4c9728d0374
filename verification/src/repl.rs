//! The decisions of the interactive loop: how an input line is read, what a
//! slash command asks for, and how each turn changes the conversation.
use vstd::prelude::*;

use crate::message::{ContentBlock, Conversation, Message, Role};
use crate::stream::StreamEvent;
use crate::text::{
    chars_of, find_char, first_index, lemma_first_index_split, str_eq, string_from_range, trim,
    trim_str,
};

verus! {

// ---------------------------------------------------------------------------
// Input lines and slash commands
// ---------------------------------------------------------------------------

/// A slash command.
pub enum Command {
    /// `/clear`: forget the conversation and pending attachments.
    Clear,
    /// `/quit` or `/exit`.
    Quit,
    /// `/attach <path>`.
    Attach { path: String },
    /// `/attach` without a path.
    AttachUsage,
    /// `/save [file]`; the file defaults to `conversation.json`.
    Save { path: String },
    /// `/load <file>`.
    Load { path: String },
    /// `/load` without a file.
    LoadUsage,
    /// `/help`.
    Help,
    /// Any other command; carries its name.
    Unknown { name: String },
}

/// The abstract value of a `Command`.
pub enum CommandView {
    Clear,
    Quit,
    Attach(Seq<char>),
    AttachUsage,
    Save(Seq<char>),
    Load(Seq<char>),
    LoadUsage,
    Help,
    Unknown(Seq<char>),
}

impl View for Command {
    type V = CommandView;

    open spec fn view(&self) -> CommandView {
        match self {
            Command::Clear => CommandView::Clear,
            Command::Quit => CommandView::Quit,
            Command::Attach { path } => CommandView::Attach(path@),
            Command::AttachUsage => CommandView::AttachUsage,
            Command::Save { path } => CommandView::Save(path@),
            Command::Load { path } => CommandView::Load(path@),
            Command::LoadUsage => CommandView::LoadUsage,
            Command::Help => CommandView::Help,
            Command::Unknown { name } => CommandView::Unknown(name@),
        }
    }
}

/// What a trimmed input line is.
pub enum Input {
    /// Nothing but whitespace.
    Empty,
    /// A line starting with `/`.
    Command(Command),
    /// Anything else: a prompt for the model.
    Prompt(String),
}

/// The abstract value of an `Input`.
pub enum InputView {
    Empty,
    Command(CommandView),
    Prompt(Seq<char>),
}

impl View for Input {
    type V = InputView;

    open spec fn view(&self) -> InputView {
        match self {
            Input::Empty => InputView::Empty,
            Input::Command(c) => InputView::Command(c@),
            Input::Prompt(p) => InputView::Prompt(p@),
        }
    }
}

/// The command word of a command body: up to the first space, or all of it.
pub open spec fn command_name(body: Seq<char>) -> Seq<char> {
    if body.contains(' ') {
        body.take(first_index(body, ' '))
    } else {
        body
    }
}

/// The argument of a command body: what follows the first space, trimmed.
pub open spec fn command_arg(body: Seq<char>) -> Seq<char> {
    if body.contains(' ') {
        trim(body.skip(first_index(body, ' ') + 1))
    } else {
        Seq::empty()
    }
}

/// The file a conversation is saved to when `/save` names none.
pub open spec fn default_save_path() -> Seq<char> {
    "conversation.json"@
}

/// The command that a command word and its argument ask for.
pub open spec fn command_of(name: Seq<char>, arg: Seq<char>) -> CommandView {
    if name == "clear"@ {
        CommandView::Clear
    } else if name == "quit"@ || name == "exit"@ {
        CommandView::Quit
    } else if name == "attach"@ {
        if arg.len() == 0 {
            CommandView::AttachUsage
        } else {
            CommandView::Attach(arg)
        }
    } else if name == "save"@ {
        if arg.len() == 0 {
            CommandView::Save(default_save_path())
        } else {
            CommandView::Save(arg)
        }
    } else if name == "load"@ {
        if arg.len() == 0 {
            CommandView::LoadUsage
        } else {
            CommandView::Load(arg)
        }
    } else if name == "help"@ {
        CommandView::Help
    } else {
        CommandView::Unknown(name)
    }
}

/// The command a line asks for; its first character (the `/`) is not part of it.
pub open spec fn command_of_line(line: Seq<char>) -> CommandView {
    let body = line.drop_first();
    command_of(command_name(body), command_arg(body))
}

/// What an input line is, once trimmed.
pub open spec fn input_of(line: Seq<char>) -> InputView {
    let t = trim(line);
    if t.len() == 0 {
        InputView::Empty
    } else if t[0] == '/' {
        InputView::Command(command_of_line(t))
    } else {
        InputView::Prompt(t)
    }
}

/// The line `/<word> <rest>`, with `word` free of spaces: what the command word
/// and the argument are.
proof fn lemma_command_line_split(word: Seq<char>, rest: Seq<char>)
    requires
        !word.contains(' '),
    ensures
        command_name((seq!['/'] + word + seq![' '] + rest).drop_first()) == word,
        command_arg((seq!['/'] + word + seq![' '] + rest).drop_first()) == trim(rest),
{
    let body = word + seq![' '] + rest;
    assert((seq!['/'] + word + seq![' '] + rest).drop_first() =~= body);
    lemma_first_index_split(word, ' ', rest);
}

/// `/attach` takes all the rest of the line after the first space, trimmed, as
/// the path, spaces inside it included; with nothing but blanks it asks for usage.
pub proof fn law_attach_takes_whole_rest(rest: Seq<char>)
    ensures
        trim(rest).len() > 0 ==> command_of_line(seq!['/'] + "attach"@ + seq![' '] + rest)
            == CommandView::Attach(trim(rest)),
        trim(rest).len() == 0 ==> command_of_line(seq!['/'] + "attach"@ + seq![' '] + rest)
            == CommandView::AttachUsage,
{
    reveal_strlit("attach");
    reveal_strlit("clear");
    reveal_strlit("quit");
    reveal_strlit("exit");
    lemma_command_line_split("attach"@, rest);
}

/// `/save` saves to all the rest of the line after the first space, trimmed, and
/// to `conversation.json` when that is blank.
pub proof fn law_save_takes_whole_rest(rest: Seq<char>)
    ensures
        trim(rest).len() > 0 ==> command_of_line(seq!['/'] + "save"@ + seq![' '] + rest)
            == CommandView::Save(trim(rest)),
        trim(rest).len() == 0 ==> command_of_line(seq!['/'] + "save"@ + seq![' '] + rest)
            == CommandView::Save("conversation.json"@),
{
    reveal_strlit("save");
    reveal_strlit("attach");
    reveal_strlit("clear");
    reveal_strlit("quit");
    reveal_strlit("exit");
    assert("save"@ != "quit"@) by { assert("save"@[0] != "quit"@[0]); }
    assert("save"@ != "exit"@) by { assert("save"@[0] != "exit"@[0]); }
    lemma_command_line_split("save"@, rest);
}

/// `/load` loads all the rest of the line after the first space, trimmed; with
/// nothing but blanks it asks for usage.
pub proof fn law_load_takes_whole_rest(rest: Seq<char>)
    ensures
        trim(rest).len() > 0 ==> command_of_line(seq!['/'] + "load"@ + seq![' '] + rest)
            == CommandView::Load(trim(rest)),
        trim(rest).len() == 0 ==> command_of_line(seq!['/'] + "load"@ + seq![' '] + rest)
            == CommandView::LoadUsage,
{
    reveal_strlit("load");
    reveal_strlit("save");
    reveal_strlit("attach");
    reveal_strlit("clear");
    reveal_strlit("quit");
    reveal_strlit("exit");
    assert("load"@ != "quit"@) by { assert("load"@[0] != "quit"@[0]); }
    assert("load"@ != "exit"@) by { assert("load"@[0] != "exit"@[0]); }
    assert("load"@ != "save"@) by { assert("load"@[0] != "save"@[0]); }
    lemma_command_line_split("load"@, rest);
}

/// The command word alone decides the other commands, with or without an
/// argument: `clear`, `quit` or `exit`, `help`; any other word that is not
/// `attach`, `save` or `load` is reported back as unknown.
pub proof fn law_command_words(word: Seq<char>, rest: Seq<char>)
    requires
        !word.contains(' '),
    ensures
        ({
            let with_arg = command_of_line(seq!['/'] + word + seq![' '] + rest);
            let alone = command_of_line(seq!['/'] + word);
            &&& word == "clear"@ ==> with_arg == CommandView::Clear && alone == CommandView::Clear
            &&& word == "quit"@ || word == "exit"@ ==> with_arg == CommandView::Quit && alone
                == CommandView::Quit
            &&& word == "help"@ ==> with_arg == CommandView::Help && alone == CommandView::Help
            &&& word != "clear"@ && word != "quit"@ && word != "exit"@ && word != "help"@ && word
                != "attach"@ && word != "save"@ && word != "load"@ ==> with_arg
                == CommandView::Unknown(word) && alone == CommandView::Unknown(word)
        }),
{
    reveal_strlit("clear");
    reveal_strlit("quit");
    reveal_strlit("exit");
    reveal_strlit("help");
    reveal_strlit("attach");
    reveal_strlit("save");
    reveal_strlit("load");
    lemma_command_line_split(word, rest);
    assert((seq!['/'] + word).drop_first() =~= word);
    assert("help"@ != "quit"@) by { assert("help"@[0] != "quit"@[0]); }
    assert("help"@ != "exit"@) by { assert("help"@[0] != "exit"@[0]); }
    assert("help"@ != "save"@) by { assert("help"@[0] != "save"@[0]); }
    assert("help"@ != "load"@) by { assert("help"@[0] != "load"@[0]); }
    assert("help"@ != "clear"@) by { assert("help"@.len() != "clear"@.len()); }
    assert("help"@ != "attach"@) by { assert("help"@.len() != "attach"@.len()); }
    assert("quit"@ != "exit"@) by { assert("quit"@[0] != "exit"@[0]); }
    assert("quit"@ != "clear"@) by { assert("quit"@.len() != "clear"@.len()); }
    assert("exit"@ != "clear"@) by { assert("exit"@.len() != "clear"@.len()); }
}

/// Reads a slash command. The first character (normally `/`) is skipped; the
/// command word runs to the first space, and the rest, trimmed, is its argument.
pub fn parse_command(input: &str) -> (res: Command)
    requires
        input@.len() > 0,
        input@[0] as u32 <= 0x7f,
    ensures
        res@ == command_of_line(input@),
{
    let cs = chars_of(input);
    let n = cs.len();
    let ghost body = input@.drop_first();
    let mut rest: Vec<char> = Vec::new();
    let mut j: usize = 1;
    while j < n
        invariant
            n == cs@.len(),
            cs@ == input@,
            1 <= j <= n,
            rest@ == cs@.subrange(1, j as int),
        decreases n - j,
    {
        rest.push(cs[j]);
        assert(cs@.subrange(1, j + 1) =~= cs@.subrange(1, j as int).push(cs@[j as int]));
        j += 1;
    }
    assert(rest@ =~= body);
    let (name, arg) = match find_char(&rest, ' ') {
        Some(i) => {
            let raw_arg = string_from_range(&rest, i + 1, rest.len());
            assert(raw_arg@ =~= body.skip(i + 1));
            let name = string_from_range(&rest, 0, i);
            assert(name@ =~= body.take(i as int));
            assert(body.contains(' ')) by {
                assert(body[i as int] == ' ');
            }
            (name, trim_str(raw_arg.as_str()))
        },
        None => {
            let name = string_from_range(&rest, 0, rest.len());
            assert(name@ =~= body);
            (name, String::new())
        },
    };
    let nm = name.as_str();
    if str_eq(nm, "clear") {
        Command::Clear
    } else if str_eq(nm, "quit") || str_eq(nm, "exit") {
        Command::Quit
    } else if str_eq(nm, "attach") {
        if arg.as_str().is_empty() {
            Command::AttachUsage
        } else {
            Command::Attach { path: arg }
        }
    } else if str_eq(nm, "save") {
        if arg.as_str().is_empty() {
            Command::Save { path: "conversation.json".to_owned() }
        } else {
            Command::Save { path: arg }
        }
    } else if str_eq(nm, "load") {
        if arg.as_str().is_empty() {
            Command::LoadUsage
        } else {
            Command::Load { path: arg }
        }
    } else if str_eq(nm, "help") {
        Command::Help
    } else {
        Command::Unknown { name }
    }
}

/// Reads an input line: trimmed, it is empty, a slash command, or a prompt.
pub fn parse_input(line: &str) -> (res: Input)
    ensures
        res@ == input_of(line@),
{
    let t = trim_str(line);
    if t.as_str().is_empty() {
        return Input::Empty;
    }
    let cs = chars_of(t.as_str());
    if cs[0] == '/' {
        Input::Command(parse_command(t.as_str()))
    } else {
        Input::Prompt(t)
    }
}

// ---------------------------------------------------------------------------
// The state of a session
// ---------------------------------------------------------------------------

/// What a chat session remembers between turns.
pub struct ReplState {
    /// The endpoint, for display.
    pub base_url: String,
    /// The model asked for completions.
    pub model: String,
    /// The system prompt sent with every request.
    pub system: Option<String>,
    /// The history sent with every request.
    pub conversation: Conversation,
    /// Attachments queued for the next user message.
    pub pending_attachments: Vec<ContentBlock>,
}

/// `m` is a user message made of `pending` followed by the text `input`.
pub open spec fn is_user_turn(m: Message, pending: Seq<ContentBlock>, input: Seq<char>) -> bool {
    &&& m.role == Role::User
    &&& m.content@.len() == pending.len() + 1
    &&& m.content@.take(pending.len() as int) == pending
    &&& m.content@.last() matches ContentBlock::Text { text } && text@ == input
}

impl ReplState {
    /// A session with an empty conversation and nothing pending.
    pub fn new(base_url: String, model: String, system: Option<String>) -> (res: Self)
        ensures
            res.base_url == base_url,
            res.model == model,
            res.system == system,
            res.conversation.messages@.len() == 0,
            res.pending_attachments@.len() == 0,
    {
        ReplState {
            base_url,
            model,
            system,
            conversation: Conversation::new(),
            pending_attachments: Vec::new(),
        }
    }

    /// `/clear`: forgets the conversation and any pending attachments.
    pub fn clear(&mut self)
        ensures
            final(self).conversation.messages@.len() == 0,
            final(self).pending_attachments@.len() == 0,
            final(self).base_url == old(self).base_url,
            final(self).model == old(self).model,
            final(self).system == old(self).system,
    {
        self.conversation.messages.clear();
        self.pending_attachments.clear();
    }

    /// Queues an attachment for the next user message.
    pub fn attach(&mut self, block: ContentBlock)
        ensures
            final(self).pending_attachments@ == old(self).pending_attachments@.push(block),
            final(self).conversation == old(self).conversation,
            final(self).base_url == old(self).base_url,
            final(self).model == old(self).model,
            final(self).system == old(self).system,
    {
        self.pending_attachments.push(block);
    }

    /// `/load`: replaces the conversation; pending attachments stay queued.
    pub fn load(&mut self, conversation: Conversation)
        ensures
            final(self).conversation == conversation,
            final(self).pending_attachments == old(self).pending_attachments,
            final(self).base_url == old(self).base_url,
            final(self).model == old(self).model,
            final(self).system == old(self).system,
    {
        self.conversation = conversation;
    }

    /// Starts a turn: the pending attachments, then the text `input`, become one
    /// user message appended to the conversation; nothing stays pending.
    pub fn begin_turn(&mut self, input: &str)
        ensures
            final(self).pending_attachments@.len() == 0,
            final(self).conversation.messages@.len() == old(self).conversation.messages@.len() + 1,
            final(self).conversation.messages@.drop_last() == old(self).conversation.messages@,
            is_user_turn(
                final(self).conversation.messages@.last(),
                old(self).pending_attachments@,
                input@,
            ),
            final(self).base_url == old(self).base_url,
            final(self).model == old(self).model,
            final(self).system == old(self).system,
    {
        let mut content: Vec<ContentBlock> = Vec::new();
        std::mem::swap(&mut content, &mut self.pending_attachments);
        let ghost pending = content@;
        content.push(ContentBlock::Text { text: input.to_owned() });
        assert(content@.take(pending.len() as int) =~= pending);
        let msg = Message { role: Role::User, content };
        self.conversation.push(msg);
        assert(self.conversation.messages@.drop_last() =~= old(self).conversation.messages@);
    }

    /// Ends a turn: a non-empty reply is appended as an assistant message; an
    /// empty one leaves the conversation as it was.
    pub fn finish_turn(&mut self, reply: String)
        ensures
            reply@.len() == 0 ==> final(self).conversation == old(self).conversation,
            reply@.len() > 0 ==> {
                &&& final(self).conversation.messages@.len() == old(
                    self,
                ).conversation.messages@.len() + 1
                &&& final(self).conversation.messages@.drop_last() == old(
                    self,
                ).conversation.messages@
                &&& final(self).conversation.messages@.last().role == Role::Assistant
                &&& final(self).conversation.messages@.last().content@ == seq![
                    ContentBlock::Text { text: reply },
                ]
            },
            final(self).pending_attachments == old(self).pending_attachments,
            final(self).base_url == old(self).base_url,
            final(self).model == old(self).model,
            final(self).system == old(self).system,
    {
        if !reply.as_str().is_empty() {
            let ghost r = reply;
            let mut content: Vec<ContentBlock> = Vec::new();
            content.push(ContentBlock::Text { text: reply });
            assert(content@ =~= seq![ContentBlock::Text { text: r }]);
            self.conversation.push(Message { role: Role::Assistant, content });
            assert(self.conversation.messages@.drop_last() =~= old(self).conversation.messages@);
        }
    }
}

/// The text a streamed event adds to a reply: that of a text delta, else none.
pub open spec fn event_text(e: StreamEvent) -> Seq<char> {
    match e {
        StreamEvent::TextDelta(t) => t@,
        _ => Seq::empty(),
    }
}

/// The reply that a run of events builds, and whether it ended: the events are
/// taken in turn, as `absorb_event` takes them, until the first `MessageEnd`;
/// nothing after it is read.
pub open spec fn reply_of(events: Seq<StreamEvent>) -> (Seq<char>, bool)
    decreases events.len(),
{
    if events.len() == 0 {
        (Seq::empty(), false)
    } else if events[0] is MessageEnd {
        (Seq::empty(), true)
    } else {
        let r = reply_of(events.drop_first());
        (event_text(events[0]) + r.0, r.1)
    }
}

/// Takes in one streamed event of a reply: text is appended to `reply`, and the
/// result says whether the reply is complete (the message ended).
pub fn absorb_event(reply: &mut String, event: &StreamEvent) -> (done: bool)
    ensures
        done == (event is MessageEnd),
        final(reply)@ == old(reply)@ + event_text(*event),
        match event {
            StreamEvent::TextDelta(t) => final(reply)@ == old(reply)@ + t@,
            _ => final(reply)@ == old(reply)@,
        },
{
    match event {
        StreamEvent::TextDelta(t) => {
            reply.append(t.as_str());
            false
        },
        StreamEvent::MessageEnd { .. } => true,
        _ => {
            assert(old(reply)@ + Seq::<char>::empty() =~= old(reply)@);
            false
        },
    }
}

/// One step of a reply: the first event ends it, or adds its text before the
/// rest, just as `absorb_event` reports and appends.
pub proof fn law_reply_step(e: StreamEvent, rest: Seq<StreamEvent>)
    ensures
        reply_of(seq![e] + rest) == if e is MessageEnd {
            (Seq::<char>::empty(), true)
        } else {
            (event_text(e) + reply_of(rest).0, reply_of(rest).1)
        },
{
    assert((seq![e] + rest).drop_first() =~= rest);
}

/// Events that arrive in two runs build the reply of the first run, and, unless
/// that run ended it, the reply of the second run after it.
pub proof fn law_reply_concat(a: Seq<StreamEvent>, b: Seq<StreamEvent>)
    ensures
        reply_of(a + b) == if reply_of(a).1 {
            reply_of(a)
        } else {
            (reply_of(a).0 + reply_of(b).0, reply_of(b).1)
        },
    decreases a.len(),
{
    if a.len() == 0 {
        assert(a + b =~= b);
        assert(Seq::<char>::empty() + reply_of(b).0 =~= reply_of(b).0);
    } else {
        assert((a + b).drop_first() =~= a.drop_first() + b);
        assert((a + b)[0] == a[0]);
        law_reply_concat(a.drop_first(), b);
        let r = reply_of(a.drop_first());
        if !(a[0] is MessageEnd) && !r.1 {
            assert(event_text(a[0]) + (r.0 + reply_of(b).0) =~= (event_text(a[0]) + r.0)
                + reply_of(b).0);
        }
    }
}

/// Nothing after the first `MessageEnd` is read: what follows it changes nothing.
pub proof fn law_after_end_unread(a: Seq<StreamEvent>, e: StreamEvent, b: Seq<StreamEvent>)
    requires
        e is MessageEnd,
    ensures
        reply_of(a + seq![e] + b) == reply_of(a + seq![e]),
    decreases a.len(),
{
    if a.len() == 0 {
        assert((a + seq![e] + b)[0] == e);
        assert((a + seq![e])[0] == e);
    } else {
        assert((a + seq![e] + b).drop_first() =~= a.drop_first() + seq![e] + b);
        assert((a + seq![e]).drop_first() =~= a.drop_first() + seq![e]);
        assert((a + seq![e] + b)[0] == a[0]);
        assert((a + seq![e])[0] == a[0]);
        law_after_end_unread(a.drop_first(), e, b);
    }
}

/// Events that carry neither text nor the end (usage, tool-use events) change
/// nothing of the reply, wherever they come.
pub proof fn law_non_text_events_invisible(a: Seq<StreamEvent>, e: StreamEvent, b: Seq<StreamEvent>)
    requires
        !(e is TextDelta),
        !(e is MessageEnd),
    ensures
        reply_of(a + seq![e] + b) == reply_of(a + b),
    decreases a.len(),
{
    if a.len() == 0 {
        assert((a + seq![e] + b)[0] == e);
        assert((a + seq![e] + b).drop_first() =~= a + b);
        assert(event_text(e) + reply_of(a + b).0 =~= reply_of(a + b).0);
    } else {
        assert((a + seq![e] + b).drop_first() =~= a.drop_first() + seq![e] + b);
        assert((a + b).drop_first() =~= a.drop_first() + b);
        assert((a + seq![e] + b)[0] == a[0]);
        assert((a + b)[0] == a[0]);
        law_non_text_events_invisible(a.drop_first(), e, b);
    }
}

} // verus!
