//! The state of the interactive program: the input line, the conversation and the scroll
//! position.

use vstd::prelude::*;
use vstd::string::*;

use crate::command::Command;
use crate::input;
use crate::text;

pub use crate::input::InputBuffer;

verus! {

/// What `/help` prints.
pub const HELP: &'static str =
    "/new  /sessions  /account  /provider  /model  /undo  /redo  /clear  /help  /quit";

#[derive(Debug, Clone, Copy, PartialEq, Eq)]
pub enum Role {
    User,
    Assistant,
    System,
}

/// What a [`Message`] holds.
#[verifier::ext_equal]
pub struct MessageView {
    pub role: Role,
    pub text: Seq<char>,
}

#[derive(Debug, Clone, PartialEq, Eq)]
pub struct Message {
    pub role: Role,
    pub text: String,
}

impl View for Message {
    type V = MessageView;

    open spec fn view(&self) -> MessageView {
        MessageView { role: self.role, text: self.text@ }
    }
}

/// What a list of messages holds.
pub open spec fn messages_view(messages: Seq<Message>) -> Seq<MessageView> {
    messages.map_values(|m: Message| m@)
}

/// What an [`App`] holds.
#[verifier::ext_equal]
pub struct AppView {
    pub input: input::InputView,
    pub messages: Seq<MessageView>,
    pub scroll: u16,
    pub status: Seq<char>,
    pub should_quit: bool,
}

impl AppView {
    /// The state with one more message of the system.
    pub open spec fn told(self, text: Seq<char>) -> AppView {
        AppView {
            messages: self.messages.push(MessageView { role: Role::System, text }),
            ..self
        }
    }

    /// The state scrolled back by some lines, as far as numbers go.
    pub open spec fn scrolled_up(self, amount: u16) -> AppView {
        AppView {
            scroll: if self.scroll + amount <= u16::MAX {
                (self.scroll + amount) as u16
            } else {
                u16::MAX
            },
            ..self
        }
    }

    /// The state scrolled on by some lines, at most to the end.
    pub open spec fn scrolled_down(self, amount: u16) -> AppView {
        AppView {
            scroll: if self.scroll >= amount {
                (self.scroll - amount) as u16
            } else {
                0
            },
            ..self
        }
    }

    /// The effect of a command.
    pub open spec fn commanded(self, command: Command) -> AppView {
        match command {
            Command::Quit => AppView { should_quit: true, ..self },
            Command::Clear => AppView { messages: Seq::empty(), ..self },
            Command::Help => self.told(HELP@),
            Command::New => self.told("Session creation arrives in Phase 3."@),
            Command::Sessions => self.told("Session picker arrives in Phase 3."@),
            Command::Undo | Command::Redo => self.told(
                "Transactional history arrives in Phase 4."@,
            ),
            Command::Account | Command::Provider | Command::Model => self.told(
                "Provider and account selection arrives in Phase 6."@,
            ),
        }
    }

    /// `after` is what becomes of this state when the line `line`, which starts with a slash, is
    /// submitted.
    pub open spec fn executes(self, line: Seq<char>, after: AppView) -> bool {
        let name = text::trimmed(line);
        ||| exists|command: Command| #[trigger]
            command.name() == name && after == self.commanded(command)
        ||| (forall|command: Command| #[trigger] command.name() != name) && after == self.told(
            "Unknown command: "@ + name,
        )
    }

    /// `after` is what becomes of this state when the input line is submitted: an empty line does
    /// nothing, a command is executed, and anything else joins the conversation.
    pub open spec fn submits(self, after: AppView) -> bool {
        let line = self.input.text;
        let taken = AppView { input: input::InputView::empty(), scroll: 0, ..self };
        if line.len() == 0 {
            after == self
        } else if AppView::is_command_line(line) {
            taken.executes(line, after)
        } else {
            after == (AppView {
                messages: taken.messages.push(MessageView { role: Role::User, text: line }),
                ..taken
            }).told("Provider integration is not connected yet."@)
        }
    }

    /// Whether `line` is taken for a command.
    pub open spec fn is_command_line(line: Seq<char>) -> bool {
        text::trimmed_start(line).len() > 0 && text::trimmed_start(line)[0] == '/'
    }
}

#[derive(Debug)]
pub struct App {
    pub input: InputBuffer,
    pub messages: Vec<Message>,
    pub scroll: u16,
    pub status: String,
    pub should_quit: bool,
}

impl View for App {
    type V = AppView;

    open spec fn view(&self) -> AppView {
        AppView {
            input: self.input@,
            messages: messages_view(self.messages@),
            scroll: self.scroll,
            status: self.status@,
            should_quit: self.should_quit,
        }
    }
}

impl Default for App {
    fn default() -> (r: Self)
        ensures
            r.wf(),
            r@ == (AppView {
                input: input::InputView { text: Seq::empty(), cursor: 0 },
                messages: Seq::empty(),
                scroll: 0,
                status: "main · provider not selected · session -"@,
                should_quit: false,
            }),
    {
        let r = App {
            input: InputBuffer::default(),
            messages: Vec::new(),
            scroll: 0,
            status: "main · provider not selected · session -".to_owned(),
            should_quit: false,
        };
        assert(r@.messages =~= Seq::empty());
        r
    }
}

impl App {
    pub open spec fn wf(&self) -> bool {
        self.input.wf()
    }

    /// Takes the input line: a command is executed, anything else joins the conversation.
    pub fn submit(&mut self)
        requires
            old(self).wf(),
        ensures
            final(self).wf(),
            old(self)@.submits(final(self)@),
    {
        if self.input.is_empty() {
            return;
        }
        let line = self.input.take();
        self.scroll = 0;
        let start = text::chars_of(text::trim_start(line.as_str()));
        if start.len() > 0 && start[0] == '/' {
            self.execute_command(line.as_str());
            return;
        }
        let ghost before = self@;
        self.messages.push(Message { role: Role::User, text: line });
        assert(self@.messages =~= before.messages.push(
            MessageView { role: Role::User, text: line@ },
        ));
        self.push_system("Provider integration is not connected yet.");
    }

    fn execute_command(&mut self, line: &str)
        requires
            old(self).wf(),
        ensures
            final(self).wf(),
            old(self)@.executes(line@, final(self)@),
    {
        match Command::parse(line) {
            Ok(command) => {
                let ghost name = command.name();
                match command {
                    Command::Quit => {
                        self.should_quit = true;
                    },
                    Command::Clear => {
                        self.messages.clear();
                        assert(self@.messages =~= Seq::empty());
                    },
                    Command::Help => self.push_system(HELP),
                    Command::New => self.push_system("Session creation arrives in Phase 3."),
                    Command::Sessions => self.push_system("Session picker arrives in Phase 3."),
                    Command::Undo | Command::Redo => self.push_system(
                        "Transactional history arrives in Phase 4.",
                    ),
                    Command::Account | Command::Provider | Command::Model => self.push_system(
                        "Provider and account selection arrives in Phase 6.",
                    ),
                }
            },
            Err(name) => {
                let told = text::joined("Unknown command: ", name);
                self.push_system(told.as_str());
            },
        }
    }

    fn push_system(&mut self, text: &str)
        requires
            old(self).wf(),
        ensures
            final(self).wf(),
            final(self)@ == old(self)@.told(text@),
    {
        let ghost before = self@.messages;
        self.messages.push(Message { role: Role::System, text: text.to_owned() });
        assert(self@.messages =~= before.push(MessageView { role: Role::System, text: text@ }));
    }

    pub fn scroll_up(&mut self, amount: u16)
        ensures
            final(self)@ == old(self)@.scrolled_up(amount),
            final(self).wf() == old(self).wf(),
    {
        self.scroll = self.scroll.saturating_add(amount);
    }

    pub fn scroll_down(&mut self, amount: u16)
        ensures
            final(self)@ == old(self)@.scrolled_down(amount),
            final(self).wf() == old(self).wf(),
    {
        self.scroll = self.scroll.saturating_sub(amount);
    }
}

/// A command line is answered by exactly one outcome: what submitting it does is determined.
pub proof fn execution_is_determined(
    state: AppView,
    line: Seq<char>,
    one: AppView,
    other: AppView,
)
    requires
        state.executes(line, one),
        state.executes(line, other),
    ensures
        one == other,
{
    let name = text::trimmed(line);
    if exists|command: Command| #[trigger] command.name() == name && one == state.commanded(
        command,
    ) {
        let a = choose|command: Command| #[trigger]
            command.name() == name && one == state.commanded(command);
        if exists|command: Command| #[trigger]
            command.name() == name && other == state.commanded(command) {
            let b = choose|command: Command| #[trigger]
                command.name() == name && other == state.commanded(command);
            crate::command::names_are_distinct(a, b);
        }
    }
}

/// Of all lines that can be submitted, only the quit command ends the program.
pub proof fn only_quit_ends_the_program(state: AppView, after: AppView)
    requires
        state.submits(after),
        !state.should_quit,
    ensures
        after.should_quit ==> text::trimmed(state.input.text) == Command::Quit.name(),
{
}

/// A line whose first character that is no white space is a slash is taken for a command, and no
/// other is.
pub proof fn a_slash_makes_a_command(line: Seq<char>)
    ensures
        AppView::is_command_line(line) <==> exists|k: int|
            0 <= k < line.len() && #[trigger] line[k] == '/' && forall|i: int|
                0 <= i < k ==> text::white_space(#[trigger] line[i]),
{
    let from = text::lemma_trimmed_start(line);
    assert(!text::white_space('/'));
    if AppView::is_command_line(line) {
        assert(line[from] == '/');
    }
    if exists|k: int|
        0 <= k < line.len() && #[trigger] line[k] == '/' && forall|i: int|
            0 <= i < k ==> text::white_space(#[trigger] line[i]) {
        let k = choose|k: int|
            0 <= k < line.len() && #[trigger] line[k] == '/' && forall|i: int|
                0 <= i < k ==> text::white_space(#[trigger] line[i]);
        text::trimming_the_start_finds_the_first(line, k);
    }
}

/// A line that trims to a text with a slash at its beginning is taken for a command.
proof fn lemma_trimmed_command(line: Seq<char>)
    requires
        text::trimmed(line).len() > 0,
        text::trimmed(line)[0] == '/',
    ensures
        AppView::is_command_line(line),
        line.len() > 0,
{
    let ends = text::trimming_takes_only_the_ends(line);
    assert(line[ends.0] == '/');
    a_slash_makes_a_command(line);
}

proof fn lemma_named_command(state: AppView, after: AppView, command: Command)
    requires
        state.submits(after),
        text::trimmed(state.input.text) == command.name(),
    ensures
        after == (AppView { input: input::InputView::empty(), scroll: 0, ..state }).commanded(
            command,
        ),
{
    reveal_strlit("/new");
    reveal_strlit("/sessions");
    reveal_strlit("/account");
    reveal_strlit("/provider");
    reveal_strlit("/model");
    reveal_strlit("/undo");
    reveal_strlit("/redo");
    reveal_strlit("/clear");
    reveal_strlit("/help");
    reveal_strlit("/quit");
    let line = state.input.text;
    assert(command.name().len() > 0 && command.name()[0] == '/');
    lemma_trimmed_command(line);
    let taken = AppView { input: input::InputView::empty(), scroll: 0, ..state };
    assert(taken.executes(line, taken.commanded(command)));
    execution_is_determined(taken, line, after, taken.commanded(command));
}

/// After a submitted line that trims to `/clear` the conversation has no messages, however many
/// there were; and nothing else of the program is lost but the line.
pub proof fn clearing_leaves_no_messages(state: AppView, after: AppView)
    requires
        state.submits(after),
        text::trimmed(state.input.text) == "/clear"@,
    ensures
        after.messages.len() == 0,
        after.input.text.len() == 0,
        after.status == state.status,
        after.should_quit == state.should_quit,
{
    lemma_named_command(state, after, Command::Clear);
}

/// After a submitted line that trims to `/quit` the program ends, with the conversation as it was.
pub proof fn quitting_ends_the_program(state: AppView, after: AppView)
    requires
        state.submits(after),
        text::trimmed(state.input.text) == "/quit"@,
    ensures
        after.should_quit,
        after.messages == state.messages,
        after.input.text.len() == 0,
        after.status == state.status,
{
    lemma_named_command(state, after, Command::Quit);
}

/// What the program says to a command that is there only to be named, and to `/help`.
pub open spec fn answer(name: Seq<char>) -> Option<Seq<char>> {
    if name == "/help"@ {
        Some(
            "/new  /sessions  /account  /provider  /model  /undo  /redo  /clear  /help  /quit"@,
        )
    } else if name == "/new"@ {
        Some("Session creation arrives in Phase 3."@)
    } else if name == "/sessions"@ {
        Some("Session picker arrives in Phase 3."@)
    } else if name == "/undo"@ || name == "/redo"@ {
        Some("Transactional history arrives in Phase 4."@)
    } else if name == "/account"@ || name == "/provider"@ || name == "/model"@ {
        Some("Provider and account selection arrives in Phase 6."@)
    } else {
        None
    }
}

/// A command that is answered is answered by one message of the system, behind all those that
/// were there.
pub proof fn commands_are_answered(state: AppView, after: AppView)
    requires
        state.submits(after),
        answer(text::trimmed(state.input.text)) is Some,
    ensures
        after.messages.len() == state.messages.len() + 1,
        after.messages.drop_last() == state.messages,
        after.messages.last().role == Role::System,
        after.messages.last().text == answer(text::trimmed(state.input.text))->0,
        after.input.text.len() == 0,
        after.scroll == 0,
        after.status == state.status,
        after.should_quit == state.should_quit,
{
    let name = text::trimmed(state.input.text);
    let command = if name == "/help"@ {
        Command::Help
    } else if name == "/new"@ {
        Command::New
    } else if name == "/sessions"@ {
        Command::Sessions
    } else if name == "/undo"@ {
        Command::Undo
    } else if name == "/redo"@ {
        Command::Redo
    } else if name == "/account"@ {
        Command::Account
    } else if name == "/provider"@ {
        Command::Provider
    } else {
        Command::Model
    };
    lemma_named_command(state, after, command);
    assert(after.messages.drop_last() =~= state.messages);
}

/// A command line that trims to no command's name is answered by one message of the system, which
/// repeats it.
pub proof fn unknown_commands_are_repeated(state: AppView, after: AppView)
    requires
        state.submits(after),
        text::trimmed(state.input.text).len() > 0,
        text::trimmed(state.input.text)[0] == '/',
        text::trimmed(state.input.text) != "/clear"@,
        text::trimmed(state.input.text) != "/quit"@,
        answer(text::trimmed(state.input.text)) is None,
    ensures
        after.messages.len() == state.messages.len() + 1,
        after.messages.drop_last() == state.messages,
        after.messages.last().role == Role::System,
        after.messages.last().text == "Unknown command: "@ + text::trimmed(state.input.text),
        after.input.text.len() == 0,
        after.scroll == 0,
        after.status == state.status,
        after.should_quit == state.should_quit,
{
    lemma_trimmed_command(state.input.text);
    assert(after.messages.drop_last() =~= state.messages);
}

/// A line that is not empty and no command joins the conversation as it was typed, white space
/// and all, and the system answers; what was said before stays.
pub proof fn other_lines_join_the_conversation(state: AppView, after: AppView)
    requires
        state.submits(after),
        state.input.text.len() > 0,
        forall|k: int|
            0 <= k < state.input.text.len() && #[trigger] state.input.text[k] == '/' ==> exists|
                i: int,
            |
                0 <= i < k && !text::white_space(#[trigger] state.input.text[i]),
    ensures
        after.messages.len() == state.messages.len() + 2,
        after.messages.take(state.messages.len() as int) == state.messages,
        after.messages[state.messages.len() as int].role == Role::User,
        after.messages[state.messages.len() as int].text == state.input.text,
        after.messages.last().role == Role::System,
        after.messages.last().text == "Provider integration is not connected yet."@,
        after.input.text.len() == 0,
        after.scroll == 0,
        after.status == state.status,
        after.should_quit == state.should_quit,
{
    a_slash_makes_a_command(state.input.text);
    assert(after.messages.take(state.messages.len() as int) =~= state.messages);
}

/// Nothing happens on an empty line; and the program that is to end stays so.
pub proof fn empty_lines_do_nothing(state: AppView, after: AppView)
    requires
        state.submits(after),
    ensures
        state.input.text.len() == 0 ==> after == state,
        state.input.text.len() > 0 ==> after.input.text.len() == 0 && after.input.cursor == 0
            && after.scroll == 0,
        state.should_quit ==> after.should_quit,
        after.status == state.status,
{
}

/// That a text stands somewhere in another.
pub open spec fn stands_in(part: Seq<char>, whole: Seq<char>) -> bool {
    exists|i: int| #[trigger] stands_in_at(part, whole, i)
}

pub open spec fn stands_in_at(part: Seq<char>, whole: Seq<char>, i: int) -> bool {
    0 <= i <= whole.len() - part.len() && whole.subrange(i, i + part.len()) == part
}

/// The help names every command.
pub proof fn help_names_every_command(command: Command)
    ensures
        stands_in(command.name(), HELP@),
{
    reveal_strlit(
        "/new  /sessions  /account  /provider  /model  /undo  /redo  /clear  /help  /quit",
    );
    reveal_strlit("/new");
    reveal_strlit("/sessions");
    reveal_strlit("/account");
    reveal_strlit("/provider");
    reveal_strlit("/model");
    reveal_strlit("/undo");
    reveal_strlit("/redo");
    reveal_strlit("/clear");
    reveal_strlit("/help");
    reveal_strlit("/quit");
    let i: int = match command {
        Command::New => 0,
        Command::Sessions => 6,
        Command::Account => 17,
        Command::Provider => 27,
        Command::Model => 38,
        Command::Undo => 46,
        Command::Redo => 53,
        Command::Clear => 60,
        Command::Help => 68,
        Command::Quit => 75,
    };
    let name = command.name();
    assert(HELP@.subrange(i, i + name.len()) =~= name);
    assert(stands_in_at(name, HELP@, i));
}

/// Scrolling touches nothing but the scroll position, which goes up or down by the amount unless
/// it comes to an end of its range.
pub proof fn scrolling_goes_by_the_amount(state: AppView, amount: u16)
    ensures
        state.scrolled_up(amount).scroll == vstd::math::min(
            state.scroll + amount,
            u16::MAX as int,
        ),
        state.scrolled_down(amount).scroll == vstd::math::max(state.scroll - amount, 0),
        (AppView { scroll: state.scroll, ..state.scrolled_up(amount) }) == state,
        (AppView { scroll: state.scroll, ..state.scrolled_down(amount) }) == state,
{
}

} // verus!
