//! The slash commands that a user can type.

use vstd::prelude::*;

use crate::text;

verus! {

#[derive(Debug, Clone, Copy, PartialEq, Eq)]
pub enum Command {
    New,
    Sessions,
    Account,
    Provider,
    Model,
    Undo,
    Redo,
    Clear,
    Help,
    Quit,
}

impl Command {
    /// What a user types for the command.
    pub open spec fn name(self) -> Seq<char> {
        match self {
            Command::New => "/new"@,
            Command::Sessions => "/sessions"@,
            Command::Account => "/account"@,
            Command::Provider => "/provider"@,
            Command::Model => "/model"@,
            Command::Undo => "/undo"@,
            Command::Redo => "/redo"@,
            Command::Clear => "/clear"@,
            Command::Help => "/help"@,
            Command::Quit => "/quit"@,
        }
    }

    /// The command whose name `input` is, white space around it aside; the trimmed input where
    /// there is none.
    pub fn parse(input: &str) -> (r: Result<Self, &str>)
        ensures
            match r {
                Ok(command) => command.name() == text::trimmed(input@),
                Err(other) => other@ == text::trimmed(input@) && forall|command: Command| #[trigger]
                    command.name() != text::trimmed(input@),
            },
    {
        let name = text::trim(input);
        if text::same_text(name, "/new") {
            Ok(Command::New)
        } else if text::same_text(name, "/sessions") {
            Ok(Command::Sessions)
        } else if text::same_text(name, "/account") {
            Ok(Command::Account)
        } else if text::same_text(name, "/provider") {
            Ok(Command::Provider)
        } else if text::same_text(name, "/model") {
            Ok(Command::Model)
        } else if text::same_text(name, "/undo") {
            Ok(Command::Undo)
        } else if text::same_text(name, "/redo") {
            Ok(Command::Redo)
        } else if text::same_text(name, "/clear") {
            Ok(Command::Clear)
        } else if text::same_text(name, "/help") {
            Ok(Command::Help)
        } else if text::same_text(name, "/quit") {
            Ok(Command::Quit)
        } else {
            Err(name)
        }
    }
}

/// No two commands share a name, so that a name determines its command.
pub proof fn names_are_distinct(a: Command, b: Command)
    requires
        a.name() == b.name(),
    ensures
        a == b,
{
    reveal_strlit("/new");
    reveal_strlit("/sessions");
    reveal_strlit("/account");
    reveal_strlit("/provider");
    reveal_strlit("/model");
    reveal_strlit("/undo");
    reveal_strlit("/redo");
    reveal_strlit("/clear");
    reveal_strlit("/help");
    reveal_strlit("/quit");
    let x = a.name();
    assert(x[1] == b.name()[1] && x[2] == b.name()[2]);
}

/// A name with white space around it is recognised: trimming gives the name back.
pub proof fn padded_name_trims_to_name(command: Command, before: Seq<char>, after: Seq<char>)
    requires
        forall|i: int| 0 <= i < before.len() ==> text::white_space(#[trigger] before[i]),
        forall|i: int| 0 <= i < after.len() ==> text::white_space(#[trigger] after[i]),
    ensures
        text::trimmed(before + command.name() + after) == command.name(),
{
    reveal_strlit("/new");
    reveal_strlit("/sessions");
    reveal_strlit("/account");
    reveal_strlit("/provider");
    reveal_strlit("/model");
    reveal_strlit("/undo");
    reveal_strlit("/redo");
    reveal_strlit("/clear");
    reveal_strlit("/help");
    reveal_strlit("/quit");
    let name = command.name();
    text::lemma_trim_padding(before, name, after);
}

/// Every command has its name, and no text but these names is that of a command.
pub proof fn these_are_the_commands(command: Command)
    ensures
        (command == Command::New) == (command.name() == "/new"@),
        (command == Command::Sessions) == (command.name() == "/sessions"@),
        (command == Command::Account) == (command.name() == "/account"@),
        (command == Command::Provider) == (command.name() == "/provider"@),
        (command == Command::Model) == (command.name() == "/model"@),
        (command == Command::Undo) == (command.name() == "/undo"@),
        (command == Command::Redo) == (command.name() == "/redo"@),
        (command == Command::Clear) == (command.name() == "/clear"@),
        (command == Command::Help) == (command.name() == "/help"@),
        (command == Command::Quit) == (command.name() == "/quit"@),
{
    reveal_strlit("/new");
    reveal_strlit("/sessions");
    reveal_strlit("/account");
    reveal_strlit("/provider");
    reveal_strlit("/model");
    reveal_strlit("/undo");
    reveal_strlit("/redo");
    reveal_strlit("/clear");
    reveal_strlit("/help");
    reveal_strlit("/quit");
    assert("/new"@[1] == 'n' && "/sessions"@[1] == 's' && "/account"@[1] == 'a');
    assert("/provider"@[1] == 'p' && "/model"@[1] == 'm' && "/undo"@[1] == 'u');
    assert("/redo"@[1] == 'r' && "/clear"@[1] == 'c' && "/help"@[1] == 'h' && "/quit"@[1] == 'q');
}

} // verus!
