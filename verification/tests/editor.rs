use matrixcode::app::{App, Role, HELP};
use matrixcode::cli::{self, Invocation};
use matrixcode::command::Command;
use matrixcode::input::InputBuffer;

fn typed(text: &str) -> InputBuffer {
    let mut input = InputBuffer::default();
    for ch in text.chars() {
        input.insert(ch);
    }
    input
}

fn submitted(line: &str) -> App {
    let mut app = App::default();
    for ch in line.chars() {
        app.input.insert(ch);
    }
    app.scroll = 5;
    app.submit();
    app
}

#[test]
fn unicode_editing_respects_char_boundaries() {
    let mut input = InputBuffer::default();
    input.insert('a');
    input.insert('ğ');
    input.insert('🙂');
    input.move_left();
    input.backspace();
    assert_eq!(input.as_str(), "a🙂");
    input.delete();
    assert_eq!(input.as_str(), "a");
}

#[test]
fn multiline_home_and_end_stay_on_current_line() {
    let mut input = InputBuffer::default();
    for ch in "one\ntwo".chars() {
        input.insert(ch);
    }
    input.move_home();
    input.insert('>');
    assert_eq!(input.as_str(), "one\n>two");
    input.move_end();
    input.insert('<');
    assert_eq!(input.as_str(), "one\n>two<");
}

#[test]
fn redo_placeholder_does_not_quit() {
    let mut app = App::default();
    for ch in "/redo".chars() {
        app.input.insert(ch);
    }
    app.submit();
    assert!(!app.should_quit);
    assert_eq!(app.messages.len(), 1);
}

#[test]
fn parses_known_commands() {
    assert_eq!(Command::parse("/new"), Ok(Command::New));
    assert_eq!(Command::parse("  /undo  "), Ok(Command::Undo));
    assert_eq!(Command::parse("/quit"), Ok(Command::Quit));
}

#[test]
fn rejects_unknown_commands() {
    assert_eq!(Command::parse("/explode"), Err("/explode"));
}

#[test]
fn package_version_is_not_empty() {
    assert!(!cli::VERSION.is_empty());
}

#[test]
fn every_command_is_parsed_by_its_name() {
    let all = [
        ("/new", Command::New),
        ("/sessions", Command::Sessions),
        ("/account", Command::Account),
        ("/provider", Command::Provider),
        ("/model", Command::Model),
        ("/undo", Command::Undo),
        ("/redo", Command::Redo),
        ("/clear", Command::Clear),
        ("/help", Command::Help),
        ("/quit", Command::Quit),
    ];
    for (name, command) in all {
        assert_eq!(Command::parse(name), Ok(command));
    }
    assert_eq!(Command::parse("\t/help\u{3000}\n"), Ok(Command::Help));
    assert_eq!(Command::parse(" /he lp "), Err("/he lp"));
    assert_eq!(Command::parse(""), Err(""));
}

#[test]
fn arguments_choose_what_the_program_does() {
    assert_eq!(Invocation::from_argument(None), Invocation::Banner);
    assert_eq!(Invocation::from_argument(Some("--version")), Invocation::Version);
    assert_eq!(Invocation::from_argument(Some("-V")), Invocation::Version);
    assert_eq!(Invocation::from_argument(Some("--help")), Invocation::Help);
    assert_eq!(Invocation::from_argument(Some("-h")), Invocation::Help);
    assert_eq!(Invocation::from_argument(Some("-v")), Invocation::Unknown);
    assert_eq!(cli::NAME, "MatrixCode");
    assert_eq!(cli::UNKNOWN_ARGUMENT_EXIT, 2);
}

#[test]
fn the_cursor_is_shown_where_it_stands() {
    let mut input = typed("aé🙂b");
    assert_eq!(input.display_with_cursor(), "aé🙂b\u{258F}");
    input.move_left();
    input.move_left();
    assert_eq!(input.display_with_cursor(), "aé\u{258F}🙂b");
    input.move_left();
    input.move_left();
    input.move_left();
    assert_eq!(input.display_with_cursor(), "\u{258F}aé🙂b");
    input.move_right();
    assert_eq!(input.display_with_cursor(), "a\u{258F}é🙂b");
    for _ in 0..9 {
        input.move_right();
    }
    assert_eq!(input.display_with_cursor(), "aé🙂b\u{258F}");
}

#[test]
fn edits_are_taken_back() {
    let mut input = typed("ab");
    input.move_left();
    let before = input.clone();
    input.insert('ß');
    input.backspace();
    assert_eq!(input, before);
    input.insert('ß');
    input.move_left();
    input.delete();
    assert_eq!(input, before);
}

#[test]
fn edits_at_the_ends_do_nothing() {
    let mut input = typed("x");
    input.delete();
    assert_eq!(input.as_str(), "x");
    input.move_left();
    input.backspace();
    assert_eq!(input.as_str(), "x");
}

#[test]
fn lines_are_counted() {
    assert_eq!(typed("").line_count(), 1);
    assert_eq!(typed("a\n\nb").line_count(), 3);
    assert_eq!(typed("a\n").line_count(), 2);
}

#[test]
fn taking_the_input_leaves_nothing() {
    let mut input = typed("héllo");
    assert_eq!(input.take(), "héllo");
    assert!(input.is_empty());
    input.insert('z');
    assert_eq!(input.as_str(), "z");
    input.clear();
    assert_eq!(input.display_with_cursor(), "\u{258F}");
}

#[test]
fn a_message_is_answered() {
    let app = submitted(" hello ");
    assert_eq!(app.messages.len(), 2);
    assert_eq!(app.messages[0].role, Role::User);
    assert_eq!(app.messages[0].text, " hello ");
    assert_eq!(app.messages[1].role, Role::System);
    assert_eq!(app.messages[1].text, "Provider integration is not connected yet.");
    assert_eq!(app.scroll, 0);
    assert!(app.input.is_empty());
}

#[test]
fn commands_are_executed() {
    assert!(submitted(" /quit").should_quit);
    let told = |line: &str| {
        let app = submitted(line);
        assert_eq!(app.messages.len(), 1);
        assert_eq!(app.messages[0].role, Role::System);
        assert!(!app.should_quit);
        app.messages[0].text.clone()
    };
    assert_eq!(told("/help"), HELP);
    assert_eq!(told("/new"), "Session creation arrives in Phase 3.");
    assert_eq!(told("/sessions"), "Session picker arrives in Phase 3.");
    assert_eq!(told("/undo"), "Transactional history arrives in Phase 4.");
    assert_eq!(told("/redo"), "Transactional history arrives in Phase 4.");
    assert_eq!(told("/account"), "Provider and account selection arrives in Phase 6.");
    assert_eq!(told("/provider"), "Provider and account selection arrives in Phase 6.");
    assert_eq!(told("/model"), "Provider and account selection arrives in Phase 6.");
    assert_eq!(told("  /explode now "), "Unknown command: /explode now");
    let mut app = submitted("hi");
    for ch in "/clear".chars() {
        app.input.insert(ch);
    }
    app.submit();
    assert!(app.messages.is_empty());
}

#[test]
fn an_empty_line_does_nothing() {
    let mut app = App::default();
    app.scroll = 3;
    app.submit();
    assert_eq!(app.scroll, 3);
    assert!(app.messages.is_empty());
    assert_eq!(app.status, "main · provider not selected · session -");
}

#[test]
fn scrolling_stops_at_its_bounds() {
    let mut app = App::default();
    app.scroll_up(7);
    app.scroll_down(7);
    assert_eq!(app.scroll, 0);
    app.scroll_down(1);
    assert_eq!(app.scroll, 0);
    app.scroll_up(65530);
    app.scroll_up(10);
    assert_eq!(app.scroll, 65535);
}
