use matrixcode::app::{App, Message, Role};
use matrixcode::tui::{
    handle_event, handle_key, input_height, message_display, plan_frame, render, scroll_offset,
    Area, DisplayLine, Key, KeyPress, TerminalEvent, HEADER_GAP, HEADER_NAME, HEADER_SELECTION,
};

fn press(key: Key) -> KeyPress {
    KeyPress { key, control: false, shift: false }
}

fn control(key: Key) -> KeyPress {
    KeyPress { key, control: true, shift: false }
}

fn message(role: Role, text: &str) -> Message {
    Message { role, text: text.to_owned() }
}

#[test]
fn keys_edit_the_input() {
    let mut app = App::default();
    for ch in "ab".chars() {
        assert!(handle_key(&mut app, press(Key::Char(ch))));
    }
    assert!(handle_key(&mut app, press(Key::Left)));
    assert!(handle_key(&mut app, KeyPress { key: Key::Enter, control: false, shift: true }));
    assert_eq!(app.input.as_str(), "a\nb");
    assert!(handle_key(&mut app, press(Key::Backspace)));
    assert!(handle_key(&mut app, press(Key::Delete)));
    assert_eq!(app.input.as_str(), "a");
    assert!(handle_key(&mut app, press(Key::Home)));
    assert!(handle_key(&mut app, press(Key::Char('x'))));
    assert!(handle_key(&mut app, press(Key::End)));
    assert!(handle_key(&mut app, press(Key::Char('y'))));
    assert_eq!(app.input.as_str(), "xay");
    assert!(handle_key(&mut app, control(Key::Char('a'))));
    assert!(handle_key(&mut app, press(Key::Right)));
    assert!(handle_key(&mut app, press(Key::Char('1'))));
    assert!(handle_key(&mut app, control(Key::Char('e'))));
    assert!(handle_key(&mut app, press(Key::Char('2'))));
    assert_eq!(app.input.as_str(), "x1ay2");
    assert!(handle_key(&mut app, press(Key::Esc)));
    assert!(app.input.is_empty());
    assert!(!handle_key(&mut app, press(Key::Other)));
    assert!(!handle_key(&mut app, control(Key::Char('z'))));
    assert!(!handle_key(&mut app, control(Key::Enter)));
    assert!(app.input.is_empty());
}

#[test]
fn interrupt_ends_the_program_without_drawing() {
    let mut app = App::default();
    assert!(!handle_key(&mut app, control(Key::Char('c'))));
    assert!(app.should_quit);
}

#[test]
fn pages_are_scrolled_by_eight() {
    let mut app = App::default();
    assert!(handle_key(&mut app, press(Key::PageUp)));
    assert!(handle_key(&mut app, press(Key::PageUp)));
    assert_eq!(app.scroll, 16);
    assert!(handle_key(&mut app, press(Key::PageDown)));
    assert_eq!(app.scroll, 8);
}

#[test]
fn events_are_handled() {
    let mut app = App::default();
    assert!(handle_event(&mut app, &TerminalEvent::Resize));
    assert!(!handle_event(&mut app, &TerminalEvent::Other));
    assert!(handle_event(&mut app, &TerminalEvent::Paste("/quit".to_owned())));
    assert_eq!(app.input.as_str(), "/quit");
    assert!(handle_event(&mut app, &TerminalEvent::Key(press(Key::Enter))));
    assert!(app.should_quit);
}

#[test]
fn pasted_text_keeps_its_order_at_the_cursor() {
    let mut app = App::default();
    handle_event(&mut app, &TerminalEvent::Paste("ad".to_owned()));
    handle_key(&mut app, press(Key::Left));
    handle_event(&mut app, &TerminalEvent::Paste("b\nc".to_owned()));
    assert_eq!(app.input.display_with_cursor(), "ab\nc\u{258F}d");
}

#[test]
fn the_input_grows_within_bounds() {
    assert_eq!(input_height(1), 3);
    assert_eq!(input_height(2), 4);
    assert_eq!(input_height(6), 8);
    assert_eq!(input_height(7), 8);
    assert_eq!(input_height(65535), 8);
}

#[test]
fn conversations_are_laid_out_in_lines() {
    let messages = vec![
        message(Role::User, "one\r\ntwo\n"),
        message(Role::Assistant, ""),
        message(Role::System, "a\n\nb\r"),
    ];
    let text = |s: &str| DisplayLine::Text(s.to_owned());
    assert_eq!(
        message_display(&messages),
        vec![
            DisplayLine::Label("You".to_owned()),
            text("one"),
            text("two"),
            DisplayLine::Blank,
            DisplayLine::Label("MatrixCode".to_owned()),
            DisplayLine::Blank,
            DisplayLine::Label("MatrixCode".to_owned()),
            text("a"),
            text(""),
            text("b\r"),
            DisplayLine::Blank,
        ]
    );
}

#[test]
fn the_last_lines_are_in_sight() {
    assert_eq!(scroll_offset(30, 10, 0), 20);
    assert_eq!(scroll_offset(30, 10, 5), 15);
    assert_eq!(scroll_offset(30, 10, 99), 0);
    assert_eq!(scroll_offset(3, 10, 0), 0);
    assert_eq!(scroll_offset(100_000, 10, 0), 65535);
}

#[test]
fn the_screen_is_cut_into_rows() {
    let mut app = App::default();
    app.messages.push(message(Role::User, "hi"));
    handle_event(&mut app, &TerminalEvent::Paste("x\ny".to_owned()));
    let plan = render(&app, Area { x: 1, y: 2, width: 80, height: 30 });
    assert_eq!(plan.header, Area { x: 1, y: 2, width: 80, height: 2 });
    assert_eq!(plan.messages, Area { x: 1, y: 4, width: 80, height: 23 });
    assert_eq!(plan.input, Area { x: 1, y: 27, width: 80, height: 4 });
    assert_eq!(plan.status, Area { x: 1, y: 31, width: 80, height: 1 });
    assert_eq!(plan.prompt, "> x\ny\u{258F}");
    assert_eq!(plan.status_text, "main · provider not selected · session -");
    assert_eq!(plan.lines.len(), 3);
    assert_eq!(plan.offset, 0);
}

#[test]
fn the_lowest_screen_that_fits_is_cut_exactly() {
    let app = App::default();
    let plan = render(&app, Area { x: 0, y: 0, width: 10, height: 7 });
    assert_eq!(plan.header.height, 2);
    assert_eq!(plan.messages, Area { x: 0, y: 2, width: 10, height: 1 });
    assert_eq!(plan.input, Area { x: 0, y: 3, width: 10, height: 3 });
    assert_eq!(plan.status, Area { x: 0, y: 6, width: 10, height: 1 });
}

#[test]
fn a_screen_that_is_too_low_is_still_planned() {
    for lines in 0..8 {
        let mut app = App::default();
        handle_event(&mut app, &TerminalEvent::Paste("\n".repeat(lines)));
        for height in 0..14 {
            for y in [0, 5, u16::MAX - 4] {
                let area = Area { x: 3, y, width: 10, height };
                let plan = render(&app, area);
                let mut next = y;
                for row in [plan.header, plan.messages, plan.input, plan.status] {
                    assert_eq!(row.x, 3);
                    assert_eq!(row.width, 10);
                    assert_eq!(row.y, next);
                    next += row.height;
                }
                assert!(u32::from(next) <= u32::from(y) + u32::from(height));
            }
        }
    }
}

#[test]
fn the_conversation_is_scrolled_to_its_row() {
    let mut app = App::default();
    for _ in 0..10 {
        app.messages.push(message(Role::System, "line"));
    }
    app.scroll = 4;
    let row = |height: u16| Area { x: 0, y: 0, width: 20, height };
    let plan = plan_frame(&app, row(2), row(12), row(3), row(1));
    assert_eq!(plan.lines.len(), 30);
    assert_eq!(plan.offset, 14);
    assert_eq!(plan.messages, row(12));
}

#[test]
fn the_header_names_the_program() {
    assert_eq!(HEADER_NAME, " MatrixCode");
    assert_eq!(HEADER_GAP.len(), 25);
    assert_eq!(HEADER_SELECTION, "provider · account ");
}
