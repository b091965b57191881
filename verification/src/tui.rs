//! The screen: what keys do to the program, and what is drawn where.

use vstd::prelude::*;
use vstd::string::*;

use ratatui::layout::{Constraint, Direction, Layout, Rect};

use crate::app;
use crate::app::{App, Message, Role};
use crate::input;
use crate::text;

verus! {

// ---------------------------------------------------------------------------------------------
// Events

/// The keys that the program knows.
#[derive(Debug, Clone, Copy, PartialEq, Eq, Structural)]
pub enum Key {
    Enter,
    Char(char),
    Backspace,
    Delete,
    Left,
    Right,
    Home,
    End,
    PageUp,
    PageDown,
    Esc,
    Other,
}

/// A key with the modifiers that are held.
#[derive(Debug, Clone, Copy, PartialEq, Eq, Structural)]
pub struct KeyPress {
    pub key: Key,
    pub control: bool,
    pub shift: bool,
}

/// What the terminal reports.
#[derive(Debug, Clone, PartialEq, Eq)]
pub enum TerminalEvent {
    /// A key that was pressed.
    Key(KeyPress),
    Resize,
    Paste(String),
    Other,
}

/// How far a page is scrolled.
pub const PAGE: u16 = 8;

/// What a key does to the input line.
pub open spec fn edited(v: input::InputView, key: Key) -> input::InputView {
    match key {
        Key::Char(ch) => v.inserted(ch),
        Key::Backspace => v.backspaced(),
        Key::Delete => v.deleted(),
        Key::Left => v.moved_left(),
        Key::Right => v.moved_right(),
        Key::Home => v.moved_home(),
        Key::End => v.moved_end(),
        Key::Esc => input::InputView::empty(),
        _ => v,
    }
}

pub open spec fn with_input(v: app::AppView, input: input::InputView) -> app::AppView {
    app::AppView { input, ..v }
}

/// `after` is what becomes of the program when a key is pressed, and `drawn` is whether the screen
/// is drawn anew.
pub open spec fn pressed(
    before: app::AppView,
    press: KeyPress,
    after: app::AppView,
    drawn: bool,
) -> bool {
    if press.control {
        match press.key {
            Key::Char('c') => !drawn && after == (app::AppView { should_quit: true, ..before }),
            Key::Char('a') => drawn && after == with_input(before, before.input.moved_home()),
            Key::Char('e') => drawn && after == with_input(before, before.input.moved_end()),
            _ => !drawn && after == before,
        }
    } else {
        match press.key {
            Key::Enter => drawn && if press.shift {
                after == with_input(before, before.input.inserted('\n'))
            } else {
                before.submits(after)
            },
            Key::PageUp => drawn && after == before.scrolled_up(PAGE),
            Key::PageDown => drawn && after == before.scrolled_down(PAGE),
            Key::Other => !drawn && after == before,
            key => drawn && after == with_input(before, edited(before.input, key)),
        }
    }
}

/// `after` is what becomes of the program on an event, and `drawn` is whether the screen is drawn
/// anew.
pub open spec fn handles(
    before: app::AppView,
    event: TerminalEvent,
    after: app::AppView,
    drawn: bool,
) -> bool {
    match event {
        TerminalEvent::Key(press) => pressed(before, press, after, drawn),
        TerminalEvent::Resize => drawn && after == before,
        TerminalEvent::Paste(pasted) => drawn && after == with_input(
            before,
            before.input.typed(pasted@),
        ),
        TerminalEvent::Other => !drawn && after == before,
    }
}

/// Does what a key is for, and says whether the screen has to be drawn anew.
pub fn handle_key(app: &mut App, press: KeyPress) -> (drawn: bool)
    requires
        old(app).wf(),
    ensures
        final(app).wf(),
        pressed(old(app)@, press, final(app)@, drawn),
{
    if press.control {
        match press.key {
            Key::Char('c') => {
                app.should_quit = true;
                return false;
            },
            Key::Char('a') => app.input.move_home(),
            Key::Char('e') => app.input.move_end(),
            _ => return false,
        }
        return true;
    }
    match press.key {
        Key::Enter => if press.shift {
            app.input.insert('\n')
        } else {
            app.submit()
        },
        Key::Char(ch) => app.input.insert(ch),
        Key::Backspace => app.input.backspace(),
        Key::Delete => app.input.delete(),
        Key::Left => app.input.move_left(),
        Key::Right => app.input.move_right(),
        Key::Home => app.input.move_home(),
        Key::End => app.input.move_end(),
        Key::PageUp => app.scroll_up(PAGE),
        Key::PageDown => app.scroll_down(PAGE),
        Key::Esc => app.input.clear(),
        Key::Other => return false,
    }
    true
}

/// Does what an event asks for, and says whether the screen has to be drawn anew.
pub fn handle_event(app: &mut App, event: &TerminalEvent) -> (drawn: bool)
    requires
        old(app).wf(),
    ensures
        final(app).wf(),
        handles(old(app)@, *event, final(app)@, drawn),
{
    match event {
        TerminalEvent::Key(press) => handle_key(app, *press),
        TerminalEvent::Resize => true,
        TerminalEvent::Paste(pasted) => {
            let chars = text::chars_of(pasted.as_str());
            let ghost before = app@;
            let mut i: usize = 0;
            assert(chars@.take(0) =~= Seq::empty());
            while i < chars.len()
                invariant
                    chars@ == pasted@,
                    i <= chars@.len(),
                    app.wf(),
                    app@ == with_input(before, before.input.typed(chars@.take(i as int))),
                decreases chars@.len() - i,
            {
                assert(chars@.take(i + 1).drop_last() =~= chars@.take(i as int));
                app.input.insert(chars[i]);
                i = i + 1;
            }
            assert(chars@.take(i as int) =~= pasted@);
            true
        },
        TerminalEvent::Other => false,
    }
}

/// Only the interrupt key and a submitted line can end the program.
pub proof fn little_ends_the_program(
    before: app::AppView,
    event: TerminalEvent,
    after: app::AppView,
    drawn: bool,
)
    requires
        handles(before, event, after, drawn),
        !before.should_quit,
        after.should_quit,
    ensures
        event matches TerminalEvent::Key(press) && {
            ||| press.control && press.key == Key::Char('c')
            ||| !press.control && !press.shift && press.key == Key::Enter
        },
{
}

/// Where the screen is not drawn anew, nothing that it shows has changed.
pub proof fn what_is_shown_is_up_to_date(
    before: app::AppView,
    event: TerminalEvent,
    after: app::AppView,
)
    requires
        handles(before, event, after, false),
    ensures
        after.input == before.input,
        after.messages == before.messages,
        after.scroll == before.scroll,
        after.status == before.status,
{
}

// ---------------------------------------------------------------------------------------------
// Layout

/// A rectangle of the screen.
#[derive(Debug, Clone, Copy, PartialEq, Eq, Structural)]
pub struct Area {
    pub x: u16,
    pub y: u16,
    pub width: u16,
    pub height: u16,
}

/// How high the header is.
pub const HEADER_HEIGHT: u16 = 2;

/// How high the messages are at least.
pub const LEAST_HEIGHT: u16 = 1;

/// How high the status is.
pub const STATUS_HEIGHT: u16 = 1;

/// The rows that an area is cut into where it is high enough: the first, the third and the last
/// as high as asked for, and the second as high as what is left.
pub open spec fn rows_of(area: Area, first: u16, third: u16, last: u16) -> Seq<Area> {
    seq![
        Area { height: first, ..area },
        Area {
            y: (area.y + first) as u16,
            height: (area.height - first - third - last) as u16,
            ..area
        },
        Area {
            y: (area.y + area.height - last - third) as u16,
            height: third,
            ..area
        },
        Area { y: (area.y + area.height - last) as u16, height: last, ..area },
    ]
}

/// That an area is high enough for all rows, the second of which must be `least` high.
pub open spec fn roomy(area: Area, first: u16, least: u16, third: u16, last: u16) -> bool {
    &&& area.height >= first + least + third + last
    &&& area.y + area.height <= u16::MAX
}

/// That a row lies in an area and is of its width.
pub open spec fn inside(row: Area, area: Area) -> bool {
    &&& row.x == area.x
    &&& row.width == area.width
    &&& area.y <= row.y
    &&& row.y + row.height <= area.y + area.height
}

/// That rows follow each other from the top of an area on, without gaps or overlaps.
pub open spec fn follow(rows: Seq<Area>, area: Area) -> bool {
    &&& rows[0].y == area.y
    &&& forall|i: int|
        0 <= i < rows.len() - 1 ==> (#[trigger] rows[i]).y + rows[i].height == rows[i + 1].y
}

/// Cuts an area into four rows with `ratatui::layout::Layout::split`. The rows lie in the area, are
/// of its width, and follow each other from the top: gaps weigh more than the rows' heights. Where
/// the area is high enough, rows of a fixed length have that length, and the row of a least length
/// takes what is left. Which rows of an area that is too low give way, and how far, is left open:
/// they have equal claims, and the solver below `split` settles them in the order in which it walks
/// a hash map, which differs from one process to the next.
#[verifier::external_body]
fn split_rows(area: Area, first: u16, least: u16, third: u16, last: u16) -> (rows: Vec<Area>)
    requires
        least <= i16::MAX,
    ensures
        rows@.len() == 4,
        forall|i: int| 0 <= i < 4 ==> inside(#[trigger] rows@[i], area),
        follow(rows@, area),
        roomy(area, first, least, third, last) ==> rows@ == rows_of(area, first, third, last),
{
    Layout::default()
        .direction(Direction::Vertical)
        .constraints([
            Constraint::Length(first),
            Constraint::Min(least),
            Constraint::Length(third),
            Constraint::Length(last),
        ])
        .split(Rect { x: area.x, y: area.y, width: area.width, height: area.height })
        .iter()
        .map(|row| Area { x: row.x, y: row.y, width: row.width, height: row.height })
        .collect()
}

/// How many rows the input takes: its lines and two for the borders, but at least three and at
/// most eight.
pub fn input_height(line_count: u16) -> (r: u16)
    ensures
        r == (if line_count < 1 {
            3
        } else if line_count > 6 {
            8
        } else {
            line_count + 2
        }),
{
    if line_count < 1 {
        3
    } else if line_count > 6 {
        8
    } else {
        line_count + 2
    }
}

// ---------------------------------------------------------------------------------------------
// What is drawn

/// What stands over a message.
pub open spec fn label(role: Role) -> Seq<char> {
    match role {
        Role::User => "You"@,
        Role::Assistant | Role::System => "MatrixCode"@,
    }
}

/// What a [`DisplayLine`] holds.
#[verifier::ext_equal]
pub enum DisplayLineView {
    Label(Seq<char>),
    Text(Seq<char>),
    Blank,
}

/// A line of the conversation as it is drawn.
#[derive(Debug, Clone, PartialEq, Eq)]
pub enum DisplayLine {
    /// Who speaks, in bold.
    Label(String),
    Text(String),
    Blank,
}

impl View for DisplayLine {
    type V = DisplayLineView;

    open spec fn view(&self) -> DisplayLineView {
        match *self {
            DisplayLine::Label(s) => DisplayLineView::Label(s@),
            DisplayLine::Text(s) => DisplayLineView::Text(s@),
            DisplayLine::Blank => DisplayLineView::Blank,
        }
    }
}

pub open spec fn display_view(list: Seq<DisplayLine>) -> Seq<DisplayLineView> {
    list.map_values(|l: DisplayLine| l@)
}

/// The lines of a message: who speaks, what is said, and a blank line.
pub open spec fn message_lines(m: app::MessageView) -> Seq<DisplayLineView> {
    seq![DisplayLineView::Label(label(m.role))] + text::shown_lines(m.text).map_values(
        |l: Seq<char>| DisplayLineView::Text(l),
    ) + seq![DisplayLineView::Blank]
}

/// The lines of a conversation.
pub open spec fn conversation(messages: Seq<app::MessageView>) -> Seq<DisplayLineView>
    decreases messages.len(),
{
    if messages.len() == 0 {
        Seq::empty()
    } else {
        conversation(messages.drop_last()) + message_lines(messages.last())
    }
}

/// How many lines at the top are out of sight: all that do not fit, less those scrolled back.
pub open spec fn hidden(lines: int, height: u16, scroll: u16) -> u16 {
    let most = vstd::math::min(vstd::math::max(lines - height, 0), u16::MAX as int);
    (most - vstd::math::min(scroll as int, most)) as u16
}

/// Computes how many lines at the top are out of sight.
pub fn scroll_offset(lines: usize, height: u16, scroll: u16) -> (r: u16)
    ensures
        r == hidden(lines as int, height, scroll),
{
    let rest: usize = lines.saturating_sub(height as usize);
    let most: u16 = if rest > u16::MAX as usize {
        u16::MAX
    } else {
        rest as u16
    };
    if scroll < most {
        most - scroll
    } else {
        0
    }
}

fn push_display(list: &mut Vec<DisplayLine>, line: DisplayLine)
    ensures
        display_view(final(list)@) == display_view(old(list)@).push(line@),
{
    let ghost before = display_view(list@);
    list.push(line);
    assert(display_view(list@) =~= before.push(line@));
}

fn push_text_lines(list: &mut Vec<DisplayLine>, s: &str)
    ensures
        display_view(final(list)@) == display_view(old(list)@) + text::shown_lines(s@).map_values(
            |l: Seq<char>| DisplayLineView::Text(l),
        ),
{
    let ghost before = display_view(list@);
    let lines = text::list_lines(s);
    let ghost drawn = text::shown_lines(s@).map_values(|l: Seq<char>| DisplayLineView::Text(l));
    let mut i: usize = 0;
    assert(before + drawn.take(0) =~= before);
    assert(drawn.len() == lines@.len());
    while i < lines.len()
        invariant
            text::texts(lines@) == text::shown_lines(s@),
            drawn == text::shown_lines(s@).map_values(|l: Seq<char>| DisplayLineView::Text(l)),
            drawn.len() == lines@.len(),
            i <= lines@.len(),
            display_view(list@) == before + drawn.take(i as int),
        decreases lines@.len() - i,
    {
        assert(text::texts(lines@)[i as int] == lines@[i as int]@);
        push_display(list, DisplayLine::Text(lines[i].clone()));
        assert(before + drawn.take(i + 1) =~= (before + drawn.take(i as int)).push(
            drawn[i as int],
        ));
        i = i + 1;
    }
    assert(drawn.take(i as int) =~= drawn);
}

fn push_message(list: &mut Vec<DisplayLine>, message: &Message)
    ensures
        display_view(final(list)@) == display_view(old(list)@) + message_lines(message@),
{
    let ghost before = display_view(list@);
    let who = match message.role {
        Role::User => "You",
        Role::Assistant | Role::System => "MatrixCode",
    };
    push_display(list, DisplayLine::Label(who.to_owned()));
    push_text_lines(list, message.text.as_str());
    push_display(list, DisplayLine::Blank);
    assert(display_view(list@) =~= before + message_lines(message@));
}

/// Lays a conversation out in lines.
pub fn message_display(messages: &Vec<Message>) -> (r: Vec<DisplayLine>)
    ensures
        display_view(r@) == conversation(app::messages_view(messages@)),
{
    let ghost all = app::messages_view(messages@);
    let mut r: Vec<DisplayLine> = Vec::new();
    let mut i: usize = 0;
    assert(display_view(r@) =~= conversation(all.take(0)));
    while i < messages.len()
        invariant
            all == app::messages_view(messages@),
            i <= messages@.len(),
            display_view(r@) == conversation(all.take(i as int)),
        decreases messages@.len() - i,
    {
        assert(all.take(i + 1).drop_last() =~= all.take(i as int));
        assert(all[i as int] == messages@[i as int]@);
        push_message(&mut r, &messages[i]);
        i = i + 1;
    }
    assert(all.take(i as int) =~= all);
    r
}

/// What stands in the header: the name, a gap, and what is selected.
pub const HEADER_NAME: &'static str = " MatrixCode";

pub const HEADER_GAP: &'static str = "                         ";

pub const HEADER_SELECTION: &'static str = "provider · account ";

/// What is drawn, and where.
#[derive(Debug, Clone, PartialEq, Eq)]
pub struct FramePlan {
    pub header: Area,
    pub messages: Area,
    pub input: Area,
    pub status: Area,
    pub lines: Vec<DisplayLine>,
    pub offset: u16,
    pub prompt: String,
    pub status_text: String,
}

/// How many rows the input of a program takes.
pub open spec fn input_rows(v: app::AppView) -> u16 {
    let count = input::line_feeds(v.input.text) + 1;
    if count > 6 {
        8
    } else {
        (count + 2) as u16
    }
}

/// What a plan shows: the conversation, scrolled as far as its row and the program ask, the input
/// behind a prompt, and the status.
pub open spec fn shows(plan: FramePlan, v: app::AppView) -> bool {
    &&& display_view(plan.lines@) == conversation(v.messages)
    &&& plan.offset == hidden(
        conversation(v.messages).len() as int,
        plan.messages.height,
        v.scroll,
    )
    &&& plan.prompt@ == "> "@ + v.input.shown()
    &&& plan.status_text@ == v.status
}

/// Plans what is drawn in the given rows.
pub fn plan_frame(app: &App, header: Area, messages: Area, input: Area, status: Area) -> (plan:
    FramePlan)
    requires
        app.wf(),
    ensures
        shows(plan, app@),
        plan.header == header,
        plan.messages == messages,
        plan.input == input,
        plan.status == status,
{
    let lines = message_display(&app.messages);
    assert(display_view(lines@).len() == lines@.len());
    let offset = scroll_offset(lines.len(), messages.height, app.scroll);
    let shown = app.input.display_with_cursor();
    FramePlan {
        header,
        messages,
        input,
        status,
        lines,
        offset,
        prompt: text::joined("> ", shown.as_str()),
        status_text: app.status.clone(),
    }
}

/// Plans what is drawn on the screen.
pub fn render(app: &App, area: Area) -> (plan: FramePlan)
    requires
        app.wf(),
    ensures
        shows(plan, app@),
        follow(seq![plan.header, plan.messages, plan.input, plan.status], area),
        roomy(area, HEADER_HEIGHT, LEAST_HEIGHT, input_rows(app@), STATUS_HEIGHT) ==> seq![
            plan.header,
            plan.messages,
            plan.input,
            plan.status,
        ] == rows_of(area, HEADER_HEIGHT, input_rows(app@), STATUS_HEIGHT),
        inside(plan.header, area),
        inside(plan.messages, area),
        inside(plan.input, area),
        inside(plan.status, area),
{
    let height = input_height(app.input.line_count());
    assert(height == input_rows(app@));
    let rows = split_rows(area, HEADER_HEIGHT, LEAST_HEIGHT, height, STATUS_HEIGHT);
    let plan = plan_frame(app, rows[0], rows[1], rows[2], rows[3]);
    assert(seq![plan.header, plan.messages, plan.input, plan.status] =~= rows@);
    plan
}

/// Unless something is scrolled back, the last lines are in sight; and what is scrolled back stops
/// at the first line.
pub proof fn the_end_is_in_sight(lines: int, height: u16, scroll: u16)
    requires
        0 <= lines <= height + u16::MAX,
    ensures
        hidden(lines, height, 0) + height >= lines,
        lines > height ==> hidden(lines, height, 0) + height == lines,
        hidden(lines, height, scroll) <= hidden(lines, height, 0),
        hidden(lines, height, u16::MAX) == 0,
{
}

/// The rows fill an area from top to bottom without gaps or overlaps.
pub proof fn rows_fill_the_area(area: Area, first: u16, least: u16, third: u16, last: u16)
    requires
        roomy(area, first, least, third, last),
    ensures
        ({
            let rows = rows_of(area, first, third, last);
            &&& rows[0].y == area.y
            &&& rows[1].y == rows[0].y + rows[0].height
            &&& rows[2].y == rows[1].y + rows[1].height
            &&& rows[3].y == rows[2].y + rows[2].height
            &&& rows[3].y + rows[3].height == area.y + area.height
            &&& rows[1].height >= least
        }),
{
}

/// Scrolling back and forth by the same amount leads back, unless the first step went as far as
/// it could.
pub proof fn scrolling_can_be_taken_back(v: app::AppView, amount: u16)
    ensures
        v.scroll + amount <= u16::MAX ==> v.scrolled_up(amount).scrolled_down(amount) == v,
        v.scroll >= amount ==> v.scrolled_down(amount).scrolled_up(amount) == v,
{
}

/// Every character typed without control goes in at the cursor, with shift or without.
pub proof fn typed_characters_go_in(
    before: app::AppView,
    press: KeyPress,
    after: app::AppView,
    drawn: bool,
    ch: char,
)
    requires
        pressed(before, press, after, drawn),
        !press.control,
        press.key == Key::Char(ch),
    ensures
        drawn,
        after.input.text == before.input.text.insert(before.input.cursor, ch),
        after.input.cursor == before.input.cursor + 1,
        (app::AppView { input: before.input, ..after }) == before,
{
}

/// Enter with shift puts a line feed in at the cursor; without shift it submits the line.
pub proof fn enter_submits_unless_shift_is_held(
    before: app::AppView,
    press: KeyPress,
    after: app::AppView,
    drawn: bool,
)
    requires
        pressed(before, press, after, drawn),
        !press.control,
        press.key == Key::Enter,
    ensures
        drawn,
        press.shift ==> after.input.text == before.input.text.insert(before.input.cursor, '\n')
            && after.input.cursor == before.input.cursor + 1 && (app::AppView {
            input: before.input,
            ..after
        }) == before,
        !press.shift ==> before.submits(after),
{
}

/// What the keys that edit do without control, with shift or without: backspace and delete take
/// out the character before and behind the cursor, the arrows pass one character, and escape
/// leaves an empty line.
pub proof fn editing_keys_edit(
    before: app::AppView,
    press: KeyPress,
    after: app::AppView,
    drawn: bool,
)
    requires
        pressed(before, press, after, drawn),
        !press.control,
        before.input.valid(),
    ensures
        press.key == Key::Backspace && before.input.cursor > 0 ==> after.input.text
            == before.input.text.remove(before.input.cursor - 1) && after.input.cursor
            == before.input.cursor - 1,
        press.key == Key::Backspace && before.input.cursor == 0 ==> after.input == before.input,
        press.key == Key::Delete && before.input.cursor < before.input.text.len()
            ==> after.input.text == before.input.text.remove(before.input.cursor)
            && after.input.cursor == before.input.cursor,
        press.key == Key::Delete && before.input.cursor == before.input.text.len() ==> after.input
            == before.input,
        press.key == Key::Left ==> after.input.text == before.input.text && after.input.cursor
            == vstd::math::max(before.input.cursor - 1, 0),
        press.key == Key::Right ==> after.input.text == before.input.text && after.input.cursor
            == vstd::math::min(before.input.cursor + 1, before.input.text.len() as int),
        press.key == Key::Esc ==> after.input.text.len() == 0 && after.input.cursor == 0,
        press.key == Key::Backspace || press.key == Key::Delete || press.key == Key::Left
            || press.key == Key::Right || press.key == Key::Home || press.key == Key::End
            || press.key == Key::Esc ==> drawn && (app::AppView { input: before.input, ..after })
            == before,
{
}

/// The home key, and `a` with control, bring the cursor to the start of its line; the end key, and
/// `e` with control, to the end of it.
pub proof fn line_keys_reach_the_ends(
    before: app::AppView,
    press: KeyPress,
    after: app::AppView,
    drawn: bool,
)
    requires
        pressed(before, press, after, drawn),
        before.input.valid(),
    ensures
        (if press.control {
            press.key == Key::Char('a')
        } else {
            press.key == Key::Home
        }) ==> {
            &&& drawn
            &&& (app::AppView { input: before.input, ..after }) == before
            &&& after.input.text == before.input.text
            &&& 0 <= after.input.cursor <= before.input.cursor
            &&& after.input.cursor == 0 || before.input.text[after.input.cursor - 1] == '\n'
            &&& !before.input.text.subrange(after.input.cursor, before.input.cursor).contains('\n')
        },
        (if press.control {
            press.key == Key::Char('e')
        } else {
            press.key == Key::End
        }) ==> {
            &&& drawn
            &&& (app::AppView { input: before.input, ..after }) == before
            &&& after.input.text == before.input.text
            &&& before.input.cursor <= after.input.cursor <= before.input.text.len()
            &&& after.input.cursor == before.input.text.len()
                || before.input.text[after.input.cursor] == '\n'
            &&& !before.input.text.subrange(before.input.cursor, after.input.cursor).contains('\n')
        },
{
    input::home_and_end_stay_on_the_line(before.input);
    input::home_and_end_reach_the_ends(before.input);
}

/// With control, `c` ends the program and touches nothing else, and the keys that stand for no
/// move do nothing, whatever they are without control.
pub proof fn control_keys_do_nothing_else(
    before: app::AppView,
    press: KeyPress,
    after: app::AppView,
    drawn: bool,
)
    requires
        pressed(before, press, after, drawn),
        press.control,
        press.key != Key::Char('a'),
        press.key != Key::Char('e'),
    ensures
        !drawn,
        after.should_quit == (before.should_quit || press.key == Key::Char('c')),
        (app::AppView { should_quit: before.should_quit, ..after }) == before,
{
}

/// The page keys scroll by eight lines, as far as it goes, and touch nothing else.
pub proof fn page_keys_scroll(
    before: app::AppView,
    press: KeyPress,
    after: app::AppView,
    drawn: bool,
)
    requires
        pressed(before, press, after, drawn),
        !press.control,
        press.key == Key::PageUp || press.key == Key::PageDown,
    ensures
        drawn,
        press.key == Key::PageUp ==> after.scroll == vstd::math::min(
            before.scroll + 8,
            u16::MAX as int,
        ),
        press.key == Key::PageDown ==> after.scroll == vstd::math::max(before.scroll - 8, 0),
        (app::AppView { scroll: before.scroll, ..after }) == before,
{
}

/// What is pasted goes in at the cursor as it stands, line feeds and all.
pub proof fn pasted_text_goes_in(
    before: app::AppView,
    pasted: String,
    after: app::AppView,
    drawn: bool,
)
    requires
        handles(before, TerminalEvent::Paste(pasted), after, drawn),
        before.input.valid(),
    ensures
        drawn,
        after.input.text == before.input.text.take(before.input.cursor) + pasted@
            + before.input.text.skip(before.input.cursor),
        after.input.cursor == before.input.cursor + pasted@.len(),
        (app::AppView { input: before.input, ..after }) == before,
{
    input::typed_characters_stand_in_order(before.input, pasted@);
}

/// A new size of the screen, and what the program does not know, change nothing; after the former
/// the screen is drawn anew.
pub proof fn other_events_change_nothing(
    before: app::AppView,
    event: TerminalEvent,
    after: app::AppView,
    drawn: bool,
)
    requires
        handles(before, event, after, drawn),
        !(event is Paste),
        event matches TerminalEvent::Key(press) ==> press.key == Key::Other,
    ensures
        after == before,
        drawn == (event is Resize),
{
}

/// Only a submitted line touches the conversation.
pub proof fn only_enter_touches_the_conversation(
    before: app::AppView,
    event: TerminalEvent,
    after: app::AppView,
    drawn: bool,
)
    requires
        handles(before, event, after, drawn),
        after.messages != before.messages,
    ensures
        event matches TerminalEvent::Key(press) && press.key == Key::Enter && !press.control
            && !press.shift,
{
}

/// A line scrolled back brings one more line at the top into sight, until all are; and a line more
/// at the end, where nothing is scrolled back, pushes one out of sight at the top.
pub proof fn lines_come_into_sight_one_by_one(lines: int, height: u16, scroll: u16)
    requires
        0 <= lines < height + u16::MAX,
    ensures
        lines <= height ==> hidden(lines, height, scroll) == 0,
        scroll < u16::MAX && hidden(lines, height, scroll) > 0 ==> hidden(
            lines,
            height,
            (scroll + 1) as u16,
        ) == hidden(lines, height, scroll) - 1,
        scroll < u16::MAX && hidden(lines, height, scroll) == 0 ==> hidden(
            lines,
            height,
            (scroll + 1) as u16,
        ) == 0,
        lines >= height ==> hidden(lines + 1, height, 0) == hidden(lines, height, 0) + 1,
{
}

/// More lines than numbers count leave the greatest number of lines out of sight, less those
/// scrolled back.
pub proof fn the_most_is_hidden(lines: int, height: u16, scroll: u16)
    requires
        lines >= height + u16::MAX,
    ensures
        hidden(lines, height, scroll) == u16::MAX - scroll,
{
}

/// The input takes two rows for its borders and one for each line, up to six lines; more do not
/// make it higher.
pub proof fn the_input_grows_with_its_lines(v: app::AppView)
    ensures
        input::line_feeds(v.input.text) <= 5 ==> input_rows(v) == input::line_feeds(v.input.text)
            + 3,
        input::line_feeds(v.input.text) > 5 ==> input_rows(v) == 8,
{
}

/// A message is drawn as a line that says who speaks, the lines of what is said, and a blank line;
/// what a user says is told from all else.
pub proof fn messages_are_drawn_whole(m: app::MessageView)
    ensures
        message_lines(m).len() == text::shown_lines(m.text).len() + 2,
        m.role == Role::User ==> message_lines(m)[0] == DisplayLineView::Label("You"@),
        m.role != Role::User ==> message_lines(m)[0] == DisplayLineView::Label("MatrixCode"@),
        forall|i: int|
            0 <= i < text::shown_lines(m.text).len() ==> #[trigger] message_lines(m)[i + 1]
                == DisplayLineView::Text(text::shown_lines(m.text)[i]),
        message_lines(m).last() == DisplayLineView::Blank,
{
}

/// A conversation is drawn message by message, in order, and none is left out.
pub proof fn conversations_are_drawn_in_order(
    earlier: Seq<app::MessageView>,
    later: Seq<app::MessageView>,
)
    ensures
        conversation(earlier + later) == conversation(earlier) + conversation(later),
        earlier.len() == 1 ==> conversation(earlier) == message_lines(earlier[0]),
    decreases later.len(),
{
    if earlier.len() == 1 {
        assert(conversation(earlier.drop_last()) =~= Seq::empty());
        assert(conversation(earlier) =~= message_lines(earlier[0]));
    }
    if later.len() == 0 {
        assert(earlier + later =~= earlier);
        assert(conversation(earlier) + conversation(later) =~= conversation(earlier));
    } else {
        conversations_are_drawn_in_order(earlier, later.drop_last());
        assert((earlier + later).drop_last() =~= earlier + later.drop_last());
        assert(conversation(earlier + later) =~= conversation(earlier) + conversation(later));
    }
}

/// A plan shows the input behind a prompt, with a bar at the cursor, and the status as it is.
pub proof fn plans_show_the_input(plan: FramePlan, v: app::AppView)
    requires
        shows(plan, v),
        v.input.valid(),
    ensures
        plan.prompt@ == "> "@ + v.input.text.take(v.input.cursor) + seq!['\u{258F}']
            + v.input.text.skip(v.input.cursor),
        plan.status_text@ == v.status,
        plan.lines@.len() == conversation(v.messages).len(),
{
    assert(plan.prompt@ =~= "> "@ + v.input.text.take(v.input.cursor) + seq!['\u{258F}']
        + v.input.text.skip(v.input.cursor));
    assert(display_view(plan.lines@).len() == plan.lines@.len());
}

/// On a screen that is high enough the header takes two rows, the status one, the input as many as
/// its lines ask for, and the conversation all that is left.
pub proof fn the_conversation_takes_what_is_left(v: app::AppView, area: Area)
    requires
        area.height >= 4 + input_rows(v),
        area.y + area.height <= u16::MAX,
    ensures
        roomy(area, HEADER_HEIGHT, LEAST_HEIGHT, input_rows(v), STATUS_HEIGHT),
        ({
            let rows = rows_of(area, HEADER_HEIGHT, input_rows(v), STATUS_HEIGHT);
            &&& rows.len() == 4
            &&& rows[0].height == 2
            &&& rows[1].height == area.height - 3 - input_rows(v)
            &&& rows[2].height == input_rows(v)
            &&& rows[3].height == 1
            &&& forall|i: int|
                0 <= i < 4 ==> (#[trigger] rows[i]).x == area.x && rows[i].width == area.width
        }),
{
}

} // verus!
