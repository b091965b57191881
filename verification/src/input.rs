//! The line editor: a text and a cursor that stands between two of its characters.

use vstd::prelude::*;
use vstd::string::*;
use vstd::utf8::*;

use crate::text;

verus! {

/// What an [`InputBuffer`] holds: its characters, and how many of them stand before the cursor.
#[verifier::ext_equal]
pub struct InputView {
    pub text: Seq<char>,
    pub cursor: int,
}

impl InputView {
    pub open spec fn empty() -> InputView {
        InputView { text: Seq::empty(), cursor: 0 }
    }

    /// With a character put in at the cursor, which moves behind it.
    pub open spec fn inserted(self, ch: char) -> InputView {
        InputView { text: self.text.insert(self.cursor, ch), cursor: self.cursor + 1 }
    }

    /// Without the character before the cursor.
    pub open spec fn backspaced(self) -> InputView {
        if self.cursor == 0 {
            self
        } else {
            InputView { text: self.text.remove(self.cursor - 1), cursor: self.cursor - 1 }
        }
    }

    /// Without the character behind the cursor.
    pub open spec fn deleted(self) -> InputView {
        if self.cursor == self.text.len() {
            self
        } else {
            InputView { text: self.text.remove(self.cursor), cursor: self.cursor }
        }
    }

    pub open spec fn moved_left(self) -> InputView {
        InputView {
            text: self.text,
            cursor: if self.cursor == 0 {
                0
            } else {
                self.cursor - 1
            },
        }
    }

    pub open spec fn moved_right(self) -> InputView {
        InputView {
            text: self.text,
            cursor: if self.cursor == self.text.len() {
                self.cursor
            } else {
                self.cursor + 1
            },
        }
    }

    pub open spec fn moved_home(self) -> InputView {
        InputView { text: self.text, cursor: line_start(self.text, self.cursor) }
    }

    pub open spec fn moved_end(self) -> InputView {
        InputView { text: self.text, cursor: line_end(self.text, self.cursor) }
    }

    /// With the characters put in one after the other.
    pub open spec fn typed(self, chars: Seq<char>) -> InputView
        decreases chars.len(),
    {
        if chars.len() == 0 {
            self
        } else {
            self.typed(chars.drop_last()).inserted(chars.last())
        }
    }

    /// The text with a bar at the cursor.
    pub open spec fn shown(self) -> Seq<char> {
        self.text.insert(self.cursor, '\u{258F}')
    }

    /// That the cursor stands in the text.
    pub open spec fn valid(self) -> bool {
        0 <= self.cursor <= self.text.len()
    }
}

/// An editable text with a cursor. The cursor is kept as a byte position.
#[derive(Debug, Clone, PartialEq, Eq)]
pub struct InputBuffer {
    text: String,
    cursor: usize,
}

/// The start of the line that position `i` of `text` is on.
pub open spec fn line_start(text: Seq<char>, i: int) -> int
    decreases i,
{
    if i <= 0 {
        0
    } else if text[i - 1] == '\n' {
        i
    } else {
        line_start(text, i - 1)
    }
}

/// The end of the line that position `i` of `text` is on: the next line feed, or the end.
pub open spec fn line_end(text: Seq<char>, i: int) -> int
    decreases text.len() - i,
{
    if i >= text.len() {
        text.len() as int
    } else if text[i] == '\n' {
        i
    } else {
        line_end(text, i + 1)
    }
}

/// The number of line feeds in `text`.
pub open spec fn line_feeds(text: Seq<char>) -> nat
    decreases text.len(),
{
    if text.len() == 0 {
        0
    } else {
        line_feeds(text.drop_last()) + if text.last() == '\n' {
            1nat
        } else {
            0nat
        }
    }
}

impl View for InputBuffer {
    type V = InputView;

    closed spec fn view(&self) -> InputView {
        InputView {
            text: self.text@,
            cursor: choose|k: int|
                0 <= k <= self.text@.len() && #[trigger] text::byte_pos(self.text@, k)
                    == self.cursor,
        }
    }
}

impl Default for InputBuffer {
    fn default() -> (r: Self)
        ensures
            r.wf(),
            r@ == (InputView { text: Seq::empty(), cursor: 0 }),
    {
        let r = InputBuffer { text: String::new(), cursor: 0 };
        proof {
            text::lemma_byte_pos_ends(r.text@);
            r.lemma_view(0);
        }
        r
    }
}

impl InputBuffer {
    /// The cursor stands between two characters of the text.
    pub closed spec fn wf(&self) -> bool {
        text::starts_character_or_end(self.text@, self.cursor as int)
    }

    proof fn lemma_view(&self, k: int)
        requires
            0 <= k <= self.text@.len(),
            text::byte_pos(self.text@, k) == self.cursor,
        ensures
            self.wf(),
            self@ == (InputView { text: self.text@, cursor: k }),
    {
        let j = choose|j: int|
            0 <= j <= self.text@.len() && #[trigger] text::byte_pos(self.text@, j) == self.cursor;
        if j < k {
            text::lemma_byte_pos_increases(self.text@, j, k);
        }
        if k < j {
            text::lemma_byte_pos_increases(self.text@, k, j);
        }
    }

    /// The cursor of a buffer lies in its text.
    pub proof fn the_cursor_lies_in_the_text(&self)
        requires
            self.wf(),
        ensures
            0 <= self@.cursor <= self@.text.len(),
    {
    }

    pub fn as_str(&self) -> (r: &str)
        ensures
            r@ == self@.text,
    {
        self.text.as_str()
    }

    pub fn is_empty(&self) -> (r: bool)
        ensures
            r == (self@.text.len() == 0),
    {
        self.text.as_str().is_empty()
    }

    pub fn clear(&mut self)
        ensures
            final(self).wf(),
            final(self)@ == (InputView { text: Seq::empty(), cursor: 0 }),
    {
        *self = InputBuffer::default();
    }

    /// Hands the text out and leaves the buffer empty.
    pub fn take(&mut self) -> (r: String)
        ensures
            r@ == old(self)@.text,
            final(self).wf(),
            final(self)@ == (InputView { text: Seq::empty(), cursor: 0 }),
    {
        let mut taken = InputBuffer::default();
        core::mem::swap(self, &mut taken);
        taken.text
    }

    /// Puts `ch` in at the cursor, which moves behind it.
    pub fn insert(&mut self, ch: char)
        requires
            old(self).wf(),
        ensures
            final(self).wf(),
            final(self)@ == old(self)@.inserted(ch),
    {
        let ghost t = self.text@;
        let ghost k = self@.cursor;
        assert(text::byte_pos(t, k) == self.cursor);
        self.text.insert(self.cursor, ch);
        assert(self.text@.take(k) =~= t.take(k));
        self.cursor = text::next_boundary(self.text.as_str(), self.cursor, Ghost(k));
        proof {
            self.lemma_view(k + 1);
        }
    }

    /// Takes the character before the cursor out.
    pub fn backspace(&mut self)
        requires
            old(self).wf(),
        ensures
            final(self).wf(),
            final(self)@ == old(self)@.backspaced(),
    {
        let ghost k = self@.cursor;
        proof {
            text::lemma_byte_pos_ends(self.text@);
            if k > 0 {
                text::lemma_byte_pos_increases(self.text@, 0, k);
            }
        }
        if self.cursor == 0 {
            return;
        }
        self.cursor = text::previous_boundary(self.text.as_str(), self.cursor, Ghost(k));
        proof {
            self.lemma_view(k - 1);
        }
        self.remove_at_cursor();
    }

    /// Takes the character behind the cursor out.
    pub fn delete(&mut self)
        requires
            old(self).wf(),
        ensures
            final(self).wf(),
            final(self)@ == old(self)@.deleted(),
    {
        let ghost k = self@.cursor;
        proof {
            text::lemma_byte_pos_ends(self.text@);
            if k < self.text@.len() {
                text::lemma_byte_pos_increases(self.text@, k, self.text@.len() as int);
            }
        }
        if self.cursor == self.text.as_str().as_bytes().len() {
            return;
        }
        self.remove_at_cursor();
    }

    fn remove_at_cursor(&mut self)
        requires
            old(self).wf(),
            old(self)@.cursor < old(self)@.text.len(),
        ensures
            final(self).wf(),
            final(self)@ == (InputView {
                text: old(self)@.text.remove(old(self)@.cursor),
                cursor: old(self)@.cursor,
            }),
    {
        let ghost t = self.text@;
        let ghost k = self@.cursor;
        proof {
            text::lemma_byte_pos_ends(t);
            text::lemma_byte_pos_increases(t, k, t.len() as int);
        }
        self.text.remove(self.cursor);
        assert(self.text@.take(k) =~= t.take(k));
        proof {
            self.lemma_view(k);
        }
    }

    pub fn move_left(&mut self)
        requires
            old(self).wf(),
        ensures
            final(self).wf(),
            final(self)@ == old(self)@.moved_left(),
    {
        let ghost k = self@.cursor;
        proof {
            text::lemma_byte_pos_ends(self.text@);
            if k > 0 {
                text::lemma_byte_pos_increases(self.text@, 0, k);
            }
        }
        if self.cursor > 0 {
            self.cursor = text::previous_boundary(self.text.as_str(), self.cursor, Ghost(k));
            proof {
                self.lemma_view(k - 1);
            }
        }
    }

    pub fn move_right(&mut self)
        requires
            old(self).wf(),
        ensures
            final(self).wf(),
            final(self)@ == old(self)@.moved_right(),
    {
        let ghost k = self@.cursor;
        proof {
            text::lemma_byte_pos_ends(self.text@);
            if k < self.text@.len() {
                text::lemma_byte_pos_increases(self.text@, k, self.text@.len() as int);
            }
        }
        if self.cursor == self.text.as_str().as_bytes().len() {
            return;
        }
        self.cursor = text::next_boundary(self.text.as_str(), self.cursor, Ghost(k));
        proof {
            self.lemma_view(k + 1);
        }
    }

    /// Moves to the start of the current line.
    pub fn move_home(&mut self)
        requires
            old(self).wf(),
        ensures
            final(self).wf(),
            final(self)@ == old(self)@.moved_home(),
    {
        let s = self.text.as_str();
        let bytes = s.as_bytes();
        let ghost mut k = self@.cursor;
        let mut p: usize = self.cursor;
        proof {
            text::lemma_byte_pos_ends(s@);
            text::lemma_cut(s@, k);
        }
        while p > 0 && bytes[p - 1] != 10u8
            invariant
                s@ == self.text@,
                bytes@ == encode_utf8(s@),
                0 <= k <= s@.len(),
                p == text::byte_pos(s@, k),
                p <= bytes.len(),
                text::byte_pos(s@, 0) == 0,
                line_start(s@, k) == line_start(s@, old(self)@.cursor),
                *self == *old(self),
            decreases k,
        {
            proof {
                text::lemma_byte_pos_ends(s@);
                if k > 0 {
                    text::lemma_line_feed_byte(s@, k - 1);
                }
            }
            p = text::previous_boundary(s, p, Ghost(k));
            proof {
                k = k - 1;
            }
        }
        proof {
            if k > 0 {
                text::lemma_byte_pos_increases(s@, 0, k);
                text::lemma_line_feed_byte(s@, k - 1);
            }
        }
        self.cursor = p;
        proof {
            self.lemma_view(k);
        }
    }

    /// Moves to the end of the current line.
    pub fn move_end(&mut self)
        requires
            old(self).wf(),
        ensures
            final(self).wf(),
            final(self)@ == old(self)@.moved_end(),
    {
        let s = self.text.as_str();
        let bytes = s.as_bytes();
        let n: usize = bytes.len();
        let ghost mut k = self@.cursor;
        let mut p: usize = self.cursor;
        proof {
            text::lemma_byte_pos_ends(s@);
            text::lemma_cut(s@, k);
        }
        while p < n && bytes[p] != 10u8
            invariant
                s@ == self.text@,
                bytes@ == encode_utf8(s@),
                n == bytes@.len(),
                0 <= k <= s@.len(),
                p == text::byte_pos(s@, k),
                p <= n,
                text::byte_pos(s@, s@.len() as int) == n,
                line_end(s@, k) == line_end(s@, old(self)@.cursor),
                *self == *old(self),
            decreases s@.len() - k,
        {
            proof {
                if k < s@.len() {
                    text::lemma_line_feed_byte(s@, k);
                }
            }
            p = text::next_boundary(s, p, Ghost(k));
            proof {
                k = k + 1;
                text::lemma_cut(s@, k);
            }
        }
        proof {
            if k < s@.len() {
                text::lemma_byte_pos_increases(s@, k, s@.len() as int);
                text::lemma_line_feed_byte(s@, k);
            }
        }
        self.cursor = p;
        proof {
            self.lemma_view(k);
        }
    }

    /// The text with a bar where the cursor stands.
    pub fn display_with_cursor(&self) -> (r: String)
        requires
            self.wf(),
        ensures
            r@ == self@.shown(),
    {
        let ghost k = self@.cursor;
        proof {
            text::lemma_byte_pos_is_boundary(self.text@, k);
            text::lemma_cut(self.text@, k);
        }
        let (head, tail) = self.text.as_str().split_at(self.cursor);
        proof {
            text::lemma_encode_injective(head@, self.text@.take(k));
            text::lemma_encode_injective(tail@, self.text@.skip(k));
        }
        let mut rendered = String::new();
        rendered.append(head);
        rendered.append("\u{258F}");
        rendered.append(tail);
        proof {
            reveal_strlit("\u{258F}");
            assert(rendered@ =~= self.text@.insert(k, '\u{258F}'));
        }
        rendered
    }

    /// The number of lines of the text, as far as a `u16` reaches.
    pub fn line_count(&self) -> (r: u16)
        ensures
            r == vstd::math::min((line_feeds(self@.text) + 1) as int, u16::MAX as int),
    {
        let chars = text::chars_of(self.text.as_str());
        let mut count: u16 = 0;
        let mut i: usize = 0;
        let ghost t = chars@;
        while i < chars.len()
            invariant
                chars@ == t,
                i <= t.len(),
                count == vstd::math::min(line_feeds(t.take(i as int)) as int, u16::MAX as int),
            decreases t.len() - i,
        {
            assert(t.take(i + 1).drop_last() =~= t.take(i as int));
            if chars[i] == '\n' {
                count = count.saturating_add(1);
            }
            i = i + 1;
        }
        assert(t.take(t.len() as int) =~= t);
        count.saturating_add(1)
    }
}

/// A backspace takes back what was just put in, and so does a delete once the cursor has moved
/// before it.
pub proof fn edits_can_be_taken_back(input: InputView, ch: char)
    requires
        input.valid(),
    ensures
        input.inserted(ch).backspaced() == input,
        input.inserted(ch).moved_left().deleted() == input,
{
    assert(input.text.insert(input.cursor, ch).remove(input.cursor) =~= input.text);
}

/// A step to the left and one to the right lead back, away from the ends of the text.
pub proof fn steps_can_be_taken_back(input: InputView)
    requires
        input.valid(),
    ensures
        input.cursor > 0 ==> input.moved_left().moved_right() == input,
        input.cursor < input.text.len() ==> input.moved_right().moved_left() == input,
{
}

proof fn lemma_line_start(text: Seq<char>, i: int)
    requires
        0 <= i <= text.len(),
    ensures
        0 <= line_start(text, i) <= i,
        forall|j: int| line_start(text, i) <= j < i ==> #[trigger] text[j] != '\n',
        line_start(text, line_start(text, i)) == line_start(text, i),
    decreases i,
{
    if i > 0 && text[i - 1] != '\n' {
        lemma_line_start(text, i - 1);
    }
}

proof fn lemma_line_end(text: Seq<char>, i: int)
    requires
        0 <= i <= text.len(),
    ensures
        i <= line_end(text, i) <= text.len(),
        forall|j: int| i <= j < line_end(text, i) ==> #[trigger] text[j] != '\n',
        line_end(text, line_end(text, i)) == line_end(text, i),
    decreases text.len() - i,
{
    if i < text.len() && text[i] != '\n' {
        lemma_line_end(text, i + 1);
    }
}

/// To the start and to the end of the line the cursor passes no line feed: it stays on its line;
/// and a second move changes nothing.
pub proof fn home_and_end_stay_on_the_line(input: InputView)
    requires
        input.valid(),
    ensures
        input.moved_home().valid(),
        input.moved_end().valid(),
        input.moved_home().cursor <= input.cursor <= input.moved_end().cursor,
        forall|j: int|
            input.moved_home().cursor <= j < input.moved_end().cursor ==> #[trigger] input.text[j]
                != '\n',
        input.moved_home().moved_home() == input.moved_home(),
        input.moved_end().moved_end() == input.moved_end(),
{
    lemma_line_start(input.text, input.cursor);
    lemma_line_end(input.text, input.cursor);
}

/// Characters put in one after the other stand together before the cursor.
pub proof fn typed_characters_stand_in_order(input: InputView, chars: Seq<char>)
    requires
        input.valid(),
    ensures
        input.typed(chars).text == input.text.take(input.cursor) + chars + input.text.skip(
            input.cursor,
        ),
        input.typed(chars).cursor == input.cursor + chars.len(),
    decreases chars.len(),
{
    if chars.len() == 0 {
        assert(input.text =~= input.text.take(input.cursor) + chars + input.text.skip(
            input.cursor,
        ));
    } else {
        typed_characters_stand_in_order(input, chars.drop_last());
        assert(input.typed(chars).text =~= input.text.take(input.cursor) + chars
            + input.text.skip(input.cursor));
    }
}

/// A character put in stands where the cursor was, between what stood before and behind the
/// cursor, which now stands behind it.
pub proof fn characters_go_in_at_the_cursor(input: InputView, ch: char)
    requires
        input.valid(),
    ensures
        input.inserted(ch).text == input.text.take(input.cursor) + seq![ch] + input.text.skip(
            input.cursor,
        ),
        input.inserted(ch).cursor == input.cursor + 1,
{
    assert(input.inserted(ch).text =~= input.text.take(input.cursor) + seq![ch]
        + input.text.skip(input.cursor));
}

/// A backspace takes out the one character before the cursor, and a delete the one behind it,
/// whatever it is; where there is none, nothing happens.
pub proof fn one_character_is_taken_out(input: InputView)
    requires
        input.valid(),
    ensures
        input.cursor > 0 ==> input.backspaced().text == input.text.take(input.cursor - 1)
            + input.text.skip(input.cursor) && input.backspaced().cursor == input.cursor - 1,
        input.cursor == 0 ==> input.backspaced() == input,
        input.cursor < input.text.len() ==> input.deleted().text == input.text.take(input.cursor)
            + input.text.skip(input.cursor + 1) && input.deleted().cursor == input.cursor,
        input.cursor == input.text.len() ==> input.deleted() == input,
{
    if input.cursor > 0 {
        assert(input.backspaced().text =~= input.text.take(input.cursor - 1) + input.text.skip(
            input.cursor,
        ));
    }
    if input.cursor < input.text.len() {
        assert(input.deleted().text =~= input.text.take(input.cursor) + input.text.skip(
            input.cursor + 1,
        ));
    }
}

/// A move changes no text; one to the side passes one character, whatever it is, or none at the
/// end of the text.
pub proof fn moves_pass_one_character(input: InputView)
    requires
        input.valid(),
    ensures
        input.moved_left().text == input.text,
        input.moved_right().text == input.text,
        input.moved_home().text == input.text,
        input.moved_end().text == input.text,
        input.moved_left().cursor == vstd::math::max(input.cursor - 1, 0),
        input.moved_right().cursor == vstd::math::min(input.cursor + 1, input.text.len() as int),
{
}

proof fn lemma_line_ends(text: Seq<char>, i: int)
    requires
        0 <= i <= text.len(),
    ensures
        line_start(text, i) == 0 || text[line_start(text, i) - 1] == '\n',
        line_end(text, i) == text.len() || text[line_end(text, i)] == '\n',
{
    lemma_line_start_found(text, i);
    lemma_line_end_found(text, i);
}

proof fn lemma_line_start_found(text: Seq<char>, i: int)
    requires
        0 <= i <= text.len(),
    ensures
        line_start(text, i) == 0 || text[line_start(text, i) - 1] == '\n',
    decreases i,
{
    if i > 0 && text[i - 1] != '\n' {
        lemma_line_start_found(text, i - 1);
    }
}

proof fn lemma_line_end_found(text: Seq<char>, i: int)
    requires
        0 <= i <= text.len(),
    ensures
        line_end(text, i) == text.len() || text[line_end(text, i)] == '\n',
    decreases text.len() - i,
{
    if i < text.len() && text[i] != '\n' {
        lemma_line_end_found(text, i + 1);
    }
}

/// The cursor goes all the way to the start and to the end of its line: it comes to stand behind
/// a line feed or at the start of the text, and before a line feed or at the end of the text.
pub proof fn home_and_end_reach_the_ends(input: InputView)
    requires
        input.valid(),
    ensures
        input.moved_home().cursor == 0 || input.text[input.moved_home().cursor - 1] == '\n',
        input.moved_end().cursor == input.text.len() || input.text[input.moved_end().cursor]
            == '\n',
{
    lemma_line_ends(input.text, input.cursor);
}

/// Each line feed makes one more line, wherever it is put in, and no other character does.
pub proof fn line_feeds_are_counted(text: Seq<char>, i: int, ch: char)
    requires
        0 <= i <= text.len(),
    ensures
        line_feeds(Seq::empty()) == 0,
        line_feeds(text.insert(i, ch)) == line_feeds(text) + (if ch == '\n' {
            1nat
        } else {
            0nat
        }),
    decreases text.len(),
{
    let more = text.insert(i, ch);
    if i == text.len() {
        assert(more.drop_last() =~= text);
    } else {
        line_feeds_are_counted(text.drop_last(), i, ch);
        assert(more.drop_last() =~= text.drop_last().insert(i, ch));
        assert(more.last() == text.last());
    }
}

/// What is shown is the text with one bar in it, at the cursor.
pub proof fn the_bar_marks_the_cursor(input: InputView)
    requires
        input.valid(),
    ensures
        input.shown().len() == input.text.len() + 1,
        input.shown()[input.cursor] == '\u{258F}',
        input.shown().remove(input.cursor) == input.text,
{
    assert(input.shown().remove(input.cursor) =~= input.text);
}

} // verus!
