//! The message input box: a multi-line text buffer with a cursor.
use vstd::prelude::*;

use crate::keystroke::Keystroke;
use crate::text::{chars_to_string, is_ascii_chars_seq, str_to_chars, views};

verus! {

/// How long the cursor stays shown or hidden, in milliseconds.
pub const CURSOR_BLINK_RATE_MS: u64 = 500;

/// What the input box tells its subscribers.
#[derive(Debug, Clone, PartialEq)]
pub enum InputEvent {
    /// The user sent these lines.
    Submit { data: Vec<String> },
}

pub enum InputEventView {
    Submit { data: Seq<Seq<char>> },
}

pub open spec fn string_views(v: Seq<String>) -> Seq<Seq<char>> {
    v.map_values(|s: String| s@)
}

impl View for InputEvent {
    type V = InputEventView;

    open spec fn view(&self) -> InputEventView {
        match self {
            InputEvent::Submit { data } => InputEventView::Submit { data: string_views(data@) },
        }
    }
}

/// The mathematical value of an `InputMessage`.
pub struct InputView {
    pub lines: Seq<Seq<char>>,
    pub cursor: (u16, u16),
    pub cursor_visible: bool,
    pub cursor_last_blink: u64,
}

/// The message being typed, line by line, with the cursor (column, line), the
/// cursor's blink state and the time in milliseconds of its last blink.
#[derive(Debug)]
pub struct InputMessage {
    message: Vec<Vec<char>>,
    cursor_pos: (u16, u16),
    cursor_visible: bool,
    cursor_last_blink: u64,
}

impl View for InputMessage {
    type V = InputView;

    closed spec fn view(&self) -> InputView {
        InputView {
            lines: views(self.message@),
            cursor: self.cursor_pos,
            cursor_visible: self.cursor_visible,
            cursor_last_blink: self.cursor_last_blink,
        }
    }
}

/// Every line holds ASCII text only.
pub open spec fn lines_ascii(lines: Seq<Seq<char>>) -> bool {
    forall|i: int| 0 <= i < lines.len() ==> #[trigger] is_ascii_chars_seq(lines[i])
}

pub open spec fn min_u16(a: u16, b: u16) -> u16 {
    if a <= b {
        a
    } else {
        b
    }
}

/// The number of bytes a character takes in UTF-8.
pub open spec fn utf8_width(c: char) -> nat {
    let u = c as u32;
    if u < 0x80 {
        1
    } else if u < 0x800 {
        2
    } else if u < 0x10000 {
        3
    } else {
        4
    }
}

/// The number of bytes a text takes in UTF-8: the length of its `String`.
pub open spec fn utf8_len(s: Seq<char>) -> nat
    decreases s.len(),
{
    if s.len() == 0 {
        0
    } else {
        utf8_len(s.drop_last()) + utf8_width(s.last())
    }
}

pub proof fn lemma_utf8_len_concat(a: Seq<char>, b: Seq<char>)
    ensures
        utf8_len(a + b) == utf8_len(a) + utf8_len(b),
    decreases b.len(),
{
    if b.len() == 0 {
        assert(a + b =~= a);
    } else {
        lemma_utf8_len_concat(a, b.drop_last());
        assert((a + b).drop_last() =~= a + b.drop_last());
    }
}

pub proof fn lemma_utf8_len_bounds(s: Seq<char>)
    ensures
        s.len() <= utf8_len(s),
        is_ascii_chars_seq(s) ==> utf8_len(s) == s.len(),
    decreases s.len(),
{
    if s.len() > 0 {
        lemma_utf8_len_bounds(s.drop_last());
        if is_ascii_chars_seq(s) {
            assert(is_ascii_chars_seq(s.drop_last())) by {
                assert forall|i: int| 0 <= i < s.drop_last().len() implies (#[trigger] s.drop_last()[i] as u32)
                    < 128 by {
                    assert(s.drop_last()[i] == s[i]);
                }
            }
            assert((s[s.len() - 1] as u32) < 128);
        }
    }
}

/// A length taken to `u16` as `as u16` does: modulo 2^16.
pub open spec fn as_u16(n: int) -> u16 {
    (n % 0x10000) as u16
}

/// The cursor moved into the text: the column clamped to its line's length in
/// bytes, the line clamped to the last line (both lengths taken to `u16`).
pub open spec fn fixed_cursor(lines: Seq<Seq<char>>, cursor: (u16, u16)) -> (u16, u16) {
    let (x, y) = cursor;
    let x2 = if (y as int) < lines.len() {
        min_u16(x, as_u16(utf8_len(lines[y as int]) as int))
    } else {
        x
    };
    let last = if lines.len() == 0 {
        0int
    } else {
        lines.len() - 1
    };
    (x2, min_u16(y, as_u16(last)))
}

impl InputView {
    /// The cursor on one of the lines.
    pub open spec fn wf(self) -> bool {
        (self.cursor.1 as int) < self.lines.len()
    }

    /// The moved-in cursor stands within its line with ASCII text before it, so
    /// that its column counts characters and bytes alike (always so on ASCII lines
    /// while there are at most 2^16 lines).
    pub open spec fn cursor_in_line(self) -> bool {
        let (x, y) = self.fixed();
        &&& (y as int) < self.lines.len()
        &&& x as int <= self.lines[y as int].len()
        &&& is_ascii_chars_seq(self.lines[y as int].take(x as int))
    }

    pub open spec fn fixed(self) -> (u16, u16) {
        fixed_cursor(self.lines, self.cursor)
    }

    pub open spec fn with_cursor(self, c: (u16, u16)) -> InputView {
        InputView { cursor: c, ..self }
    }

    pub open spec fn move_left(self) -> InputView {
        let (x, y) = self.fixed();
        self.with_cursor((if x > 0 { (x - 1) as u16 } else { x }, y))
    }

    pub open spec fn move_right(self) -> InputView {
        self.with_cursor(((self.cursor.0 + 1) as u16, self.cursor.1))
    }

    pub open spec fn move_up(self) -> InputView {
        let (x, y) = self.cursor;
        self.with_cursor((x, if y > 0 { (y - 1) as u16 } else { y }))
    }

    pub open spec fn move_down(self) -> InputView {
        let down = self.with_cursor((self.cursor.0, (self.cursor.1 + 1) as u16));
        down.with_cursor((self.cursor.0, down.fixed().1))
    }

    /// Deletes the character before the cursor.
    pub open spec fn delete_at_cursor(self) -> InputView {
        let (x, y) = self.fixed();
        if x > 0 && (y as int) < self.lines.len() {
            InputView {
                lines: self.lines.update(y as int, self.lines[y as int].remove(x - 1)),
                cursor: ((x - 1) as u16, y),
                ..self
            }
        } else {
            self.with_cursor((x, y))
        }
    }

    /// Breaks the cursor's line in two at the cursor.
    pub open spec fn insert_new_line(self) -> InputView {
        let (x, y) = self.fixed();
        if (y as int) < self.lines.len() {
            let line = self.lines[y as int];
            InputView {
                lines: self.lines.update(y as int, line.subrange(0, x as int)).insert(
                    y + 1,
                    line.subrange(x as int, line.len() as int),
                ),
                cursor: (0, (y + 1) as u16),
                ..self
            }
        } else {
            self.with_cursor((x, y))
        }
    }

    /// Appends a space to the cursor's line.
    pub open spec fn insert_space(self) -> InputView {
        let (x, y) = self.fixed();
        if (y as int) < self.lines.len() {
            InputView {
                lines: self.lines.update(y as int, self.lines[y as int].push(' ')),
                cursor: ((x + 1) as u16, y),
                ..self
            }
        } else {
            self.with_cursor((x, y))
        }
    }

    /// Whether there is nothing to send: one empty line.
    pub open spec fn is_blank(self) -> bool {
        self.lines.len() <= 1 && self.lines.len() > 0 && self.lines[0].len() == 0
    }

    /// The input after sending: one empty line, the cursor at its start.
    pub open spec fn cleared(self) -> InputView {
        InputView { lines: seq![Seq::<char>::empty()], cursor: (0, 0), ..self }
    }

    /// Types `text` at the cursor.
    pub open spec fn type_text(self, text: Seq<char>) -> InputView {
        let (x, y) = self.fixed();
        if (y as int) < self.lines.len() {
            let line = self.lines[y as int];
            InputView {
                lines: self.lines.update(
                    y as int,
                    line.subrange(0, x as int) + text + line.subrange(x as int, line.len() as int),
                ),
                cursor: ((x + text.len()) as u16, y),
                ..self
            }
        } else {
            self.with_cursor((x, y))
        }
    }

    /// The blink step at time `now`: the cursor's visibility flips once the blink
    /// rate has passed since the last flip.
    pub open spec fn tick(self, now: u64) -> InputView {
        let elapsed = if now >= self.cursor_last_blink {
            now - self.cursor_last_blink
        } else {
            0
        };
        if elapsed >= CURSOR_BLINK_RATE_MS {
            InputView { cursor_visible: !self.cursor_visible, cursor_last_blink: now, ..self }
        } else {
            self
        }
    }
}


pub proof fn lemma_fixed_cursor(v: InputView)
    requires
        v.wf(),
    ensures
        (v.fixed().1 as int) < v.lines.len(),
        lines_ascii(v.lines) && v.lines.len() <= 0x10000 ==> v.cursor_in_line(),
{
    let (x, y) = v.cursor;
    let last = v.lines.len() - 1;
    assert(last % 0x10000 <= last);
    if v.lines.len() <= 0x10000 {
        assert(last % 0x10000 == last);
        if lines_ascii(v.lines) {
            let (fx, fy) = v.fixed();
            assert(fy == y);
            let line = v.lines[y as int];
            assert(is_ascii_chars_seq(line));
            lemma_utf8_len_bounds(line);
            assert(line.len() % 0x10000 <= line.len());
            lemma_ascii_subrange(line, 0, fx as int);
            assert(line.take(fx as int) =~= line.subrange(0, fx as int));
        }
    }
}

pub proof fn lemma_ascii_subrange(l: Seq<char>, a: int, b: int)
    requires
        is_ascii_chars_seq(l),
        0 <= a <= b <= l.len(),
    ensures
        is_ascii_chars_seq(l.subrange(a, b)),
{
    assert forall|i: int| 0 <= i < l.subrange(a, b).len() implies (#[trigger] l.subrange(a, b)[i] as u32) < 128 by {
        assert(l.subrange(a, b)[i] == l[a + i]);
    }
}

/// Typing one character and then deleting the character before the cursor gives
/// back the text as it was, with the cursor where typing began.
pub proof fn lemma_type_then_delete(v: InputView, c: char)
    requires
        v.wf(),
        v.cursor_in_line(),
        utf8_len(v.lines[v.fixed().1 as int]) + 4 < 0x10000,
    ensures
        v.type_text(seq![c]).delete_at_cursor().lines == v.lines,
        v.type_text(seq![c]).delete_at_cursor().cursor == v.fixed(),
{
    let (x, y) = v.fixed();
    let line = v.lines[y as int];
    let t = v.type_text(seq![c]);
    let typed = line.subrange(0, x as int) + seq![c] + line.subrange(x as int, line.len() as int);
    assert(t.lines == v.lines.update(y as int, typed));
    assert(t.cursor == ((x + 1) as u16, y));
    assert(t.lines[y as int].len() == line.len() + 1);
    lemma_utf8_len_concat(line.subrange(0, x as int), seq![c]);
    lemma_utf8_len_concat(line.subrange(0, x as int) + seq![c], line.subrange(x as int, line.len() as int));
    lemma_utf8_len_concat(line.subrange(0, x as int), line.subrange(x as int, line.len() as int));
    assert(line.subrange(0, x as int) + line.subrange(x as int, line.len() as int) =~= line);
    assert(utf8_len(seq![c]) == utf8_width(c)) by {
        assert(seq![c].drop_last() =~= Seq::<char>::empty());
        assert(seq![c].last() == c);
        assert(utf8_len(Seq::<char>::empty()) == 0);
        assert(utf8_len(seq![c]) == utf8_len(seq![c].drop_last()) + utf8_width(seq![c].last()));
    }
    lemma_utf8_len_bounds(line);
    let n = utf8_len(t.lines[y as int]);
    assert(n == utf8_len(line) + utf8_width(c));
    assert(n % 0x10000 == n);
    assert(t.fixed() == t.cursor);
    assert(typed.remove(x as int) =~= line);
    assert(t.lines.update(y as int, line) =~= v.lines);
}

/// All the lines' characters, line after line.
pub open spec fn flatten(lines: Seq<Seq<char>>) -> Seq<char>
    decreases lines.len(),
{
    if lines.len() == 0 {
        Seq::empty()
    } else {
        flatten(lines.drop_last()) + lines.last()
    }
}

pub proof fn lemma_flatten_concat(a: Seq<Seq<char>>, b: Seq<Seq<char>>)
    ensures
        flatten(a + b) == flatten(a) + flatten(b),
    decreases b.len(),
{
    if b.len() == 0 {
        assert(a + b =~= a);
        assert(flatten(a) + Seq::<char>::empty() =~= flatten(a));
    } else {
        lemma_flatten_concat(a, b.drop_last());
        assert((a + b).drop_last() =~= a + b.drop_last());
        assert(flatten(a) + flatten(b.drop_last()) + b.last() =~= flatten(a) + (flatten(b.drop_last()) + b.last()));
    }
}

/// Breaking a line loses no text: the characters of all lines, in order, stay the same.
pub proof fn lemma_new_line_keeps_text(v: InputView)
    requires
        v.wf(),
        v.cursor_in_line(),
    ensures
        flatten(v.insert_new_line().lines) == flatten(v.lines),
{
    let (x, y) = v.fixed();
    let line = v.lines[y as int];
    let before = v.lines.take(y as int);
    let after = v.lines.skip(y + 1);
    let start = line.subrange(0, x as int);
    let end = line.subrange(x as int, line.len() as int);
    assert(v.lines =~= before + seq![line] + after);
    assert(v.insert_new_line().lines =~= before + seq![start, end] + after);
    lemma_flatten_concat(before + seq![line], after);
    lemma_flatten_concat(before, seq![line]);
    lemma_flatten_concat(before + seq![start, end], after);
    lemma_flatten_concat(before, seq![start, end]);
    assert(seq![start, end].drop_last() =~= seq![start]);
    assert(seq![start].drop_last() =~= Seq::<Seq<char>>::empty());
    assert(seq![line].drop_last() =~= Seq::<Seq<char>>::empty());
    assert(flatten(Seq::<Seq<char>>::empty()) == Seq::<char>::empty());
    assert(Seq::<char>::empty() + start =~= start);
    assert(Seq::<char>::empty() + line =~= line);
    assert(flatten(seq![start]) =~= start);
    assert(flatten(seq![line]) =~= line);
    assert(flatten(seq![start, end]) =~= start + end);
    assert(start + end =~= line);
}

/// The cursor blinks at most once at a given moment: a second tick at the same
/// time changes nothing.
pub proof fn lemma_tick_twice_at_once(v: InputView, now: u64)
    ensures
        v.tick(now).tick(now) == v.tick(now),
{
}

/// Only one empty line is blank: any other text, a single non-empty line among
/// it, is sent.
pub proof fn lemma_blank_is_one_empty_line(v: InputView)
    ensures
        v.is_blank() <==> v.lines == seq![Seq::<char>::empty()],
{
    if v.lines == seq![Seq::<char>::empty()] {
        assert(v.lines.len() == 1);
        assert(v.lines[0] == Seq::<char>::empty());
    }
    if v.is_blank() {
        assert(v.lines[0] =~= Seq::<char>::empty());
        assert(v.lines =~= seq![Seq::<char>::empty()]);
    }
}

/// Sending a message leaves nothing to send: a second send hands out nothing.
pub proof fn lemma_sent_input_is_blank(v: InputView)
    ensures
        v.cleared().is_blank(),
{
}

impl InputMessage {
    /// An empty input with a shown cursor that last blinked at `now` (milliseconds).
    pub fn new(now: u64) -> (r: InputMessage)
        ensures
            r@ == (InputView {
                lines: seq![Seq::<char>::empty()],
                cursor: (0, 0),
                cursor_visible: true,
                cursor_last_blink: now,
            }),
            r@.wf(),
    {
        let r = InputMessage {
            message: vec![Vec::new()],
            cursor_pos: (0, 0),
            cursor_visible: true,
            cursor_last_blink: now,
        };
        proof {
            assert(r@.lines =~= seq![Seq::<char>::empty()]);
        }
        r
    }

    /// The lines of the message.
    pub fn lines(&self) -> (r: Vec<String>)
        ensures
            string_views(r@) == self@.lines,
    {
        let mut r: Vec<String> = Vec::new();
        let mut i: usize = 0;
        while i < self.message.len()
            invariant
                i <= self.message.len(),
                string_views(r@) == self@.lines.take(i as int),
            decreases self.message.len() - i,
        {
            let s = chars_to_string(&self.message[i]);
            let ghost before = r@;
            r.push(s);
            i = i + 1;
            proof {
                assert(string_views(r@) =~= string_views(before).push(s@));
                assert(self@.lines.take(i as int) =~= self@.lines.take(i - 1).push(self@.lines[i - 1]));
            }
        }
        proof {
            assert(self@.lines.take(self.message.len() as int) =~= self@.lines);
        }
        r
    }

    /// The cursor position (column, line) as last set.
    pub fn cursor(&self) -> (r: (u16, u16))
        ensures
            r == self@.cursor,
    {
        self.cursor_pos
    }

    /// Whether the cursor is shown.
    pub fn cursor_visible(&self) -> (r: bool)
        ensures
            r == self@.cursor_visible,
    {
        self.cursor_visible
    }

    /// Whether the moved-in cursor stands within its line with ASCII text before
    /// it, as deleting, breaking a line and typing need.
    pub fn cursor_in_line(&self) -> (r: bool)
        requires
            self@.wf(),
        ensures
            r == self@.cursor_in_line(),
    {
        let (x, y) = self.fix_cursor_pos();
        proof {
            lemma_fixed_cursor(self@);
        }
        let line = &self.message[y as usize];
        proof {
            assert(line@ == self@.lines[y as int]);
        }
        if (x as usize) > line.len() {
            return false;
        }
        let mut i: usize = 0;
        while i < x as usize
            invariant
                x as int <= line@.len(),
                (x, y) == self@.fixed(),
                (y as int) < self@.lines.len(),
                line@ == self@.lines[y as int],
                i <= x,
                is_ascii_chars_seq(line@.take(i as int)),
            decreases x - i,
        {
            if (line[i] as u32) >= 128 {
                proof {
                    assert(line@.take(x as int)[i as int] == line@[i as int]);
                    assert((line@.take(x as int)[i as int] as u32) >= 128);
                    assert(!is_ascii_chars_seq(line@.take(x as int)));
                }
                return false;
            }
            i = i + 1;
            proof {
                assert forall|j: int| 0 <= j < line@.take(i as int).len() implies (#[trigger] line@.take(
                    i as int,
                )[j] as u32) < 128 by {
                    if j < i - 1 {
                        assert(line@.take(i as int)[j] == line@.take(i - 1)[j]);
                    }
                }
            }
        }
        true
    }

    fn utf8_len_u16(line: &Vec<char>) -> (r: u16)
        ensures
            r == as_u16(utf8_len(line@) as int),
    {
        let mut acc: u32 = 0;
        let mut i: usize = 0;
        while i < line.len()
            invariant
                i <= line.len(),
                acc < 0x10000,
                acc == utf8_len(line@.take(i as int)) % 0x10000,
            decreases line.len() - i,
        {
            let u = line[i] as u32;
            let w: u32 = if u < 0x80 {
                1
            } else if u < 0x800 {
                2
            } else if u < 0x10000 {
                3
            } else {
                4
            };
            proof {
                assert(line@.take(i + 1).drop_last() =~= line@.take(i as int));
                assert(line@.take(i + 1).last() == line@[i as int]);
                assert(w == utf8_width(line@[i as int]));
                let prev = utf8_len(line@.take(i as int)) as int;
                vstd::arithmetic::div_mod::lemma_add_mod_noop(prev, w as int, 0x10000);
                vstd::arithmetic::div_mod::lemma_small_mod(w as nat, 0x10000);
            }
            acc = (acc + w) % 0x10000;
            i = i + 1;
        }
        proof {
            assert(line@.take(line.len() as int) =~= line@);
        }
        acc as u16
    }

    /// The cursor moved into the text.
    pub fn fix_cursor_pos(&self) -> (r: (u16, u16))
        ensures
            r == self@.fixed(),
    {
        let (mut x, y) = self.cursor_pos;
        if (y as usize) < self.message.len() {
            let lu = Self::utf8_len_u16(&self.message[y as usize]);
            if lu < x {
                x = lu;
            }
        }
        let last: usize = if self.message.len() == 0 {
            0
        } else {
            self.message.len() - 1
        };
        let lu = (last % 0x10000) as u16;
        let y2 = if y <= lu {
            y
        } else {
            lu
        };
        (x, y2)
    }

    pub fn move_left(&mut self)
        requires
            old(self)@.wf(),
        ensures
            final(self)@ == old(self)@.move_left(),
            final(self)@.wf(),
    {
        self.cursor_pos = self.fix_cursor_pos();
        if self.cursor_pos.0 > 0 {
            self.cursor_pos.0 = self.cursor_pos.0 - 1;
        }
    }

    pub fn move_right(&mut self)
        requires
            old(self)@.wf(),
            old(self)@.cursor.0 < u16::MAX,
        ensures
            final(self)@ == old(self)@.move_right(),
            final(self)@.wf(),
    {
        self.cursor_pos.0 = self.cursor_pos.0 + 1;
    }

    pub fn move_up(&mut self)
        requires
            old(self)@.wf(),
        ensures
            final(self)@ == old(self)@.move_up(),
            final(self)@.wf(),
    {
        if self.cursor_pos.1 > 0 {
            self.cursor_pos.1 = self.cursor_pos.1 - 1;
        }
    }

    pub fn move_down(&mut self)
        requires
            old(self)@.wf(),
            old(self)@.cursor.1 < u16::MAX,
        ensures
            final(self)@ == old(self)@.move_down(),
            final(self)@.wf(),
    {
        self.cursor_pos.1 = self.cursor_pos.1 + 1;
        let (_, y) = self.fix_cursor_pos();
        self.cursor_pos.1 = y;
    }

    /// Deletes the character before the cursor (backspace).
    pub fn delete_at_cursor_pos(&mut self)
        requires
            old(self)@.wf(),
            old(self)@.cursor_in_line(),
        ensures
            final(self)@ == old(self)@.delete_at_cursor(),
            final(self)@.wf(),
    {
        self.cursor_pos = self.fix_cursor_pos();
        let (x, y) = self.cursor_pos;
        if x > 0 && (y as usize) < self.message.len() {
            let mut line = self.message[y as usize].clone();
            proof {
                assert(line@ =~= self.message@[y as int]@);
            }
            line.remove((x - 1) as usize);
            self.message.set(y as usize, line);
            self.cursor_pos.0 = x - 1;
            proof {
                assert(self@.lines =~= old(self)@.lines.update(y as int, line@));
            }
        }
    }

    /// Breaks the cursor's line in two at the cursor; the cursor goes to the start
    /// of the new line.
    pub fn insert_new_line_at_cursor_pos(&mut self)
        requires
            old(self)@.wf(),
            old(self)@.cursor_in_line(),
            old(self)@.fixed().1 < u16::MAX,
        ensures
            final(self)@ == old(self)@.insert_new_line(),
            final(self)@.wf(),
    {
        self.cursor_pos = self.fix_cursor_pos();
        let (x, y) = self.cursor_pos;
        let x = x as usize;
        let y = y as usize;
        if y > self.message.len() {
            return;
        }
        if y < self.message.len() {
            let mut start = self.message[y].clone();
            proof {
                assert(start@ =~= self.message@[y as int]@);
            }
            let ghost line = start@;
            let end = start.split_off(x);
            self.message.set(y, start);
            let ghost mid = views(self.message@);
            self.message.insert(y + 1, end);
            proof {
                assert(views(self.message@) =~= mid.insert(y + 1, end@));
                assert(mid =~= old(self)@.lines.update(y as int, line.subrange(0, x as int)));
            }
            self.cursor_pos.0 = 0;
            self.cursor_pos.1 = self.cursor_pos.1 + 1;
        }
    }

    /// Appends a space to the cursor's line and moves the cursor one column right.
    pub fn insert_space_at_cursor_pos(&mut self)
        requires
            old(self)@.wf(),
            old(self)@.fixed().0 < u16::MAX,
        ensures
            final(self)@ == old(self)@.insert_space(),
            final(self)@.wf(),
    {
        self.cursor_pos = self.fix_cursor_pos();
        let y = self.cursor_pos.1 as usize;
        if y < self.message.len() {
            let mut line = self.message[y].clone();
            proof {
                assert(line@ =~= self.message@[y as int]@);
            }
            line.push(' ');
            self.message.set(y, line);
            self.cursor_pos.0 = self.cursor_pos.0 + 1;
            proof {
                assert(self@.lines =~= old(self)@.lines.update(y as int, line@));
            }
        }
    }

    /// Sends the message: unless it is one empty line, the lines are handed out as
    /// a submit event and the input is cleared.
    pub fn send_message(&mut self) -> (r: Option<InputEvent>)
        requires
            old(self)@.wf(),
        ensures
            old(self)@.is_blank() ==> r is None && final(self)@ == old(self)@,
            !old(self)@.is_blank() ==> (r matches Some(e) && e@ == (InputEventView::Submit {
                data: old(self)@.lines,
            })) && final(self)@ == old(self)@.cleared(),
            final(self)@.wf(),
    {
        if self.message.len() <= 1 && self.message.len() > 0 && self.message[0].len() == 0 {
            return None;
        }
        let data = self.lines();
        self.message = vec![Vec::new()];
        self.cursor_pos = (0, 0);
        proof {
            assert(self@.lines =~= seq![Seq::<char>::empty()]);
        }
        Some(InputEvent::Submit { data })
    }

    /// Types the keystroke's character, if it has one, at the cursor.
    pub fn on_keystroke(&mut self, keystroke: &Keystroke)
        requires
            old(self)@.wf(),
            keystroke@.key_char matches Some(t) ==> old(self)@.cursor_in_line() && old(self)@.fixed().0 + t.len()
                <= u16::MAX,
        ensures
            keystroke@.key_char matches Some(t) ==> final(self)@ == old(self)@.type_text(t),
            keystroke@.key_char is None ==> final(self)@ == old(self)@,
            final(self)@.wf(),
    {
        let key_char = match &keystroke.key_char {
            Some(k) => k,
            None => {
                return;
            },
        };
        let text = str_to_chars(key_char.as_str());
        self.cursor_pos = self.fix_cursor_pos();
        let x = self.cursor_pos.0 as usize;
        let y = self.cursor_pos.1 as usize;
        if y >= self.message.len() {
            return;
        }
        let mut line = self.message[y].clone();
        proof {
            assert(line@ =~= self.message@[y as int]@);
        }
        let ghost orig = line@;
        proof {
            assert(text@ == keystroke@.key_char.unwrap());
        }
        let mut right = line.split_off(x);
        let mut cx: u16 = self.cursor_pos.0;
        let mut i: usize = 0;
        while i < text.len()
            invariant
                i <= text.len(),
                x as int + text.len() <= u16::MAX,
                cx == x + i,
                line@ == orig.subrange(0, x as int) + text@.take(i as int),
            decreases text.len() - i,
        {
            line.push(text[i]);
            cx = cx + 1;
            i = i + 1;
            proof {
                assert(orig.subrange(0, x as int) + text@.take(i as int) =~= (orig.subrange(0, x as int)
                    + text@.take(i - 1)).push(text@[i - 1]));
            }
        }
        line.append(&mut right);
        proof {
            assert(text@.take(text.len() as int) =~= text@);
            assert(line@ =~= orig.subrange(0, x as int) + text@ + orig.subrange(x as int, orig.len() as int));
        }
        self.message.set(y, line);
        self.cursor_pos.0 = cx;
        proof {
            assert(self@.lines =~= old(self)@.lines.update(y as int, line@));
        }
    }

    /// Flips the cursor's visibility once the blink rate has passed since the last
    /// flip; `now` is in milliseconds on the clock `new` was given.
    pub fn tick_cursor(&mut self, now: u64)
        requires
            old(self)@.wf(),
        ensures
            final(self)@ == old(self)@.tick(now),
            final(self)@.wf(),
    {
        let elapsed = if now >= self.cursor_last_blink {
            now - self.cursor_last_blink
        } else {
            0
        };
        if elapsed >= CURSOR_BLINK_RATE_MS {
            self.cursor_visible = !self.cursor_visible;
            self.cursor_last_blink = now;
        }
    }
}

} // verus!
