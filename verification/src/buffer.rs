//! The screen of one pane: lines of styled cells, a cursor, and the effect of
//! the characters and control sequences a shell writes.
use vstd::prelude::*;
use crate::style::{ansi_color, ansi_color_spec, plain_style, Color, Style};
use crate::text::chars_of;

verus! {

/// One character position of a pane: the character and its style.
#[derive(Clone, Copy, Debug, PartialEq, Eq, Structural)]
pub struct Cell {
    pub ch: char,
    pub style: Style,
}

pub open spec fn cell_of(ch: char, style: Style) -> Cell {
    Cell { ch, style }
}

/// A space drawn in the plain style.
pub open spec fn blank_cell() -> Cell {
    Cell { ch: ' ', style: plain_style() }
}

impl Cell {
    pub fn new(ch: char, style: Style) -> (c: Cell)
        ensures
            c == cell_of(ch, style),
    {
        Cell { ch, style }
    }
}

impl Default for Cell {
    fn default() -> (c: Cell)
        ensures
            c == blank_cell(),
    {
        Cell { ch: ' ', style: Style::plain() }
    }
}

/// `a - b`, or 0 when `b` is the larger.
pub open spec fn sat_sub(a: int, b: int) -> nat {
    if a > b { (a - b) as nat } else { 0 }
}

pub open spec fn min_nat(a: nat, b: nat) -> nat {
    if a < b { a } else { b }
}

pub open spec fn max_nat(a: nat, b: nat) -> nat {
    if a > b { a } else { b }
}

/// The style of the message that replaces a closed pane's contents.
pub open spec fn message_style() -> Style {
    Style { fg: Some(Color::DarkGray), bg: None, bold: false }
}

pub open spec fn message_cells(message: Seq<char>) -> Seq<Cell> {
    message.map_values(|c: char| cell_of(c, message_style()))
}

/// The number a control sequence's `idx`-th parameter carries: its first
/// value, where there is one and it is not 0, else `default`.
pub open spec fn param_value(params: Seq<Seq<u16>>, idx: int, default: nat) -> nat {
    if 0 <= idx < params.len() && params[idx].len() > 0 && params[idx][0] != 0 {
        params[idx][0] as nat
    } else {
        default
    }
}

/// The codes of a "select graphic rendition" sequence: the first value of
/// each parameter (0 where it has none); a sequence without parameters means 0.
pub open spec fn sgr_codes(params: Seq<Seq<u16>>) -> Seq<u16> {
    if params.len() == 0 {
        seq![0u16]
    } else {
        params.map_values(|p: Seq<u16>| first_or_zero(p))
    }
}

pub open spec fn first_or_zero(p: Seq<u16>) -> u16 {
    if p.len() > 0 { p[0] } else { 0u16 }
}

/// The style after one SGR code.
pub open spec fn sgr_step(style: Style, code: u16) -> Style {
    if code == 0 {
        plain_style()
    } else if code == 1 {
        Style { bold: true, ..style }
    } else if 30 <= code <= 37 {
        Style { fg: Some(ansi_color_spec((code - 30) as u16, false)), ..style }
    } else if 90 <= code <= 97 {
        Style { fg: Some(ansi_color_spec((code - 90) as u16, true)), ..style }
    } else if 40 <= code <= 47 {
        Style { bg: Some(ansi_color_spec((code - 40) as u16, false)), ..style }
    } else if 100 <= code <= 107 {
        Style { bg: Some(ansi_color_spec((code - 100) as u16, true)), ..style }
    } else if code == 39 {
        Style { fg: Some(Color::Reset), ..style }
    } else if code == 49 {
        Style { bg: Some(Color::Reset), ..style }
    } else {
        style
    }
}

/// The style after the codes, applied from first to last.
pub open spec fn sgr_apply(style: Style, codes: Seq<u16>) -> Style
    decreases codes.len(),
{
    if codes.len() == 0 {
        style
    } else {
        sgr_step(sgr_apply(style, codes.drop_last()), codes.last())
    }
}

/// The screen of a pane as a mathematical value.
pub struct Screen {
    /// The lines kept, oldest first; the last ones are the visible ones.
    pub lines: Seq<Seq<Cell>>,
    pub cursor_x: nat,
    /// An index into `lines`.
    pub cursor_y: nat,
    pub width: nat,
    /// How many lines are kept at most.
    pub max_lines: nat,
    /// The style the next printed character gets.
    pub style: Style,
}

impl Screen {
    /// The lines are well placed: the cursor is on a kept line and no more
    /// lines are kept than allowed.
    pub open spec fn lines_ok(self) -> bool {
        &&& self.cursor_y < self.lines.len()
        &&& self.lines.len() <= self.max_lines
        &&& self.width >= 1
    }

    /// Every state a pane's screen is ever in: the lines are well placed and
    /// the cursor is inside the width.
    pub open spec fn wf(self) -> bool {
        &&& self.lines_ok()
        &&& self.cursor_x < self.width
    }

    /// Lines are added until the cursor's line exists.
    pub open spec fn ensure_cursor(self) -> Screen {
        if self.cursor_y < self.lines.len() {
            self
        } else {
            Screen {
                lines: self.lines + Seq::new(
                    (self.cursor_y + 1 - self.lines.len()) as nat,
                    |i: int| Seq::<Cell>::empty(),
                ),
                ..self
            }
        }
    }

    /// Line feed: the cursor goes to the start of the next line, a line is
    /// added if there is none, and the oldest line is dropped when more lines
    /// than allowed would be kept.
    pub open spec fn line_feed(self) -> Screen {
        let y = self.cursor_y + 1;
        let lines = if y >= self.lines.len() {
            self.lines.push(Seq::<Cell>::empty())
        } else {
            self.lines
        };
        if lines.len() > self.max_lines {
            Screen { lines: lines.drop_first(), cursor_x: 0, cursor_y: (y - 1) as nat, ..self }
        } else {
            Screen { lines, cursor_x: 0, cursor_y: y, ..self }
        }
    }

    /// A printable character is written at the cursor in the current style
    /// (the line is padded with blanks to reach the cursor), and the cursor
    /// advances, wrapping to the next line at the right edge.
    pub open spec fn put_char(self, ch: char) -> Screen {
        let s2 = self.put_char_in_place(ch);
        if s2.cursor_x >= s2.width {
            Screen { cursor_x: 0, ..s2 }.line_feed()
        } else {
            s2
        }
    }

    /// The cell is written at the cursor and the cursor advances one column,
    /// before any wrap.
    pub open spec fn put_char_in_place(self, ch: char) -> Screen {
        let s = self.ensure_cursor();
        let line = s.lines[s.cursor_y as int];
        let padded = if s.cursor_x >= line.len() {
            line + Seq::new((s.cursor_x + 1 - line.len()) as nat, |i: int| blank_cell())
        } else {
            line
        };
        let written = padded.update(s.cursor_x as int, cell_of(ch, s.style));
        Screen { lines: s.lines.update(s.cursor_y as int, written), cursor_x: s.cursor_x + 1, ..s }
    }

    /// The effect of one character written to the pane.
    pub open spec fn push_char(self, ch: char) -> Screen {
        if ch == '\n' {
            self.line_feed()
        } else if ch == '\r' {
            Screen { cursor_x: 0, ..self }
        } else if ch == '\u{8}' {
            Screen { cursor_x: sat_sub(self.cursor_x as int, 1), ..self }
        } else {
            self.put_char(ch)
        }
    }

    /// The effect of a C0 control byte: line feed, carriage return and
    /// backspace act; the others are ignored.
    pub open spec fn execute(self, byte: u8) -> Screen {
        if byte == 0x0a {
            self.push_char('\n')
        } else if byte == 0x0d {
            self.push_char('\r')
        } else if byte == 0x08 {
            self.push_char('\u{8}')
        } else {
            self
        }
    }

    /// One empty line, the cursor at its start.
    pub open spec fn clear_screen(self) -> Screen {
        Screen { lines: seq![Seq::<Cell>::empty()], cursor_x: 0, cursor_y: 0, ..self }
    }

    /// One line holding the message, the cursor at its start.
    pub open spec fn replace_with_message(self, message: Seq<char>) -> Screen {
        Screen { lines: seq![message_cells(message)], cursor_x: 0, cursor_y: 0, ..self }
    }

    /// The cursor's line loses the cells from the cursor on.
    pub open spec fn clear_line_from_cursor(self) -> Screen {
        let s = self.ensure_cursor();
        let line = s.lines[s.cursor_y as int];
        if s.cursor_x < line.len() {
            Screen { lines: s.lines.update(s.cursor_y as int, line.take(s.cursor_x as int)), ..s }
        } else {
            s
        }
    }

    /// The cursor moves to (`x`, `y`), clamped to the width and to the kept
    /// lines, and lines are added until its line exists.
    pub open spec fn move_cursor(self, x: nat, y: nat) -> Screen {
        Screen {
            cursor_x: min_nat(x, sat_sub(self.width as int, 1)),
            cursor_y: min_nat(y, sat_sub(self.max_lines as int, 1)),
            ..self
        }.ensure_cursor()
    }

    /// The effect of a control sequence with the given parameters and final
    /// character: cursor motion (`A` up, `B` down, `C` right, `D` left, `H` and
    /// `f` to a position counted from 1), erasing (`J` the screen, `K` the rest
    /// of the line) and styles (`m`); other sequences are ignored.
    pub open spec fn csi(self, params: Seq<Seq<u16>>, action: char) -> Screen {
        if action == 'A' {
            Screen { cursor_y: sat_sub(self.cursor_y as int, param_value(params, 0, 1) as int), ..self }
        } else if action == 'B' {
            self.move_cursor(self.cursor_x, self.cursor_y + param_value(params, 0, 1))
        } else if action == 'C' {
            Screen {
                cursor_x: min_nat(
                    self.cursor_x + param_value(params, 0, 1),
                    sat_sub(self.width as int, 1),
                ),
                ..self
            }
        } else if action == 'D' {
            Screen { cursor_x: sat_sub(self.cursor_x as int, param_value(params, 0, 1) as int), ..self }
        } else if action == 'H' || action == 'f' {
            self.move_cursor(
                sat_sub(param_value(params, 1, 1) as int, 1),
                sat_sub(param_value(params, 0, 1) as int, 1),
            )
        } else if action == 'J' {
            self.clear_screen()
        } else if action == 'K' {
            self.clear_line_from_cursor()
        } else if action == 'm' {
            Screen { style: sgr_apply(self.style, sgr_codes(params)), ..self }
        } else {
            self
        }
    }

    /// The width becomes `width` (at least 1) and the cursor is pulled inside it.
    pub open spec fn resize(self, width: nat) -> Screen {
        let w = max_nat(width, 1);
        Screen { width: w, cursor_x: if self.cursor_x >= w { (w - 1) as nat } else { self.cursor_x }, ..self }
    }

    /// The index of the first line shown in a window of `height` lines
    /// (at least 1) scrolled back by `scrollback` lines.
    pub open spec fn visible_start(self, height: nat, scrollback: nat) -> nat {
        sat_sub(self.lines.len() as int, (max_nat(height, 1) + scrollback) as int)
    }

    /// The lines shown in that window.
    pub open spec fn visible(self, height: nat, scrollback: nat) -> Seq<Seq<Cell>> {
        let start = self.visible_start(height, scrollback);
        let end = min_nat(start + max_nat(height, 1), self.lines.len());
        self.lines.subrange(start as int, end as int)
    }

    /// How far the window of `height` lines can be scrolled back.
    pub open spec fn max_scrollback(self, height: nat) -> nat {
        sat_sub(self.lines.len() as int, max_nat(height, 1) as int)
    }
}

pub open spec fn lines_view(lines: Seq<Vec<Cell>>) -> Seq<Seq<Cell>> {
    lines.map_values(|l: Vec<Cell>| l@)
}

/// The screen of one pane.
pub struct PaneBuffer {
    lines: Vec<Vec<Cell>>,
    cursor_x: usize,
    cursor_y: usize,
    width: usize,
    max_lines: usize,
    current_style: Style,
}

impl View for PaneBuffer {
    type V = Screen;

    closed spec fn view(&self) -> Screen {
        Screen {
            lines: lines_view(self.lines@),
            cursor_x: self.cursor_x as nat,
            cursor_y: self.cursor_y as nat,
            width: self.width as nat,
            max_lines: self.max_lines as nat,
            style: self.current_style,
        }
    }
}

fn copy_line(line: &Vec<Cell>) -> (res: Vec<Cell>)
    ensures
        res@ == line@,
{
    let mut res: Vec<Cell> = Vec::new();
    let mut i: usize = 0;
    while i < line.len()
        invariant
            i <= line@.len(),
            res@ == line@.take(i as int),
        decreases line@.len() - i,
    {
        res.push(line[i]);
        i = i + 1;
    }
    res
}

impl PaneBuffer {
    pub open spec fn wf(&self) -> bool {
        self@.wf()
    }

    /// An empty screen, 80 columns wide, keeping `max_lines` lines but at least 200.
    pub fn new(max_lines: usize) -> (b: PaneBuffer)
        ensures
            b.wf(),
            b@.lines == seq![Seq::<Cell>::empty()],
            b@.cursor_x == 0,
            b@.cursor_y == 0,
            b@.width == 80,
            b@.max_lines == max_nat(max_lines as nat, 200),
            b@.style == plain_style(),
    {
        let mut lines: Vec<Vec<Cell>> = Vec::new();
        lines.push(Vec::new());
        let b = PaneBuffer {
            lines,
            cursor_x: 0,
            cursor_y: 0,
            width: 80,
            max_lines: if max_lines > 200 { max_lines } else { 200 },
            current_style: Style::plain(),
        };
        assert(b@.lines =~= seq![Seq::<Cell>::empty()]);
        b
    }

    pub fn resize(&mut self, width: usize)
        requires
            old(self).wf(),
        ensures
            final(self).wf(),
            final(self)@ == old(self)@.resize(width as nat),
    {
        self.width = if width > 1 { width } else { 1 };
        if self.cursor_x >= self.width {
            self.cursor_x = self.width - 1;
        }
    }

    pub fn cursor_position(&self) -> (p: (usize, usize))
        ensures
            p.0 == self@.cursor_x,
            p.1 == self@.cursor_y,
    {
        (self.cursor_x, self.cursor_y)
    }

    pub fn visible_start_at(&self, height: usize, scrollback: usize) -> (start: usize)
        ensures
            start == self@.visible_start(height as nat, scrollback as nat),
    {
        let h = if height > 1 { height } else { 1 };
        self.lines.len().saturating_sub(h.saturating_add(scrollback))
    }

    pub fn max_scrollback(&self, height: usize) -> (n: usize)
        ensures
            n == self@.max_scrollback(height as nat),
    {
        let h = if height > 1 { height } else { 1 };
        self.lines.len().saturating_sub(h)
    }

    pub fn visible_lines_at(&self, height: usize, scrollback: usize) -> (res: Vec<Vec<Cell>>)
        ensures
            lines_view(res@) == self@.visible(height as nat, scrollback as nat),
    {
        let h = if height > 1 { height } else { 1 };
        let start = self.visible_start_at(height, scrollback);
        let len = self.lines.len();
        let end = if len - start < h { len } else { start + h };
        let mut res: Vec<Vec<Cell>> = Vec::new();
        let mut i = start;
        while i < end
            invariant
                start <= i <= end <= self.lines@.len(),
                res@.len() == i - start,
                forall|k: int| 0 <= k < res@.len() ==> #[trigger] res@[k]@ == self.lines@[start + k]@,
            decreases end - i,
        {
            res.push(copy_line(&self.lines[i]));
            i = i + 1;
        }
        assert(lines_view(res@) =~= lines_view(self.lines@).subrange(start as int, end as int));
        res
    }

    pub fn visible_lines(&self, height: usize) -> (res: Vec<Vec<Cell>>)
        ensures
            lines_view(res@) == self@.visible(height as nat, 0),
    {
        self.visible_lines_at(height, 0)
    }

    fn line_feed(&mut self)
        requires
            old(self)@.lines_ok(),
        ensures
            final(self)@ == old(self)@.line_feed(),
            final(self)@.wf(),
    {
        let ghost s = self@;
        self.cursor_x = 0;
        self.cursor_y = self.cursor_y + 1;
        if self.cursor_y >= self.lines.len() {
            self.lines.push(Vec::new());
        }
        assert(lines_view(self.lines@) =~= (if s.cursor_y + 1 >= s.lines.len() {
            s.lines.push(Seq::<Cell>::empty())
        } else {
            s.lines
        }));
        if self.lines.len() > self.max_lines {
            self.lines.remove(0);
            self.cursor_y = self.cursor_y - 1;
            assert(lines_view(self.lines@) =~= s.line_feed().lines);
        }
    }

    fn ensure_cursor(&mut self)
        requires
            old(self)@.cursor_y < old(self)@.max_lines,
            old(self)@.lines.len() <= old(self)@.max_lines,
        ensures
            final(self)@ == old(self)@.ensure_cursor(),
            final(self)@.cursor_y < final(self)@.lines.len() <= final(self)@.max_lines,
    {
        let ghost s = self@;
        while self.cursor_y >= self.lines.len()
            invariant
                self@.cursor_y == s.cursor_y,
                self@.cursor_x == s.cursor_x,
                self@.width == s.width,
                self@.max_lines == s.max_lines,
                self@.style == s.style,
                s.lines.len() <= self@.lines.len(),
                s.cursor_y >= s.lines.len() ==> self@.lines.len() <= self@.cursor_y + 1,
                forall|k: int| 0 <= k < s.lines.len() ==> #[trigger] self@.lines[k] == s.lines[k],
                forall|k: int| s.lines.len() <= k < self@.lines.len() ==> #[trigger] self@.lines[k] == Seq::<Cell>::empty(),
                s.cursor_y < s.lines.len() ==> self@.lines.len() == s.lines.len(),
            decreases self@.cursor_y + 1 - self@.lines.len(),
        {
            let ghost before = self.lines@;
            let empty: Vec<Cell> = Vec::new();
            let ghost e = empty;
            self.lines.push(empty);
            proof { lemma_lines_view_push(before, e); }
        }
        assert(self@.lines =~= s.ensure_cursor().lines);
    }

    fn put_char(&mut self, ch: char)
        requires
            old(self).wf(),
        ensures
            final(self).wf(),
            final(self)@ == old(self)@.put_char(ch),
    {
        let ghost s = self@;
        let y = self.cursor_y;
        let x = self.cursor_x;
        let cell = Cell::new(ch, self.current_style);
        let n = x + 1;
        let ghost old_line = s.lines[y as int];
        let line = &mut self.lines[y];
        if x >= line.len() {
            while line.len() < n
                invariant
                    old_line.len() <= line@.len() <= n,
                    forall|k: int| 0 <= k < old_line.len() ==> #[trigger] line@[k] == old_line[k],
                    forall|k: int| old_line.len() <= k < line@.len() ==> #[trigger] line@[k] == blank_cell(),
                decreases n - line@.len(),
            {
                line.push(Cell::default());
            }
        }
        let ghost padded = line@;
        assert(padded =~= (if s.cursor_x >= s.lines[y as int].len() {
                s.lines[y as int] + Seq::new(
                    (s.cursor_x + 1 - s.lines[y as int].len()) as nat,
                    |i: int| blank_cell(),
                )
            } else {
                s.lines[y as int]
            }));
        line.set(x, cell);
        assert(lines_view(self.lines@) =~= s.lines.update(
            y as int,
            (if s.cursor_x >= s.lines[y as int].len() {
                s.lines[y as int] + Seq::new(
                    (s.cursor_x + 1 - s.lines[y as int].len()) as nat,
                    |i: int| blank_cell(),
                )
            } else {
                s.lines[y as int]
            }).update(x as int, cell),
        ));
        if x + 1 >= self.width {
            self.cursor_x = 0;
            self.line_feed();
        } else {
            self.cursor_x = x + 1;
        }
    }

    fn push_char(&mut self, ch: char)
        requires
            old(self).wf(),
        ensures
            final(self).wf(),
            final(self)@ == old(self)@.push_char(ch),
    {
        if ch == '\n' {
            self.line_feed();
        } else if ch == '\r' {
            self.cursor_x = 0;
        } else if ch == '\u{8}' {
            self.cursor_x = self.cursor_x.saturating_sub(1);
        } else {
            self.put_char(ch);
        }
    }

    fn clear_screen(&mut self)
        requires
            old(self).wf(),
        ensures
            final(self).wf(),
            final(self)@ == old(self)@.clear_screen(),
    {
        self.lines.clear();
        self.lines.push(Vec::new());
        self.cursor_x = 0;
        self.cursor_y = 0;
        assert(lines_view(self.lines@) =~= seq![Seq::<Cell>::empty()]);
    }

    /// The screen is replaced by one line holding `message` in dark grey.
    pub fn replace_with_message(&mut self, message: &str)
        requires
            old(self).wf(),
        ensures
            final(self).wf(),
            final(self)@ == old(self)@.replace_with_message(message@),
    {
        let chars = chars_of(message);
        let mut line: Vec<Cell> = Vec::new();
        let style = Style::plain().with_fg(Color::DarkGray);
        let mut i: usize = 0;
        while i < chars.len()
            invariant
                i <= chars@.len(),
                style == message_style(),
                line@.len() == i,
                forall|k: int| 0 <= k < i ==> #[trigger] line@[k] == cell_of(chars@[k], message_style()),
            decreases chars@.len() - i,
        {
            line.push(Cell::new(chars[i], style));
            i = i + 1;
        }
        assert(line@.len() == chars@.len());
        assert(chars@ == message@);
        assert(message_cells(message@).len() == message@.len());
        assert(line@.len() == message_cells(message@).len());
        assert(forall|k: int| 0 <= k < line@.len() ==> line@[k] == #[trigger] message_cells(message@)[k]);
        assert(line@ =~= message_cells(message@));
        self.lines.clear();
        self.lines.push(line);
        self.cursor_x = 0;
        self.cursor_y = 0;
        assert(lines_view(self.lines@) =~= seq![message_cells(message@)]);
    }

    fn clear_line_from_cursor(&mut self)
        requires
            old(self).wf(),
        ensures
            final(self).wf(),
            final(self)@ == old(self)@.clear_line_from_cursor(),
    {
        self.ensure_cursor();
        let ghost s = self@;
        let x = self.cursor_x;
        let y = self.cursor_y;
        let line = &mut self.lines[y];
        if x < line.len() {
            line.truncate(x);
            assert(lines_view(self.lines@) =~= s.lines.update(y as int, s.lines[y as int].take(x as int)));
        } else {
            assert(lines_view(self.lines@) =~= s.lines);
        }
    }

    fn move_cursor(&mut self, x: usize, y: usize)
        requires
            old(self).wf(),
        ensures
            final(self).wf(),
            final(self)@ == old(self)@.move_cursor(x as nat, y as nat),
    {
        let wx = self.width.saturating_sub(1);
        let my = self.max_lines.saturating_sub(1);
        self.cursor_x = if x < wx { x } else { wx };
        self.cursor_y = if y < my { y } else { my };
        self.ensure_cursor();
    }

    fn sgr(&mut self, params: &Vec<Vec<u16>>)
        requires
            old(self).wf(),
        ensures
            final(self).wf(),
            final(self)@ == (Screen {
                style: sgr_apply(old(self)@.style, sgr_codes(params_view(params@))),
                ..old(self)@
            }),
    {
        let mut codes: Vec<u16> = Vec::new();
        let mut i: usize = 0;
        while i < params.len()
            invariant
                i <= params@.len(),
                codes@.len() == i,
                forall|k: int| 0 <= k < i ==> codes@[k] == first_or_zero(params@[k]@),
            decreases params@.len() - i,
        {
            let p = &params[i];
            codes.push(if p.len() > 0 { p[0] } else { 0 });
            i = i + 1;
        }
        if codes.len() == 0 {
            codes.push(0);
        }
        assert(codes@ =~= sgr_codes(params_view(params@)));
        let ghost start = self.current_style;
        let mut style = self.current_style;
        let mut j: usize = 0;
        while j < codes.len()
            invariant
                j <= codes@.len(),
                style == sgr_apply(start, codes@.take(j as int)),
            decreases codes@.len() - j,
        {
            assert(codes@.take(j + 1).drop_last() =~= codes@.take(j as int));
            style = sgr_code(style, codes[j]);
            j = j + 1;
        }
        assert(codes@.take(codes@.len() as int) =~= codes@);
        self.current_style = style;
    }

    /// A printed character.
    pub fn print(&mut self, c: char)
        requires
            old(self).wf(),
        ensures
            final(self).wf(),
            final(self)@ == old(self)@.push_char(c),
    {
        self.push_char(c);
    }

    /// A C0 control byte.
    pub fn execute(&mut self, byte: u8)
        requires
            old(self).wf(),
        ensures
            final(self).wf(),
            final(self)@ == old(self)@.execute(byte),
    {
        if byte == 0x0a {
            self.push_char('\n');
        } else if byte == 0x0d {
            self.push_char('\r');
        } else if byte == 0x08 {
            self.push_char('\u{8}');
        }
    }

    /// A control sequence: `params` holds each parameter's values, `action`
    /// is the final character.
    pub fn csi_dispatch(&mut self, params: &Vec<Vec<u16>>, action: char)
        requires
            old(self).wf(),
        ensures
            final(self).wf(),
            final(self)@ == old(self)@.csi(params_view(params@), action),
    {
        if action == 'A' {
            let p = param(params, 0, 1);
            self.cursor_y = self.cursor_y.saturating_sub(p);
        } else if action == 'B' {
            let p = param(params, 0, 1);
            self.move_cursor(self.cursor_x, self.cursor_y.saturating_add(p));
        } else if action == 'C' {
            let p = param(params, 0, 1);
            let x = self.cursor_x.saturating_add(p);
            let wx = self.width.saturating_sub(1);
            self.cursor_x = if x < wx { x } else { wx };
        } else if action == 'D' {
            let p = param(params, 0, 1);
            self.cursor_x = self.cursor_x.saturating_sub(p);
        } else if action == 'H' || action == 'f' {
            let col = param(params, 1, 1).saturating_sub(1);
            let row = param(params, 0, 1).saturating_sub(1);
            self.move_cursor(col, row);
        } else if action == 'J' {
            self.clear_screen();
        } else if action == 'K' {
            self.clear_line_from_cursor();
        } else if action == 'm' {
            self.sgr(params);
        }
    }

    /// An escape sequence: none changes the screen.
    pub fn esc_dispatch(&mut self, intermediates: &[u8], ignore: bool, byte: u8)
        ensures
            final(self)@ == old(self)@,
    {
    }
}

proof fn lemma_lines_view_push(v: Seq<Vec<Cell>>, x: Vec<Cell>)
    ensures
        lines_view(v.push(x)) == lines_view(v).push(x@),
{
    assert(lines_view(v.push(x)) =~= lines_view(v).push(x@));
}

pub open spec fn params_view(params: Seq<Vec<u16>>) -> Seq<Seq<u16>> {
    params.map_values(|p: Vec<u16>| p@)
}

fn param(params: &Vec<Vec<u16>>, idx: usize, default: usize) -> (v: usize)
    ensures
        v == param_value(params_view(params@), idx as int, default as nat),
{
    if idx < params.len() && params[idx].len() > 0 && params[idx][0] != 0 {
        params[idx][0] as usize
    } else {
        default
    }
}

/// The style after one SGR code.
pub fn sgr_code(style: Style, code: u16) -> (s: Style)
    ensures
        s == sgr_step(style, code),
{
    if code == 0 {
        Style::plain()
    } else if code == 1 {
        style.with_bold()
    } else if 30 <= code && code <= 37 {
        style.with_fg(ansi_color(code - 30, false))
    } else if 90 <= code && code <= 97 {
        style.with_fg(ansi_color(code - 90, true))
    } else if 40 <= code && code <= 47 {
        style.with_bg(ansi_color(code - 40, false))
    } else if 100 <= code && code <= 107 {
        style.with_bg(ansi_color(code - 100, true))
    } else if code == 39 {
        style.with_fg(Color::Reset)
    } else if code == 49 {
        style.with_bg(Color::Reset)
    } else {
        style
    }
}

/// A printable character lands at the cursor, in the current style, and the
/// cursor moves one column right, when that column is still inside the width.
pub proof fn print_writes_at_cursor(s: Screen, ch: char)
    requires
        s.wf(),
        ch != '\n' && ch != '\r' && ch != '\u{8}',
        s.cursor_x + 1 < s.width,
    ensures
        s.push_char(ch).lines[s.cursor_y as int][s.cursor_x as int] == cell_of(ch, s.style),
        s.push_char(ch).cursor_x == s.cursor_x + 1,
        s.push_char(ch).cursor_y == s.cursor_y,
        s.push_char(ch).lines.len() == s.lines.len(),
        s.push_char(ch).wf(),
{
}

/// A printable character in the last column is written like any other, and
/// then the cursor wraps to the start of the next line.
pub proof fn print_at_right_edge_wraps(s: Screen, ch: char)
    requires
        s.wf(),
        ch != '\n' && ch != '\r' && ch != '\u{8}',
        s.cursor_x + 1 == s.width,
    ensures
        s.push_char(ch).cursor_x == 0,
        s.push_char(ch) == (Screen { cursor_x: 0, ..s.put_char_in_place(ch) }).line_feed(),
{
}

/// At the bottom of a full screen a line feed drops the oldest line and adds
/// an empty one: the number of kept lines stays at the limit.
pub proof fn line_feed_at_limit_scrolls(s: Screen)
    requires
        s.wf(),
        s.cursor_y + 1 == s.lines.len(),
        s.lines.len() == s.max_lines,
    ensures
        s.line_feed().lines == s.lines.drop_first().push(Seq::<Cell>::empty()),
        s.line_feed().lines.len() == s.max_lines,
        s.line_feed().cursor_y == s.cursor_y,
        s.line_feed().cursor_x == 0,
{
    assert(s.lines.push(Seq::<Cell>::empty()).drop_first() =~= s.lines.drop_first().push(
        Seq::<Cell>::empty(),
    ));
}

/// Below the limit a line feed at the bottom adds a line and moves the cursor
/// onto it, keeping every line.
pub proof fn line_feed_below_limit_keeps_lines(s: Screen)
    requires
        s.wf(),
        s.cursor_y + 1 == s.lines.len(),
        s.lines.len() < s.max_lines,
    ensures
        s.line_feed().lines == s.lines.push(Seq::<Cell>::empty()),
        s.line_feed().cursor_y == s.cursor_y + 1,
        s.line_feed().cursor_x == 0,
{
}

/// Carriage return then line feed puts the cursor at the start of the next
/// line and keeps every line, when the screen is not full.
pub proof fn crlf_starts_next_line(s: Screen)
    requires
        s.wf(),
        s.lines.len() < s.max_lines,
    ensures
        s.push_char('\r').push_char('\n').cursor_x == 0,
        s.push_char('\r').push_char('\n').cursor_y == s.cursor_y + 1,
        s.push_char('\r').push_char('\n').lines.subrange(0, s.lines.len() as int) == s.lines,
{
    let t = s.push_char('\r').push_char('\n');
    assert(t.lines.subrange(0, s.lines.len() as int) =~= s.lines);
}

/// Every operation keeps the screen well formed.
pub proof fn operations_keep_screen_wf(
    s: Screen,
    ch: char,
    byte: u8,
    params: Seq<Seq<u16>>,
    action: char,
    width: nat,
    message: Seq<char>,
)
    requires
        s.wf(),
    ensures
        s.push_char(ch).wf(),
        s.execute(byte).wf(),
        s.csi(params, action).wf(),
        s.resize(width).wf(),
        s.replace_with_message(message).wf(),
{
}

/// A window that is scrolled back no further than allowed shows exactly
/// `height` lines once that many are kept; unscrolled, it ends with the
/// newest line.
pub proof fn window_is_full_height(s: Screen, height: nat, scrollback: nat)
    requires
        s.wf(),
        height >= 1,
        s.lines.len() >= height,
        scrollback <= s.max_scrollback(height),
    ensures
        s.visible(height, scrollback).len() == height,
        s.visible(height, scrollback) == s.lines.subrange(
            s.lines.len() - height - scrollback,
            s.lines.len() - scrollback,
        ),
        scrollback == 0 ==> s.visible(height, 0).last() == s.lines.last(),
{
}

/// A sequence that selects graphic rendition without parameters, or with the
/// single parameter 0, resets the style.
pub proof fn empty_sgr_resets_style(s: Screen)
    ensures
        s.csi(Seq::empty(), 'm').style == plain_style(),
        s.csi(seq![seq![0u16]], 'm').style == plain_style(),
{
    assert(sgr_codes(Seq::empty()) =~= seq![0u16]);
    assert(sgr_codes(seq![seq![0u16]]) =~= seq![0u16]);
    assert(sgr_apply(s.style, seq![0u16]) == sgr_step(
        sgr_apply(s.style, seq![0u16].drop_last()),
        0u16,
    ));
}

/// Erasing the screen leaves one empty line with the cursor at its start, and
/// that line is all any window shows.
pub proof fn clear_screen_shows_one_empty_line(s: Screen, height: nat, scrollback: nat)
    requires
        s.wf(),
    ensures
        s.csi(Seq::empty(), 'J').lines == seq![Seq::<Cell>::empty()],
        s.csi(Seq::empty(), 'J').cursor_x == 0 && s.csi(Seq::empty(), 'J').cursor_y == 0,
        s.csi(Seq::empty(), 'J').visible(height, scrollback) == seq![Seq::<Cell>::empty()],
{
    let t = s.csi(Seq::empty(), 'J');
    assert(t.visible(height, scrollback) =~= seq![Seq::<Cell>::empty()]);
}

/// A pane keeps at most `usize::MAX` lines, so the window's first line is
/// what `usize`'s saturating arithmetic gives; it is never past the last
/// line, moves up (or stays) as the window is scrolled back, and is the first
/// line exactly when the window is scrolled back as far as it goes.
pub proof fn visible_start_saturates(b: &PaneBuffer, height: usize, scrollback: usize, further: usize)
    ensures
        b@.lines.len() <= usize::MAX,
        b@.visible_start(height as nat, scrollback as nat) == sat_sub(
            b@.lines.len() as int,
            min_nat(max_nat(height as nat, 1) + scrollback as nat, usize::MAX as nat) as int,
        ),
        b@.visible_start(height as nat, scrollback as nat) <= b@.lines.len(),
        scrollback <= further ==> b@.visible_start(height as nat, further as nat) <= b@.visible_start(
            height as nat,
            scrollback as nat,
        ),
        (b@.visible_start(height as nat, scrollback as nat) == 0) == (scrollback >= b@.max_scrollback(
            height as nat,
        )),
{
    assert(b.lines@.len() == b.lines.len());
    assert(lines_view(b.lines@).len() == b.lines@.len());
}

/// Cursor motion: `A`, `B`, `C` and `D` move the cursor up, down, right and
/// left from where it is, by the first parameter (1 when it is missing or
/// 0), stopping at the top, at the last line that can be kept, at the right
/// edge and at the left edge; `H` moves it to the row and column the two
/// parameters count from 1. Moving up, right or left changes nothing else.
pub proof fn cursor_motion_is_relative(s: Screen, n: u16, row: u16, col: u16)
    requires
        s.wf(),
    ensures
        ({
            let p = seq![seq![n]];
            let step: int = if n == 0 { 1 } else { n as int };
            &&& s.csi(p, 'C').cursor_x == (if s.cursor_x + step < s.width - 1 {
                s.cursor_x + step
            } else {
                s.width - 1
            })
            &&& s.csi(p, 'C').cursor_y == s.cursor_y && s.csi(p, 'C').lines == s.lines
            &&& s.csi(p, 'D').cursor_x == (if s.cursor_x >= step { s.cursor_x - step } else { 0 })
            &&& s.csi(p, 'D').cursor_y == s.cursor_y && s.csi(p, 'D').lines == s.lines
            &&& s.csi(p, 'A').cursor_y == (if s.cursor_y >= step { s.cursor_y - step } else { 0 })
            &&& s.csi(p, 'A').cursor_x == s.cursor_x && s.csi(p, 'A').lines == s.lines
            &&& s.csi(p, 'B').cursor_y == (if s.cursor_y + step < s.max_lines - 1 {
                s.cursor_y + step
            } else {
                s.max_lines - 1
            })
            &&& s.csi(p, 'B').cursor_x == s.cursor_x
        }),
        ({
            let q = seq![seq![row], seq![col]];
            let r: int = if row == 0 { 0 } else { row - 1 };
            let c: int = if col == 0 { 0 } else { col - 1 };
            &&& s.csi(q, 'H').cursor_x == (if c < s.width - 1 { c } else { s.width - 1 })
            &&& s.csi(q, 'H').cursor_y == (if r < s.max_lines - 1 { r } else { s.max_lines - 1 })
        }),
{
}

/// Control bytes: CR moves the cursor to the start of its line and
/// backspace one column left (not past the first), both leaving the lines
/// as they are; a line feed goes to the start of the next line; the other
/// control bytes change nothing. `K` erases the cursor's line from the
/// cursor on, keeping every other line and the cursor.
pub proof fn control_bytes_and_erasing(s: Screen, byte: u8)
    requires
        s.wf(),
    ensures
        s.execute(0x0d) == (Screen { cursor_x: 0, ..s }),
        s.execute(0x08) == (Screen { cursor_x: if s.cursor_x > 0 { (s.cursor_x - 1) as nat } else { 0 }, ..s }),
        s.execute(0x0a).cursor_x == 0,
        s.execute(0x0a).cursor_y == (if s.cursor_y + 1 < s.max_lines { s.cursor_y + 1 } else { s.cursor_y }),
        (byte != 0x0a && byte != 0x0d && byte != 0x08) ==> s.execute(byte) == s,
        ({
            let t = s.csi(Seq::empty(), 'K');
            let line = s.lines[s.cursor_y as int];
            &&& t.cursor_x == s.cursor_x && t.cursor_y == s.cursor_y
            &&& t.lines.len() == s.lines.len()
            &&& t.lines[s.cursor_y as int] == line.take(if s.cursor_x < line.len() { s.cursor_x as int } else { line.len() as int })
            &&& forall|i: int| 0 <= i < s.lines.len() && i != s.cursor_y ==> #[trigger] t.lines[i] == s.lines[i]
        }),
{
    let line = s.lines[s.cursor_y as int];
    assert(line.take(line.len() as int) =~= line);
}

/// The other codes: 0 resets the style, 1 makes it bold, 39 and 49 set the
/// foreground and the background to the terminal's default, and every code
/// that is not a colour code leaves the style as it was.
pub proof fn other_codes(s: Style, code: u16)
    ensures
        sgr_step(s, 0) == plain_style(),
        sgr_step(s, 1) == (Style { bold: true, ..s }),
        sgr_step(s, 39) == (Style { fg: Some(Color::Reset), ..s }),
        sgr_step(s, 49) == (Style { bg: Some(Color::Reset), ..s }),
        (code > 1 && !(30 <= code <= 39) && !(40 <= code <= 49) && !(90 <= code <= 97) && !(100
            <= code <= 107)) ==> sgr_step(s, code) == s,
{
}

/// Colour codes: 30 to 37 set the foreground, and 40 to 47 the background,
/// to black, red, green, yellow, blue, magenta, cyan and grey in that
/// order; 90 to 97 and 100 to 107 to their bright forms (dark grey, light
/// red, light green, light yellow, light blue, light magenta, light cyan,
/// white). Nothing else of the style changes.
pub proof fn colour_codes_in_order(s: Style)
    ensures
        forall|k: int|
            0 <= k < 8 ==> {
                let standard = seq![
                    Color::Black,
                    Color::Red,
                    Color::Green,
                    Color::Yellow,
                    Color::Blue,
                    Color::Magenta,
                    Color::Cyan,
                    Color::Gray,
                ];
                let bright = seq![
                    Color::DarkGray,
                    Color::LightRed,
                    Color::LightGreen,
                    Color::LightYellow,
                    Color::LightBlue,
                    Color::LightMagenta,
                    Color::LightCyan,
                    Color::White,
                ];
                &&& #[trigger] sgr_step(s, (30 + k) as u16) == (Style { fg: Some(standard[k]), ..s })
                &&& sgr_step(s, (40 + k) as u16) == (Style { bg: Some(standard[k]), ..s })
                &&& sgr_step(s, (90 + k) as u16) == (Style { fg: Some(bright[k]), ..s })
                &&& sgr_step(s, (100 + k) as u16) == (Style { bg: Some(bright[k]), ..s })
            },
{
}

} // verus!
