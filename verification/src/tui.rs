//! The terminal view: what its keys do, where each pane goes, and how a
//! line of cells is cut into runs of one style.
use vstd::prelude::*;
use crate::buffer::Cell;
use crate::keys::{control_byte_for, control_code, next_and_previous_undo};
use crate::layout::Rect;
use crate::style::{Color, Style};
use crate::text::{decimal, push_char, push_decimal};

verus! {

/// Keys the terminal view reacts to.
#[derive(Clone, Copy, Debug, PartialEq, Eq, Structural)]
pub enum TermKey {
    Char(char),
    Tab,
    BackTab,
    Enter,
    Backspace,
    Left,
    Right,
    Up,
    Down,
    Delete,
    Home,
    End,
    Esc,
    Other,
}

/// What the terminal view does after a key.
#[derive(Clone, Debug)]
pub enum TermAction {
    Nothing,
    Quit,
    /// Send the character, as UTF-8, to the active pane.
    SendChar(char),
    /// Send the bytes to the active pane.
    Send(Vec<u8>),
}

pub enum TermActionModel {
    Nothing,
    Quit,
    SendChar(char),
    Send(Seq<u8>),
}

pub open spec fn term_action_view(a: TermAction) -> TermActionModel {
    match a {
        TermAction::Nothing => TermActionModel::Nothing,
        TermAction::Quit => TermActionModel::Quit,
        TermAction::SendChar(c) => TermActionModel::SendChar(c),
        TermAction::Send(b) => TermActionModel::Send(b@),
    }
}

/// The bytes a key sends to the shell, for the keys that send fixed bytes.
pub open spec fn term_key_bytes(key: TermKey) -> Option<Seq<u8>> {
    match key {
        TermKey::Enter => Some(seq![0x0du8]),
        TermKey::Backspace => Some(seq![0x7fu8]),
        TermKey::Left => Some(seq![0x1bu8, 0x5bu8, 0x44u8]),
        TermKey::Right => Some(seq![0x1bu8, 0x5bu8, 0x43u8]),
        TermKey::Up => Some(seq![0x1bu8, 0x5bu8, 0x41u8]),
        TermKey::Down => Some(seq![0x1bu8, 0x5bu8, 0x42u8]),
        TermKey::Delete => Some(seq![0x1bu8, 0x5bu8, 0x33u8, 0x7eu8]),
        TermKey::Home => Some(seq![0x1bu8, 0x5bu8, 0x48u8]),
        TermKey::End => Some(seq![0x1bu8, 0x5bu8, 0x46u8]),
        TermKey::Esc => Some(seq![0x1bu8]),
        _ => None,
    }
}

/// The active pane and action after a key: Ctrl-Q quits; Tab and Shift-Tab
/// move to the next and previous pane; a character is sent as its control
/// character when Ctrl is held and it is a letter, else as itself; the named
/// keys send their sequences.
pub open spec fn term_key_step(active: nat, pane_count: nat, key: TermKey, control: bool) -> (nat, TermActionModel) {
    match key {
        TermKey::Char(c) => if c == 'q' && control {
            (active, TermActionModel::Quit)
        } else {
            match (if control { control_code(c) } else { None }) {
                Some(b) => (active, TermActionModel::Send(seq![b])),
                None => (active, TermActionModel::SendChar(c)),
            }
        },
        TermKey::Tab => (((active + 1) as nat % (if pane_count > 1 { pane_count } else { 1nat })) as nat, TermActionModel::Nothing),
        TermKey::BackTab => (
            if active == 0 {
                if pane_count > 0 { (pane_count - 1) as nat } else { 0 }
            } else {
                (active - 1) as nat
            },
            TermActionModel::Nothing,
        ),
        _ => match term_key_bytes(key) {
            Some(b) => (active, TermActionModel::Send(b)),
            None => (active, TermActionModel::Nothing),
        },
    }
}

fn term_bytes(key: TermKey) -> (r: Option<Vec<u8>>)
    ensures
        match r {
            Some(v) => term_key_bytes(key) == Some(v@),
            None => term_key_bytes(key) is None,
        },
{
    let r = match key {
        TermKey::Enter => Some(vec![0x0du8]),
        TermKey::Backspace => Some(vec![0x7fu8]),
        TermKey::Left => Some(vec![0x1bu8, 0x5bu8, 0x44u8]),
        TermKey::Right => Some(vec![0x1bu8, 0x5bu8, 0x43u8]),
        TermKey::Up => Some(vec![0x1bu8, 0x5bu8, 0x41u8]),
        TermKey::Down => Some(vec![0x1bu8, 0x5bu8, 0x42u8]),
        TermKey::Delete => Some(vec![0x1bu8, 0x5bu8, 0x33u8, 0x7eu8]),
        TermKey::Home => Some(vec![0x1bu8, 0x5bu8, 0x48u8]),
        TermKey::End => Some(vec![0x1bu8, 0x5bu8, 0x46u8]),
        TermKey::Esc => Some(vec![0x1bu8]),
        _ => None,
    };
    proof {
        if r is Some {
            assert(term_key_bytes(key) == Some(r->0@));
        }
    }
    r
}

/// Handles a key of the terminal view; `active` is the active pane's index.
pub fn terminal_key(active: usize, pane_count: usize, key: TermKey, control: bool) -> (r: (usize, TermAction))
    requires
        active < pane_count || active == 0,
    ensures
        (r.0 as nat, term_action_view(r.1)) == term_key_step(active as nat, pane_count as nat, key, control),
        r.0 < pane_count || r.0 == 0,
{
    match key {
        TermKey::Char(c) => {
            if c == 'q' && control {
                (active, TermAction::Quit)
            } else {
                match control_byte_for(c, control) {
                    Some(b) => {
                        let v = vec![b];
                        assert(v@ =~= seq![b]);
                        (active, TermAction::Send(v))
                    },
                    None => (active, TermAction::SendChar(c)),
                }
            }
        },
        TermKey::Tab => {
            let n = if pane_count > 1 { pane_count } else { 1 };
            proof {
                vstd::arithmetic::div_mod::lemma_mod_bound((active + 1) as int, n as int);
            }
            ((active + 1) % n, TermAction::Nothing)
        },
        TermKey::BackTab => {
            let next = if active == 0 { pane_count.saturating_sub(1) } else { active - 1 };
            (next, TermAction::Nothing)
        },
        _ => match term_bytes(key) {
            Some(b) => (active, TermAction::Send(b)),
            None => (active, TermAction::Nothing),
        },
    }
}

/// Tab and then Shift-Tab, or the other way round, return to the pane one
/// started from, and neither leaves the panes.
pub proof fn tab_and_back_tab_undo(active: nat, pane_count: nat, control: bool)
    requires
        active < pane_count,
    ensures
        term_key_step(term_key_step(active, pane_count, TermKey::Tab, control).0, pane_count, TermKey::BackTab, control).0
            == active,
        term_key_step(term_key_step(active, pane_count, TermKey::BackTab, control).0, pane_count, TermKey::Tab, control).0
            == active,
        term_key_step(active, pane_count, TermKey::Tab, control).0 < pane_count,
        term_key_step(active, pane_count, TermKey::BackTab, control).0 < pane_count,
{
    next_and_previous_undo(active, pane_count);
}

/// The terminal view's keys: Ctrl-Q quits (a lone q is sent like any
/// character); Tab and Shift-Tab go to the next and previous pane, wrapping;
/// with Ctrl, a letter sends its control character (Ctrl-A is 1, Ctrl-Z 26),
/// and any other character is sent as it is, as is every character typed
/// without Ctrl; Enter, Backspace, the arrows, Delete, Home, End and Escape
/// send CR, DEL, ESC [ D, C, A and B, ESC [ 3 ~, ESC [ H, ESC [ F and ESC.
/// Only Tab and Shift-Tab change the active pane.
pub proof fn terminal_keys(active: nat, pane_count: nat, c: char, control: bool)
    requires
        active < pane_count,
    ensures
        ({
            let step = |k: TermKey| term_key_step(active, pane_count, k, control);
            let sends = |k: TermKey, bytes: Seq<u8>|
                step(k) == (active, TermActionModel::Send(bytes));
            let letter: int = if 'a' <= c && c <= 'z' {
                c as int - 'a' as int
            } else if 'A' <= c && c <= 'Z' {
                c as int - 'A' as int
            } else {
                -1
            };
            &&& (c == 'q' && control) ==> step(TermKey::Char(c)) == (active, TermActionModel::Quit)
            &&& (control && letter >= 0 && c != 'q') ==> step(TermKey::Char(c)) == (
                active,
                TermActionModel::Send(seq![(letter + 1) as u8]),
            )
            &&& (!control || letter < 0) ==> step(TermKey::Char(c)) == (active, TermActionModel::SendChar(c))
            &&& step(TermKey::Tab).0 == (if active + 1 == pane_count { 0 } else { active + 1 })
            &&& step(TermKey::BackTab).0 == (if active == 0 { pane_count - 1 } else { active - 1 })
            &&& sends(TermKey::Enter, seq![0x0du8])
            &&& sends(TermKey::Backspace, seq![0x7fu8])
            &&& sends(TermKey::Left, seq![0x1bu8, 0x5bu8, 0x44u8])
            &&& sends(TermKey::Right, seq![0x1bu8, 0x5bu8, 0x43u8])
            &&& sends(TermKey::Up, seq![0x1bu8, 0x5bu8, 0x41u8])
            &&& sends(TermKey::Down, seq![0x1bu8, 0x5bu8, 0x42u8])
            &&& sends(TermKey::Delete, seq![0x1bu8, 0x5bu8, 0x33u8, 0x7eu8])
            &&& sends(TermKey::Home, seq![0x1bu8, 0x5bu8, 0x48u8])
            &&& sends(TermKey::End, seq![0x1bu8, 0x5bu8, 0x46u8])
            &&& sends(TermKey::Esc, seq![0x1bu8])
            &&& step(TermKey::Other) == (active, TermActionModel::Nothing)
        }),
{
    if active + 1 == pane_count {
        vstd::arithmetic::div_mod::lemma_mod_self_0(pane_count as int);
    } else {
        vstd::arithmetic::div_mod::lemma_small_mod((active + 1) as nat, pane_count);
    }
}

/// The area of pane `idx`: its chunk of the layout, the last chunk when
/// there are fewer, the whole area when there are none.
pub fn pane_area(chunks: &Vec<Rect>, idx: usize, full: Rect) -> (r: Rect)
    ensures
        r == (if chunks@.len() == 0 {
            full
        } else if idx < chunks@.len() {
            chunks@[idx as int]
        } else {
            chunks@[chunks@.len() - 1]
        }),
{
    if chunks.len() == 0 {
        full
    } else if idx < chunks.len() {
        chunks[idx]
    } else {
        chunks[chunks.len() - 1]
    }
}

/// The size of a pane's terminal inside its border: the area less one cell
/// on each side, at least 1 by 1.
pub fn pane_inner_size(area: Rect) -> (r: (u16, u16))
    ensures
        r.0 == (if area.width > 3 { area.width - 2 } else { 1 }),
        r.1 == (if area.height > 3 { area.height - 2 } else { 1 }),
{
    let cols = area.width.saturating_sub(2);
    let rows = area.height.saturating_sub(2);
    (if cols > 1 { cols } else { 1 }, if rows > 1 { rows } else { 1 })
}

/// The label of pane `idx`'s border in the terminal view: its number, counted
/// from one, between spaces.
pub open spec fn pane_label_spec(idx: nat) -> Seq<char> {
    seq![' '] + decimal(idx + 1) + seq![' ']
}

/// The label and border style of pane `idx`: the active pane's border is
/// light green, the others' dark grey.
pub fn pane_border(idx: usize, active: usize) -> (r: (String, Style))
    requires
        idx < usize::MAX,
    ensures
        r.0@ == pane_label_spec(idx as nat),
        r.1 == (Style {
            fg: Some(if idx == active { Color::LightGreen } else { Color::DarkGray }),
            bg: None,
            bold: false,
        }),
{
    proof {
        reveal_strlit(" ");
        assert(" "@ =~= seq![' ']);
    }
    let mut label = " ".to_owned();
    push_decimal(&mut label, idx + 1);
    push_char(&mut label, ' ');
    let color = if idx == active { Color::LightGreen } else { Color::DarkGray };
    (label, Style::plain().with_fg(color))
}

/// A run of characters drawn in one style.
pub struct SpanModel {
    pub text: Seq<char>,
    pub style: Style,
}

/// The runs of a line: cells are gathered while their style stays the same
/// as the one before; a run ends where the style changes.
pub open spec fn spans_state(row: Seq<Cell>) -> (Seq<SpanModel>, Seq<char>, Style)
    decreases row.len(),
{
    if row.len() == 0 {
        (Seq::empty(), Seq::empty(), crate::style::plain_style())
    } else {
        let (spans, buf, style) = spans_state(row.drop_last());
        let cell = row.last();
        if cell.style != style && buf.len() > 0 {
            (spans.push(SpanModel { text: buf, style }), seq![cell.ch], cell.style)
        } else {
            (spans, buf.push(cell.ch), cell.style)
        }
    }
}

/// The runs of one style a line is drawn as.
pub open spec fn row_spans_spec(row: Seq<Cell>) -> Seq<SpanModel> {
    let (spans, buf, style) = spans_state(row);
    if buf.len() > 0 {
        spans.push(SpanModel { text: buf, style })
    } else {
        spans
    }
}

pub open spec fn spans_view(spans: Seq<(String, Style)>) -> Seq<SpanModel> {
    spans.map_values(|s: (String, Style)| SpanModel { text: s.0@, style: s.1 })
}

/// Cuts a line of cells into runs of one style.
pub fn row_spans(row: &Vec<Cell>) -> (r: Vec<(String, Style)>)
    ensures
        spans_view(r@) == row_spans_spec(row@),
{
    let mut spans: Vec<(String, Style)> = Vec::new();
    let mut buf = String::new();
    let mut style = Style::plain();
    let mut i: usize = 0;
    while i < row.len()
        invariant
            i <= row@.len(),
            (spans_view(spans@), buf@, style) == spans_state(row@.take(i as int)),
        decreases row@.len() - i,
    {
        proof {
            assert(row@.take(i + 1).drop_last() =~= row@.take(i as int));
        }
        let cell = row[i];
        if cell.style != style && buf.unicode_len() > 0 {
            let ghost prev = spans@;
            let done = buf;
            buf = String::new();
            spans.push((done, style));
            proof {
                assert(spans_view(spans@) =~= spans_view(prev).push(SpanModel { text: done@, style }));
            }
        }
        push_char(&mut buf, cell.ch);
        style = cell.style;
        i = i + 1;
    }
    proof {
        assert(row@.take(row@.len() as int) =~= row@);
    }
    if buf.unicode_len() > 0 {
        let ghost prev = spans@;
        spans.push((buf, style));
        proof {
            assert(spans_view(spans@) =~= spans_view(prev).push(SpanModel { text: buf@, style }));
        }
    }
    spans
}

/// The texts of the runs, one after another, are the line's characters, and
/// no run is empty.
pub open spec fn concat_texts(spans: Seq<SpanModel>) -> Seq<char>
    decreases spans.len(),
{
    if spans.len() == 0 {
        Seq::empty()
    } else {
        concat_texts(spans.drop_last()) + spans.last().text
    }
}

proof fn lemma_concat_push(spans: Seq<SpanModel>, s: SpanModel)
    ensures
        concat_texts(spans.push(s)) == concat_texts(spans) + s.text,
{
    assert(spans.push(s).drop_last() =~= spans);
}

proof fn lemma_spans_state(row: Seq<Cell>)
    ensures
        concat_texts(spans_state(row).0) + spans_state(row).1 == row.map_values(|c: Cell| c.ch),
        forall|k: int| 0 <= k < spans_state(row).0.len() ==> #[trigger] spans_state(row).0[k].text.len() > 0,
        row.len() > 0 ==> spans_state(row).1.len() > 0,
    decreases row.len(),
{
    if row.len() > 0 {
        let init = row.drop_last();
        lemma_spans_state(init);
        let (spans, buf, style) = spans_state(init);
        let cell = row.last();
        assert(row.map_values(|c: Cell| c.ch) =~= init.map_values(|c: Cell| c.ch).push(cell.ch));
        if cell.style != style && buf.len() > 0 {
            lemma_concat_push(spans, SpanModel { text: buf, style });
            assert(concat_texts(spans.push(SpanModel { text: buf, style })) + seq![cell.ch] =~= concat_texts(spans) + buf + seq![cell.ch]);
        } else {
            assert(concat_texts(spans) + buf.push(cell.ch) =~= (concat_texts(spans) + buf).push(cell.ch));
        }
    }
}

/// The runs of a line hold its characters in order, none empty.
pub proof fn spans_cover_row(row: Seq<Cell>)
    ensures
        concat_texts(row_spans_spec(row)) == row.map_values(|c: Cell| c.ch),
        forall|k: int| 0 <= k < row_spans_spec(row).len() ==> #[trigger] row_spans_spec(row)[k].text.len() > 0,
{
    lemma_spans_state(row);
    let (spans, buf, style) = spans_state(row);
    if buf.len() > 0 {
        lemma_concat_push(spans, SpanModel { text: buf, style });
    } else {
        assert(concat_texts(spans) + buf =~= concat_texts(spans));
    }
}

/// Where run `k` starts in the line: the length of the runs before it.
pub open spec fn span_start(spans: Seq<SpanModel>, k: int) -> nat {
    concat_texts(spans.take(k)).len()
}

/// Every cell that run `k` holds has the run's style.
pub open spec fn run_styled(row: Seq<Cell>, spans: Seq<SpanModel>, k: int) -> bool {
    forall|i: int|
        span_start(spans, k) <= i < span_start(spans, k) + spans[k].text.len() ==> #[trigger] row[i].style
            == spans[k].style
}

proof fn lemma_span_start(spans: Seq<SpanModel>, k: int)
    requires
        0 <= k < spans.len(),
    ensures
        span_start(spans, k + 1) == span_start(spans, k) + spans[k].text.len(),
        span_start(spans, k + 1) <= concat_texts(spans).len(),
    decreases spans.len() - k,
{
    assert(spans.take(k + 1).drop_last() =~= spans.take(k));
    if k + 1 < spans.len() {
        lemma_span_start(spans, k + 1);
    } else {
        assert(spans.take(k + 1) =~= spans);
    }
}

proof fn lemma_span_start_push(spans: Seq<SpanModel>, s: SpanModel, k: int)
    requires
        0 <= k <= spans.len(),
    ensures
        span_start(spans.push(s), k) == span_start(spans, k),
        span_start(spans, spans.len() as int) == concat_texts(spans).len(),
{
    assert(spans.push(s).take(k) =~= spans.take(k));
    assert(spans.take(spans.len() as int) =~= spans);
}

proof fn lemma_spans_styles(row: Seq<Cell>)
    ensures
        forall|k: int| 0 <= k < spans_state(row).0.len() ==> #[trigger] run_styled(row, spans_state(row).0, k),
        forall|i: int|
            concat_texts(spans_state(row).0).len() <= i < row.len() ==> #[trigger] row[i].style == spans_state(
                row,
            ).2,
        forall|k: int|
            #![trigger spans_state(row).0[k]]
            0 <= k < spans_state(row).0.len() - 1 ==> spans_state(row).0[k].style != spans_state(row).0[k + 1].style,
        spans_state(row).0.len() > 0 ==> spans_state(row).0.last().style != spans_state(row).2,
    decreases row.len(),
{
    if row.len() > 0 {
        let init = row.drop_last();
        lemma_spans_styles(init);
        lemma_spans_state(init);
        let (spans, buf, style) = spans_state(init);
        let cell = row.last();
        assert(init.map_values(|c: Cell| c.ch).len() == init.len());
        assert(concat_texts(spans).len() + buf.len() == init.len());
        assert forall|i: int| 0 <= i < init.len() implies row[i] == #[trigger] init[i] by {}
        if cell.style != style && buf.len() > 0 {
            let b = SpanModel { text: buf, style };
            let next = spans.push(b);
            lemma_span_start_push(spans, b, spans.len() as int);
            lemma_concat_push(spans, b);
            assert forall|k: int| 0 <= k < next.len() implies #[trigger] run_styled(row, next, k) by {
                lemma_span_start_push(spans, b, k);
                if k < spans.len() {
                    lemma_span_start(spans, k);
                    assert(run_styled(init, spans, k));
                    assert forall|i: int|
                        span_start(next, k) <= i < span_start(next, k) + next[k].text.len() implies #[trigger] row[i].style
                        == next[k].style by {
                        assert(row[i] == init[i]);
                    }
                } else {
                    assert forall|i: int|
                        span_start(next, k) <= i < span_start(next, k) + next[k].text.len() implies #[trigger] row[i].style
                        == next[k].style by {
                        assert(row[i] == init[i]);
                    }
                }
            }
            assert forall|k: int|
                #![trigger next[k]]
                0 <= k < next.len() - 1 implies next[k].style != next[k + 1].style by {
                if k < spans.len() - 1 {
                    assert(spans[k].style != spans[k + 1].style);
                }
            }
        } else {
            assert forall|k: int| 0 <= k < spans.len() implies #[trigger] run_styled(row, spans, k) by {
                lemma_span_start(spans, k);
                assert(run_styled(init, spans, k));
                assert forall|i: int|
                    span_start(spans, k) <= i < span_start(spans, k) + spans[k].text.len() implies #[trigger] row[i].style
                    == spans[k].style by {
                    assert(row[i] == init[i]);
                }
            }
            if buf.len() == 0 {
                assert(init.len() == 0);
                assert(spans.len() == 0);
            }
            assert forall|i: int| concat_texts(spans).len() <= i < row.len() implies #[trigger] row[i].style == cell.style by {
                if i < init.len() {
                    assert(row[i] == init[i]);
                }
            }
        }
    }
}

/// Each run of a line carries the style of every cell it holds, and
/// neighbouring runs differ in style: each run is as long as it can be.
pub proof fn spans_keep_styles(row: Seq<Cell>)
    ensures
        forall|k: int| 0 <= k < row_spans_spec(row).len() ==> #[trigger] run_styled(row, row_spans_spec(row), k),
        forall|k: int|
            #![trigger row_spans_spec(row)[k]]
            0 <= k < row_spans_spec(row).len() - 1 ==> row_spans_spec(row)[k].style != row_spans_spec(row)[k + 1].style,
{
    lemma_spans_styles(row);
    lemma_spans_state(row);
    let (spans, buf, style) = spans_state(row);
    if buf.len() > 0 {
        let b = SpanModel { text: buf, style };
        let next = spans.push(b);
        lemma_span_start_push(spans, b, spans.len() as int);
        assert(row.map_values(|c: Cell| c.ch).len() == row.len());
        assert(concat_texts(spans).len() + buf.len() == row.len());
        assert forall|k: int| 0 <= k < next.len() implies #[trigger] run_styled(row, next, k) by {
            lemma_span_start_push(spans, b, k);
            if k < spans.len() {
                assert(run_styled(row, spans, k));
            }
        }
        assert forall|k: int|
            #![trigger next[k]]
            0 <= k < next.len() - 1 implies next[k].style != next[k + 1].style by {
            if k < spans.len() - 1 {
                assert(spans[k].style != spans[k + 1].style);
            }
        }
    }
}

} // verus!
