//! Where the window draws each pane: its frame, title, terminal grid,
//! cursor bar and scroll marker, in pixels.
use vstd::prelude::*;
use crate::buffer::Cell;
use crate::layout::Rect;
use crate::paint::Theme;
use crate::style::{color_rgb, color_rgb_spec, Color};
use crate::text::{decimal, push_decimal};

verus! {

/// The rectangle of pane `idx`: the one the layout gave it, or the whole
/// area when the layout gave fewer.
pub fn pane_rect(rects: &Vec<Rect>, idx: usize, area: Rect) -> (r: Rect)
    ensures
        r == (if idx < rects@.len() { rects@[idx as int] } else { area }),
{
    if idx < rects.len() {
        rects[idx]
    } else {
        area
    }
}

/// The pixel geometry of a pane drawn in the window.
#[derive(Clone, Copy, Debug, PartialEq, Eq, Structural)]
pub struct PaneFrame {
    pub x: i32,
    pub y: i32,
    pub w: u32,
    pub h: u32,
    /// Height of the title bar, inside the border.
    pub title_bar_h: u32,
    /// How many characters of the title fit.
    pub title_chars: usize,
    /// Corner of the terminal grid.
    pub content_x: i32,
    pub content_y: i32,
    /// Size of the terminal grid in cells.
    pub cols: u16,
    pub rows: u16,
}

pub open spec fn sat_sub_u32(a: u32, b: u32) -> nat {
    if a > b { (a - b) as nat } else { 0 }
}

/// A count of cells: at least 1, at most `u16::MAX`.
pub open spec fn cell_count(pixels: nat, cell: nat) -> nat {
    let n = pixels / cell;
    if n < 1 { 1 } else if n > u16::MAX { u16::MAX as nat } else { n }
}

/// The frame of a pane in `rect`, or none when the rectangle is too small
/// to draw (less than 8 pixels either way): the grid starts 6 pixels in and
/// 5 below the title bar, leaves 12 pixels across and `title_h + 9` down,
/// and the title leaves 16 pixels.
pub open spec fn pane_frame_spec(rect: Rect, cell_w: u32, cell_h: u32, title_h: u32) -> Option<PaneFrame> {
    let w = rect.width as u32;
    let h = rect.height as u32;
    if w < 8 || h < 8 {
        None
    } else {
        Some(
            PaneFrame {
                x: rect.x as i32,
                y: rect.y as i32,
                w,
                h,
                title_bar_h: if title_h < h - 2 { title_h } else { (h - 2) as u32 },
                title_chars: (sat_sub_u32(w, 16) / (cell_w as nat)) as usize,
                content_x: (rect.x + 6) as i32,
                content_y: (rect.y + title_h + 5) as i32,
                cols: cell_count(sat_sub_u32(w, 12), cell_w as nat) as u16,
                rows: cell_count(sat_sub_u32(h, (title_h + 9) as u32), cell_h as nat) as u16,
            },
        )
    }
}

/// The frame of the pane in `rect`.
pub fn pane_frame(rect: Rect, cell_w: u32, cell_h: u32, title_h: u32) -> (f: Option<PaneFrame>)
    requires
        cell_w > 0,
        cell_h > 0,
        title_h + 9 <= u32::MAX,
        rect.y + title_h + 5 <= i32::MAX,
    ensures
        f == pane_frame_spec(rect, cell_w, cell_h, title_h),
        f matches Some(fr) ==> frame_ok(fr),
{
    let w = rect.width as u32;
    let h = rect.height as u32;
    if w < 8 || h < 8 {
        return None;
    }
    let x = rect.x as i32;
    let y = rect.y as i32;
    let title_bar_h = if title_h < h - 2 { title_h } else { h - 2 };
    let content_w = w.saturating_sub(12);
    let content_h = h.saturating_sub(title_h + 9);
    let cols_n = content_w / cell_w;
    let rows_n = content_h / cell_h;
    let cols = if cols_n < 1 { 1 } else if cols_n > 65535 { 65535 } else { cols_n };
    let rows = if rows_n < 1 { 1 } else if rows_n > 65535 { 65535 } else { rows_n };
    Some(
        PaneFrame {
            x,
            y,
            w,
            h,
            title_bar_h,
            title_chars: (w.saturating_sub(16) / cell_w) as usize,
            content_x: x + 6,
            content_y: y + title_h as i32 + 5,
            cols: cols as u16,
            rows: rows as u16,
        },
    )
}

/// The size of a character cell and the height of the title bar, from the
/// font's advance width and line height rounded up: a cell is one pixel
/// wider than the advance but at least 8 pixels, at least 17 high, and the
/// title bar is 9 pixels taller than a cell.
pub fn cell_metrics(advance: u32, line_height: u32) -> (r: (u32, u32, u32))
    requires
        advance < u32::MAX,
        line_height <= u32::MAX - 9,
    ensures
        r.0 == (if advance > 7 { advance } else { 7 }) + 1,
        r.1 == (if line_height > 17 { line_height } else { 17 }),
        r.2 == r.1 + 9,
{
    let w = if advance > 7 { advance } else { 7 };
    let h = if line_height > 17 { line_height } else { 17 };
    (w + 1, h, h + 9)
}

/// The area the panes are laid out in: the window's size, at most
/// `u16::MAX` pixels each way.
pub fn surface_area(width: u32, height: u32) -> (r: Rect)
    ensures
        r == (Rect {
            x: 0,
            y: 0,
            width: (if width < 65535 { width } else { 65535 }) as u16,
            height: (if height < 65535 { height } else { 65535 }) as u16,
        }),
{
    let w = if width < 65535 { width } else { 65535 };
    let h = if height < 65535 { height } else { 65535 };
    Rect { x: 0, y: 0, width: w as u16, height: h as u16 }
}

/// A rectangle filled with one colour.
#[derive(Clone, Copy, Debug, PartialEq, Eq, Structural)]
pub struct Fill {
    pub x: i32,
    pub y: i32,
    pub w: u32,
    pub h: u32,
    pub color: u32,
}

/// A frame `pane_frame` can give: its corner and size fit a `u16`, and it is
/// at least 8 by 8 with a title bar that fits inside the border.
pub open spec fn frame_ok(f: PaneFrame) -> bool {
    &&& 0 <= f.x <= u16::MAX && 0 <= f.y <= u16::MAX
    &&& 8 <= f.w <= u16::MAX && 8 <= f.h <= u16::MAX
    &&& f.title_bar_h <= f.h - 2
}

/// The rectangles of a pane's frame, in drawing order: its background, the
/// top, bottom, left and right borders (in the active colour for the active
/// pane), and the title bar inside the border.
pub open spec fn frame_fills_spec(f: PaneFrame, active: bool, theme: Theme) -> Seq<Fill> {
    let border = if active { theme.border_active } else { theme.border };
    let bar = if active { theme.title_active_background } else { theme.title_background };
    seq![
        Fill { x: f.x, y: f.y, w: f.w, h: f.h, color: theme.pane_background },
        Fill { x: f.x, y: f.y, w: f.w, h: 1, color: border },
        Fill { x: f.x, y: (f.y + f.h - 1) as i32, w: f.w, h: 1, color: border },
        Fill { x: f.x, y: f.y, w: 1, h: f.h, color: border },
        Fill { x: (f.x + f.w - 1) as i32, y: f.y, w: 1, h: f.h, color: border },
        Fill { x: (f.x + 1) as i32, y: (f.y + 1) as i32, w: (f.w - 2) as u32, h: f.title_bar_h, color: bar },
    ]
}

pub fn frame_fills(f: PaneFrame, active: bool, theme: &Theme) -> (r: Vec<Fill>)
    requires
        frame_ok(f),
    ensures
        r@ == frame_fills_spec(f, active, *theme),
{
    let border = if active { theme.border_active } else { theme.border };
    let bar = if active { theme.title_active_background } else { theme.title_background };
    let right = f.x + f.w as i32 - 1;
    let bottom = f.y + f.h as i32 - 1;
    let r = vec![
        Fill { x: f.x, y: f.y, w: f.w, h: f.h, color: theme.pane_background },
        Fill { x: f.x, y: f.y, w: f.w, h: 1, color: border },
        Fill { x: f.x, y: bottom, w: f.w, h: 1, color: border },
        Fill { x: f.x, y: f.y, w: 1, h: f.h, color: border },
        Fill { x: right, y: f.y, w: 1, h: f.h, color: border },
        Fill { x: f.x + 1, y: f.y + 1, w: f.w - 2, h: f.title_bar_h, color: bar },
    ];
    assert(r@ =~= frame_fills_spec(f, active, *theme));
    r
}

/// Every rectangle of a frame lies within the frame.
pub proof fn frame_fills_inside(f: PaneFrame, active: bool, theme: Theme)
    requires
        frame_ok(f),
    ensures
        forall|k: int|
            0 <= k < frame_fills_spec(f, active, theme).len() ==> {
                let r = #[trigger] frame_fills_spec(f, active, theme)[k];
                &&& f.x <= r.x && r.x + r.w <= f.x + f.w
                &&& f.y <= r.y && r.y + r.h <= f.y + f.h
            },
{
}

/// Where a pane's title is written and in which colour: 8 pixels in and 6
/// down from the frame's corner, bright on the active pane, dim elsewhere.
pub fn title_place(f: PaneFrame, active: bool, theme: &Theme) -> (r: (i32, i32, u32))
    requires
        frame_ok(f),
    ensures
        r == ((f.x + 8) as i32, (f.y + 6) as i32, if active { theme.text } else { theme.dim_text }),
{
    (f.x + 8, f.y + 6, if active { theme.text } else { theme.dim_text })
}

/// Where the scroll marker of `chars` characters is written: ending 8
/// pixels before the frame's right edge, on the title's line, in the
/// active border colour.
pub fn marker_place(f: PaneFrame, chars: usize, cell_w: u32, theme: &Theme) -> (r: (i32, i32, u32))
    requires
        frame_ok(f),
        cell_w > 0,
        chars * cell_w <= i32::MAX,
    ensures
        r == ((f.x + f.w - chars * cell_w - 8) as i32, (f.y + 6) as i32, theme.border_active),
{
    proof {
        assert(chars <= chars * cell_w) by (nonlinear_arith)
            requires
                cell_w > 0,
        ;
    }
    let used: i64 = chars as i64 * cell_w as i64;
    let x: i64 = f.x as i64 + f.w as i64 - used - 8;
    (x as i32, f.y + 6, theme.border_active)
}

/// The frame's grid lies inside its rectangle horizontally, and the frame
/// exists exactly when the rectangle is at least 8 by 8.
pub proof fn frame_grid_inside(rect: Rect, cell_w: u32, cell_h: u32, title_h: u32)
    requires
        cell_w > 0,
        cell_h > 0,
    ensures
        (pane_frame_spec(rect, cell_w, cell_h, title_h) is Some) == (rect.width >= 8 && rect.height >= 8),
        pane_frame_spec(rect, cell_w, cell_h, title_h) matches Some(f) ==> {
            &&& f.cols >= 1 && f.rows >= 1
            &&& f.content_x == rect.x + 6
            &&& (f.cols as nat) * (cell_w as nat) <= rect.width - 12 || f.cols == 1
        },
{
    if rect.width >= 8 && rect.height >= 8 {
        let cw = sat_sub_u32(rect.width as u32, 12);
        let n = cw / (cell_w as nat);
        assert(n * (cell_w as nat) <= cw) by (nonlinear_arith)
            requires
                n == cw / (cell_w as nat),
                cell_w > 0,
        ;
    }
}

/// The title shown on a pane: while the active pane's title is being
/// edited, "Rename: " and the text typed; else the pane's title.
pub open spec fn shown_title_spec(title: Seq<char>, rename: Option<Seq<char>>, active: bool) -> Seq<char> {
    if active && rename is Some {
        seq!['R', 'e', 'n', 'a', 'm', 'e', ':', ' '] + rename->0
    } else {
        title
    }
}

pub fn shown_title(title: &str, rename: Option<&str>, active: bool) -> (r: String)
    ensures
        r@ == shown_title_spec(
            title@,
            match rename {
                Some(v) => Some(v@),
                None => None,
            },
            active,
        ),
{
    match rename {
        Some(value) if active => {
            let mut r = "Rename: ".to_owned();
            r.append(value);
            proof {
                reveal_strlit("Rename: ");
                assert("Rename: "@ =~= seq!['R', 'e', 'n', 'a', 'm', 'e', ':', ' ']);
            }
            r
        },
        _ => title.to_owned(),
    }
}

/// The marker of a pane scrolled back by `offset` lines: "+" and the number.
pub fn scroll_marker(offset: usize) -> (r: String)
    ensures
        r@ == seq!['+'] + decimal(offset as nat),
{
    let mut r = "+".to_owned();
    proof {
        reveal_strlit("+");
        assert("+"@ =~= seq!['+']);
    }
    push_decimal(&mut r, offset);
    r
}

/// The scroll offset, clamped to how far the pane can be scrolled.
pub fn clamp_scroll(offset: usize, max_scroll: usize) -> (r: usize)
    ensures
        r == (if offset < max_scroll { offset } else { max_scroll }),
{
    if offset < max_scroll {
        offset
    } else {
        max_scroll
    }
}

/// The bar under the cursor of the active pane: where it is drawn and how
/// wide, when the cursor's line is shown (`start` is the first line shown).
pub open spec fn cursor_bar_spec(
    content_x: i32,
    content_y: i32,
    cursor: (usize, usize),
    start: usize,
    rows: u16,
    cell_w: u32,
    cell_h: u32,
) -> Option<(int, int, nat)> {
    if cursor.1 >= start && cursor.1 - start < rows {
        let row = cursor.1 - start;
        Some(
            (
                content_x + cursor.0 * cell_w,
                content_y + row * cell_h + sat_sub_u32(cell_h, 3),
                if cell_w > 2 { cell_w as nat } else { 2 },
            ),
        )
    } else {
        None
    }
}

pub fn cursor_bar(
    content_x: i32,
    content_y: i32,
    cursor: (usize, usize),
    start: usize,
    rows: u16,
    cell_w: u32,
    cell_h: u32,
) -> (r: Option<(i32, i32, u32)>)
    requires
        cell_w > 0,
        cursor.0 * cell_w <= i32::MAX,
        content_x + cursor.0 * cell_w <= i32::MAX,
        (rows as nat) * (cell_h as nat) + cell_h <= i32::MAX,
        content_y + (rows as nat) * (cell_h as nat) + cell_h <= i32::MAX,
    ensures
        match r {
            Some((x, y, w)) => cursor_bar_spec(content_x, content_y, cursor, start, rows, cell_w, cell_h)
                == Some((x as int, y as int, w as nat)),
            None => cursor_bar_spec(content_x, content_y, cursor, start, rows, cell_w, cell_h) is None,
        },
{
    if cursor.1 < start {
        return None;
    }
    let row = cursor.1 - start;
    if row >= rows as usize {
        return None;
    }
    proof {
        assert((row as nat) * (cell_h as nat) <= (rows as nat) * (cell_h as nat)) by (nonlinear_arith)
            requires
                row < rows,
        ;
        assert(cursor.0 <= cursor.0 * cell_w) by (nonlinear_arith)
            requires
                cell_w > 0,
        ;
    }
    let cx: u32 = cursor.0 as u32;
    let cr: u32 = row as u32;
    let dx_u: u32 = cx * cell_w;
    let dy_u: u32 = cr * cell_h + cell_h.saturating_sub(3);
    let dx = dx_u as i32;
    let dy = dy_u as i32;
    Some((content_x + dx, content_y + dy, if cell_w > 2 { cell_w } else { 2 }))
}

/// What is drawn for one cell of a pane's grid: a background rectangle if
/// the cell has a background colour, and its character in the foreground
/// colour unless it is a space (twice, a pixel apart, when bold).
#[derive(Clone, Copy, Debug, PartialEq, Eq, Structural)]
pub struct CellPaint {
    pub x: i32,
    pub y: i32,
    pub background: Option<u32>,
    pub glyph: Option<char>,
    pub foreground: u32,
    pub bold: bool,
}

pub open spec fn cell_paint_spec(cell: Cell, x: int, y: int, theme: Theme) -> CellPaint {
    CellPaint {
        x: x as i32,
        y: y as i32,
        background: match cell.style.bg {
            Some(bg) => Some(color_rgb_spec(bg, theme.pane_background) as u32),
            None => None,
        },
        glyph: if cell.ch != ' ' { Some(cell.ch) } else { None },
        foreground: color_rgb_spec(
            match cell.style.fg {
                Some(fg) => fg,
                None => Color::Reset,
            },
            theme.text,
        ) as u32,
        bold: cell.style.bold,
    }
}

/// The cells of the grid that exist (rows up to `rows`, columns up to `cols`,
/// as far as each line reaches), row by row, each with what is drawn.
pub open spec fn grid_paints(
    lines: Seq<Seq<Cell>>,
    cols: nat,
    rows: nat,
    x: int,
    y: int,
    cell_w: nat,
    cell_h: nat,
    theme: Theme,
) -> Seq<CellPaint>
    decreases rows,
{
    if rows == 0 {
        Seq::empty()
    } else {
        let r = (rows - 1) as nat;
        let line = if r < lines.len() { lines[r as int] } else { Seq::empty() };
        let n = if line.len() < cols { line.len() } else { cols };
        grid_paints(lines, cols, r, x, y, cell_w, cell_h, theme) + Seq::new(
            n,
            |c: int| cell_paint_spec(line[c], x + c * cell_w, y + r * cell_h, theme),
        )
    }
}

fn cell_paint(cell: Cell, x: i32, y: i32, theme: &Theme) -> (p: CellPaint)
    ensures
        p == cell_paint_spec(cell, x as int, y as int, *theme),
{
    let background = match cell.style.bg {
        Some(bg) => Some(color_rgb(bg, theme.pane_background)),
        None => None,
    };
    let fg = match cell.style.fg {
        Some(fg) => fg,
        None => Color::Reset,
    };
    CellPaint {
        x,
        y,
        background,
        glyph: if cell.ch != ' ' { Some(cell.ch) } else { None },
        foreground: color_rgb(fg, theme.text),
        bold: cell.style.bold,
    }
}

/// What is drawn for each cell of a pane's grid with its corner at
/// (`x`, `y`), in drawing order.
pub fn terminal_paints(
    lines: &Vec<Vec<Cell>>,
    cols: u16,
    rows: u16,
    x: i32,
    y: i32,
    cell_w: u32,
    cell_h: u32,
    theme: &Theme,
) -> (r: Vec<CellPaint>)
    requires
        (cols as nat) * (cell_w as nat) <= i32::MAX,
        (rows as nat) * (cell_h as nat) <= i32::MAX,
        x + (cols as nat) * (cell_w as nat) <= i32::MAX,
        y + (rows as nat) * (cell_h as nat) <= i32::MAX,
    ensures
        r@ == grid_paints(
            crate::buffer::lines_view(lines@),
            cols as nat,
            rows as nat,
            x as int,
            y as int,
            cell_w as nat,
            cell_h as nat,
            *theme,
        ),
{
    let ghost lv = crate::buffer::lines_view(lines@);
    let mut out: Vec<CellPaint> = Vec::new();
    let mut row: u16 = 0;
    while row < rows
        invariant
            row <= rows,
            lv == crate::buffer::lines_view(lines@),
            (cols as nat) * (cell_w as nat) <= i32::MAX,
            (rows as nat) * (cell_h as nat) <= i32::MAX,
            x + (cols as nat) * (cell_w as nat) <= i32::MAX,
            y + (rows as nat) * (cell_h as nat) <= i32::MAX,
            out@ == grid_paints(lv, cols as nat, row as nat, x as int, y as int, cell_w as nat, cell_h as nat, *theme),
        decreases rows - row,
    {
        let ghost before = out@;
        let ghost line_v = if (row as int) < lv.len() { lv[row as int] } else { Seq::<Cell>::empty() };
        let ghost n = if line_v.len() < cols { line_v.len() } else { cols as nat };
        proof {
            assert((row as nat) * (cell_h as nat) <= (rows as nat) * (cell_h as nat)) by (nonlinear_arith)
                requires
                    row < rows,
            ;
        }
        let dy: u32 = row as u32 * cell_h;
        let cy = y + dy as i32;
        if (row as usize) < lines.len() {
            let line = &lines[row as usize];
            let mut col: u16 = 0;
            while col < cols && (col as usize) < line.len()
                invariant
                    col <= cols,
                    col <= line@.len(),
                    line@ == line_v,
                    n == (if line_v.len() < cols { line_v.len() } else { cols as nat }),
                    cy == y + row * cell_h,
                    (cols as nat) * (cell_w as nat) <= i32::MAX,
                    x + (cols as nat) * (cell_w as nat) <= i32::MAX,
                    out@ == before + Seq::new(
                        col as nat,
                        |c: int| cell_paint_spec(line_v[c], x + c * cell_w, y + row * cell_h, *theme),
                    ),
                decreases cols - col,
            {
                proof {
                    assert((col as nat) * (cell_w as nat) <= (cols as nat) * (cell_w as nat)) by (nonlinear_arith)
                        requires
                            col < cols,
                    ;
                }
                let dx: u32 = col as u32 * cell_w;
                let cx = x + dx as i32;
                let ghost prev = out@;
                out.push(cell_paint(line[col as usize], cx, cy, theme));
                proof {
                    assert(out@ =~= before + Seq::new(
                        (col + 1) as nat,
                        |c: int| cell_paint_spec(line_v[c], x + c * cell_w, y + row * cell_h, *theme),
                    ));
                }
                col = col + 1;
            }
            assert(col == n);
        } else {
            assert(n == 0);
            assert(out@ =~= before + Seq::new(
                0,
                |c: int| cell_paint_spec(line_v[c], x + c * cell_w, y + row * cell_h, *theme),
            ));
        }
        row = row + 1;
    }
    out
}

/// Redraw after new output when the active pane, or any pane, is showing
/// its newest output.
pub open spec fn redraw_on_output_spec(scroll_offsets: Seq<usize>, active: int) -> bool {
    (0 <= active < scroll_offsets.len() && scroll_offsets[active] == 0) || exists|i: int|
        0 <= i < scroll_offsets.len() && scroll_offsets[i] == 0
}

pub fn redraw_on_output(scroll_offsets: &Vec<usize>, active: usize) -> (r: bool)
    ensures
        r == redraw_on_output_spec(scroll_offsets@, active as int),
{
    if active < scroll_offsets.len() && scroll_offsets[active] == 0 {
        return true;
    }
    let mut i: usize = 0;
    while i < scroll_offsets.len()
        invariant
            i <= scroll_offsets@.len(),
            forall|k: int| 0 <= k < i ==> scroll_offsets@[k] != 0,
        decreases scroll_offsets@.len() - i,
    {
        if scroll_offsets[i] == 0 {
            return true;
        }
        i = i + 1;
    }
    false
}

/// New output is redrawn exactly when some pane shows its newest output:
/// whether the active one does adds nothing.
pub proof fn redraw_when_any_pane_unscrolled(scroll_offsets: Seq<usize>, active: int)
    ensures
        redraw_on_output_spec(scroll_offsets, active) == exists|i: int|
            0 <= i < scroll_offsets.len() && scroll_offsets[i] == 0,
{
}

} // verus!
