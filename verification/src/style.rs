//! Colours and text attributes of terminal cells.
use vstd::prelude::*;

verus! {

/// A terminal colour: the sixteen named colours, a 24-bit colour, an entry of
/// the 256-colour palette, or `Reset` for "the renderer's default".
#[derive(Clone, Copy, Debug, PartialEq, Eq, Structural)]
pub enum Color {
    Reset,
    Black,
    Red,
    Green,
    Yellow,
    Blue,
    Magenta,
    Cyan,
    Gray,
    DarkGray,
    LightRed,
    LightGreen,
    LightYellow,
    LightBlue,
    LightMagenta,
    LightCyan,
    White,
    Rgb(u8, u8, u8),
    Indexed(u8),
}

/// The attributes a cell is drawn with: an optional foreground and background
/// colour, and whether the glyph is drawn bold.
#[derive(Clone, Copy, Debug, PartialEq, Eq, Structural)]
pub struct Style {
    pub fg: Option<Color>,
    pub bg: Option<Color>,
    pub bold: bool,
}

/// The style that leaves everything to the renderer.
pub open spec fn plain_style() -> Style {
    Style { fg: None, bg: None, bold: false }
}

impl Style {
    pub fn plain() -> (s: Style)
        ensures
            s == plain_style(),
    {
        Style { fg: None, bg: None, bold: false }
    }

    /// This style with its foreground set to `color`.
    pub fn with_fg(self, color: Color) -> (s: Style)
        ensures
            s == (Style { fg: Some(color), ..self }),
    {
        Style { fg: Some(color), ..self }
    }

    /// This style with its background set to `color`.
    pub fn with_bg(self, color: Color) -> (s: Style)
        ensures
            s == (Style { bg: Some(color), ..self }),
    {
        Style { bg: Some(color), ..self }
    }

    /// This style, drawn bold.
    pub fn with_bold(self) -> (s: Style)
        ensures
            s == (Style { bold: true, ..self }),
    {
        Style { bold: true, ..self }
    }
}

impl Default for Style {
    fn default() -> (s: Style)
        ensures
            s == plain_style(),
    {
        Style::plain()
    }
}

/// The colour an SGR colour code selects: `value` is the code's offset from
/// its base (30, 40, 90 or 100), `bright` whether the base was 90 or 100.
pub open spec fn ansi_color_spec(value: u16, bright: bool) -> Color {
    if !bright {
        if value == 0 {
            Color::Black
        } else if value == 1 {
            Color::Red
        } else if value == 2 {
            Color::Green
        } else if value == 3 {
            Color::Yellow
        } else if value == 4 {
            Color::Blue
        } else if value == 5 {
            Color::Magenta
        } else if value == 6 {
            Color::Cyan
        } else if value == 7 {
            Color::Gray
        } else {
            Color::White
        }
    } else {
        if value == 0 {
            Color::DarkGray
        } else if value == 1 {
            Color::LightRed
        } else if value == 2 {
            Color::LightGreen
        } else if value == 3 {
            Color::LightYellow
        } else if value == 4 {
            Color::LightBlue
        } else if value == 5 {
            Color::LightMagenta
        } else if value == 6 {
            Color::LightCyan
        } else {
            Color::White
        }
    }
}

pub fn ansi_color(value: u16, bright: bool) -> (c: Color)
    ensures
        c == ansi_color_spec(value, bright),
{
    match (value, bright) {
        (0, false) => Color::Black,
        (1, false) => Color::Red,
        (2, false) => Color::Green,
        (3, false) => Color::Yellow,
        (4, false) => Color::Blue,
        (5, false) => Color::Magenta,
        (6, false) => Color::Cyan,
        (7, false) => Color::Gray,
        (0, true) => Color::DarkGray,
        (1, true) => Color::LightRed,
        (2, true) => Color::LightGreen,
        (3, true) => Color::LightYellow,
        (4, true) => Color::LightBlue,
        (5, true) => Color::LightMagenta,
        (6, true) => Color::LightCyan,
        _ => Color::White,
    }
}

/// A 24-bit colour `0xRRGGBB` from its channels.
pub open spec fn rgb(r: nat, g: nat, b: nat) -> nat {
    r * 65536 + g * 256 + b
}

proof fn lemma_pack(r: u32, g: u32, b: u32)
    requires
        r < 256 && g < 256 && b < 256,
    ensures
        (r << 16u32) | (g << 8u32) | b == r * 65536 + g * 256 + b,
{
    assert((r << 16u32) | (g << 8u32) | b == r * 65536 + g * 256 + b) by (bit_vector)
        requires
            r < 256 && g < 256 && b < 256,
    ;
}

/// The sixteen named colours of the palette, in the order of their indices.
pub open spec fn base_color_spec(idx: nat) -> nat {
    if idx == 0 {
        0x000000
    } else if idx == 1 {
        0xcd3131
    } else if idx == 2 {
        0x0dbc79
    } else if idx == 3 {
        0xe5e510
    } else if idx == 4 {
        0x2472c8
    } else if idx == 5 {
        0xbc3fbc
    } else if idx == 6 {
        0x11a8cd
    } else if idx == 7 {
        0xe5e5e5
    } else if idx == 8 {
        0x666666
    } else if idx == 9 {
        0xf14c4c
    } else if idx == 10 {
        0x23d18b
    } else if idx == 11 {
        0xf5f543
    } else if idx == 12 {
        0x3b8eea
    } else if idx == 13 {
        0xd670d6
    } else if idx == 14 {
        0x29b8db
    } else {
        0xffffff
    }
}

/// The level of a channel of the 6x6x6 colour cube.
pub open spec fn cube_level(v: nat) -> nat {
    if v == 0 { 0 } else { 55 + v * 40 }
}

/// The 256-colour palette: the named colours, the colour cube, then 24
/// greys (indices past the last grey continue the ramp).
pub open spec fn indexed_color_spec(idx: u8) -> nat {
    if idx < 16 {
        base_color_spec(idx as nat)
    } else if idx <= 231 {
        let i = (idx - 16) as nat;
        rgb(cube_level(i / 36), cube_level((i % 36) / 6), cube_level(i % 6))
    } else {
        let gray = 8 + (idx - 232) * 10;
        rgb(gray as nat, gray as nat, gray as nat)
    }
}

/// The pixel value a colour is drawn with; `Reset` draws as `fallback`.
pub open spec fn color_rgb_spec(color: Color, fallback: u32) -> nat {
    match color {
        Color::Reset => fallback as nat,
        Color::Black => base_color_spec(0),
        Color::Red => base_color_spec(1),
        Color::Green => base_color_spec(2),
        Color::Yellow => base_color_spec(3),
        Color::Blue => base_color_spec(4),
        Color::Magenta => base_color_spec(5),
        Color::Cyan => base_color_spec(6),
        Color::Gray => base_color_spec(7),
        Color::DarkGray => base_color_spec(8),
        Color::LightRed => base_color_spec(9),
        Color::LightGreen => base_color_spec(10),
        Color::LightYellow => base_color_spec(11),
        Color::LightBlue => base_color_spec(12),
        Color::LightMagenta => base_color_spec(13),
        Color::LightCyan => base_color_spec(14),
        Color::White => base_color_spec(15),
        Color::Rgb(r, g, b) => rgb(r as nat, g as nat, b as nat),
        Color::Indexed(idx) => indexed_color_spec(idx),
    }
}

fn base_color(idx: u8) -> (c: u32)
    requires
        idx < 16,
    ensures
        c == base_color_spec(idx as nat),
{
    match idx {
        0 => 0x000000,
        1 => 0xcd3131,
        2 => 0x0dbc79,
        3 => 0xe5e510,
        4 => 0x2472c8,
        5 => 0xbc3fbc,
        6 => 0x11a8cd,
        7 => 0xe5e5e5,
        8 => 0x666666,
        9 => 0xf14c4c,
        10 => 0x23d18b,
        11 => 0xf5f543,
        12 => 0x3b8eea,
        13 => 0xd670d6,
        14 => 0x29b8db,
        _ => 0xffffff,
    }
}

fn cube(v: u8) -> (c: u32)
    requires
        v < 6,
    ensures
        c == cube_level(v as nat),
        c < 256,
{
    if v == 0 {
        0
    } else {
        55 + v as u32 * 40
    }
}

pub fn indexed_color(idx: u8) -> (c: u32)
    ensures
        c == indexed_color_spec(idx),
{
    if idx < 16 {
        return base_color(idx);
    }
    if 16 <= idx && idx <= 231 {
        let i = idx - 16;
        let r = i / 36;
        let g = (i % 36) / 6;
        let b = i % 6;
        let (cr, cg, cb) = (cube(r), cube(g), cube(b));
        proof {
            lemma_pack(cr, cg, cb);
        }
        return (cr << 16) | (cg << 8) | cb;
    }
    let gray: u32 = 8 + (idx.saturating_sub(232) as u32 * 10);
    proof {
        lemma_pack(gray, gray, gray);
    }
    (gray << 16) | (gray << 8) | gray
}

/// The pixel value of a colour, as the window draws it.
pub fn color_rgb(color: Color, fallback: u32) -> (c: u32)
    ensures
        c == color_rgb_spec(color, fallback),
{
    match color {
        Color::Reset => fallback,
        Color::Black => base_color(0),
        Color::Red => base_color(1),
        Color::Green => base_color(2),
        Color::Yellow => base_color(3),
        Color::Blue => base_color(4),
        Color::Magenta => base_color(5),
        Color::Cyan => base_color(6),
        Color::Gray => base_color(7),
        Color::DarkGray => base_color(8),
        Color::LightRed => base_color(9),
        Color::LightGreen => base_color(10),
        Color::LightYellow => base_color(11),
        Color::LightBlue => base_color(12),
        Color::LightMagenta => base_color(13),
        Color::LightCyan => base_color(14),
        Color::White => base_color(15),
        Color::Rgb(r, g, b) => {
            proof {
                lemma_pack(r as u32, g as u32, b as u32);
            }
            ((r as u32) << 16) | ((g as u32) << 8) | b as u32
        },
        Color::Indexed(idx) => indexed_color(idx),
    }
}

/// The named colours are the first sixteen entries of the palette, and an
/// indexed colour draws as its palette entry.
pub proof fn palette_extends_named_colors(idx: u8, fallback: u32)
    ensures
        idx < 16 ==> indexed_color_spec(idx) == base_color_spec(idx as nat),
        color_rgb_spec(Color::Indexed(idx), fallback) == indexed_color_spec(idx),
        color_rgb_spec(Color::Reset, fallback) == fallback,
        indexed_color_spec(16) == 0 && indexed_color_spec(231) == 0xffffff,
{
    assert(rgb(cube_level(5), cube_level(5), cube_level(5)) == 0xffffff);
}

/// Each named colour draws as its own entry of the palette, whatever the
/// fallback: black, red, green, yellow, blue, magenta, cyan, grey, dark
/// grey, light red, light green, light yellow, light blue, light magenta,
/// light cyan and white are entries 0 to 15, and those entries are the
/// colours 0x000000, 0xcd3131, 0x0dbc79, 0xe5e510, 0x2472c8, 0xbc3fbc,
/// 0x11a8cd, 0xe5e5e5, 0x666666, 0xf14c4c, 0x23d18b, 0xf5f543, 0x3b8eea,
/// 0xd670d6, 0x29b8db and 0xffffff.
pub proof fn named_colors_are_palette_entries(fallback: u32)
    ensures
        forall|k: int|
            #![trigger indexed_color_spec(k as u8)]
            0 <= k < 16 ==> {
                let named = seq![
                    Color::Black,
                    Color::Red,
                    Color::Green,
                    Color::Yellow,
                    Color::Blue,
                    Color::Magenta,
                    Color::Cyan,
                    Color::Gray,
                    Color::DarkGray,
                    Color::LightRed,
                    Color::LightGreen,
                    Color::LightYellow,
                    Color::LightBlue,
                    Color::LightMagenta,
                    Color::LightCyan,
                    Color::White,
                ];
                let rgb_values: Seq<nat> = seq![
                    0x000000nat,
                    0xcd3131nat,
                    0x0dbc79nat,
                    0xe5e510nat,
                    0x2472c8nat,
                    0xbc3fbcnat,
                    0x11a8cdnat,
                    0xe5e5e5nat,
                    0x666666nat,
                    0xf14c4cnat,
                    0x23d18bnat,
                    0xf5f543nat,
                    0x3b8eeanat,
                    0xd670d6nat,
                    0x29b8dbnat,
                    0xffffffnat,
                ];
                &&& color_rgb_spec(named[k], fallback) == indexed_color_spec(k as u8)
                &&& indexed_color_spec(k as u8) == rgb_values[k]
            },
{
}

/// The colour codes' colours, normal (`bright` false) or bright, are the
/// palette's first eight entries and its next eight, in order.
pub proof fn ansi_colors_are_palette_order(k: u16, bright: bool, fallback: u32)
    requires
        k < 8,
    ensures
        color_rgb_spec(ansi_color_spec(k, bright), fallback) == indexed_color_spec(
            (if bright { k + 8 } else { k as int }) as u8,
        ),
{
}

/// Past the named colours the palette is a 6 x 6 x 6 cube, entry
/// 16 + 36 r + 6 g + b having the channel levels 0, 95, 135, 175, 215 and
/// 255 picked by r, g and b, then a ramp of 24 greys from 0x080808 to
/// 0xeeeeee in steps of 0x0a0a0a.
pub proof fn palette_cube_and_greys(r: nat, g: nat, b: nat, i: nat)
    requires
        r < 6 && g < 6 && b < 6,
        i < 24,
    ensures
        ({
            let level: Seq<nat> = seq![0nat, 95nat, 135nat, 175nat, 215nat, 255nat];
            indexed_color_spec((16 + 36 * r + 6 * g + b) as u8) == level[r as int] * 65536 + level[g as int]
                * 256 + level[b as int]
        }),
        indexed_color_spec((232 + i) as u8) == (8 + 10 * i) * 0x010101,
{
    let x = 36 * r + 6 * g + b;
    vstd::arithmetic::div_mod::lemma_fundamental_div_mod_converse(x as int, 36, r as int, (6 * g + b) as int);
    vstd::arithmetic::div_mod::lemma_fundamental_div_mod_converse((6 * g + b) as int, 6, g as int, b as int);
    vstd::arithmetic::div_mod::lemma_fundamental_div_mod_converse(x as int, 6, (6 * r + g) as int, b as int);
}

} // verus!
