//! The window's drawing arithmetic: colours of the theme, blending glyphs
//! into pixels, filling rectangles, and truncating titles.
use vstd::prelude::*;
use crate::layout::ThemeConfig;
use crate::text::{chars_of, trim, trim_spec};

verus! {

// ---------------------------------------------------------------------------
// Theme colours

/// The value of an ASCII hexadecimal digit, of either case.
pub open spec fn hex_value(c: char) -> Option<nat> {
    if '0' <= c && c <= '9' {
        Some(((c as nat) - ('0' as nat)) as nat)
    } else if 'a' <= c && c <= 'f' {
        Some(((c as nat) - ('a' as nat) + 10) as nat)
    } else if 'A' <= c && c <= 'F' {
        Some(((c as nat) - ('A' as nat) + 10) as nat)
    } else {
        None
    }
}

/// The number the hexadecimal digits spell, if all of them are digits.
pub open spec fn hex_number(s: Seq<char>) -> Option<nat>
    decreases s.len(),
{
    if s.len() == 0 {
        Some(0)
    } else {
        match (hex_number(s.drop_last()), hex_value(s.last())) {
            (Some(high), Some(low)) => Some(high * 16 + low),
            _ => None,
        }
    }
}

/// `s` without the `#` characters it starts with.
pub open spec fn strip_hashes(s: Seq<char>) -> Seq<char>
    decreases s.len(),
{
    if s.len() > 0 && s[0] == '#' {
        strip_hashes(s.drop_first())
    } else {
        s
    }
}

/// A colour written `#rrggbb`: trimmed, without leading `#`s, six bytes long
/// and a hexadecimal number (a leading `+` is allowed, as `u32::from_str_radix`
/// allows it).
pub open spec fn parse_hex_spec(value: Seq<char>) -> Option<nat> {
    let v = strip_hashes(trim_spec(value));
    if v.len() == 6 && hex_number(v) is Some {
        hex_number(v)
    } else if v.len() == 6 && v[0] == '+' && hex_number(v.drop_first()) is Some {
        hex_number(v.drop_first())
    } else {
        None
    }
}

proof fn lemma_hex_number_bound(s: Seq<char>)
    requires
        hex_number(s) is Some,
    ensures
        hex_number(s)->0 < pow16(s.len()),
    decreases s.len(),
{
    if s.len() > 0 {
        lemma_hex_number_bound(s.drop_last());
        let high = hex_number(s.drop_last())->0;
        let low = hex_value(s.last())->0;
        assert(high * 16 + low < pow16(s.len())) by (nonlinear_arith)
            requires
                high < pow16((s.len() - 1) as nat),
                low < 16,
                pow16(s.len()) == pow16((s.len() - 1) as nat) * 16,
        ;
    }
}

pub open spec fn pow16(n: nat) -> nat
    decreases n,
{
    if n == 0 { 1 } else { pow16((n - 1) as nat) * 16 }
}

fn hex_digit(c: char) -> (r: Option<u32>)
    ensures
        match r {
            Some(v) => hex_value(c) == Some(v as nat) && v < 16,
            None => hex_value(c) is None,
        },
{
    if '0' <= c && c <= '9' {
        Some((c as u32) - ('0' as u32))
    } else if 'a' <= c && c <= 'f' {
        Some((c as u32) - ('a' as u32) + 10)
    } else if 'A' <= c && c <= 'F' {
        Some((c as u32) - ('A' as u32) + 10)
    } else {
        None
    }
}

fn hex_of(digits: &Vec<char>, start: usize) -> (r: Option<u32>)
    requires
        start <= digits@.len(),
        digits@.len() - start <= 6,
    ensures
        match r {
            Some(v) => hex_number(digits@.skip(start as int)) == Some(v as nat),
            None => hex_number(digits@.skip(start as int)) is None,
        },
{
    let mut value: u32 = 0;
    let mut i = start;
    assert(digits@.skip(start as int).take(0) =~= Seq::<char>::empty());
    while i < digits.len()
        invariant
            start <= i <= digits@.len(),
            digits@.len() - start <= 6,
            hex_number(digits@.skip(start as int).take(i - start)) == Some(value as nat),
            value < pow16((i - start) as nat),
        decreases digits@.len() - i,
    {
        let ghost prefix = digits@.skip(start as int).take(i + 1 - start);
        assert(prefix.drop_last() =~= digits@.skip(start as int).take(i - start));
        assert(prefix.last() == digits@[i as int]);
        match hex_digit(digits[i]) {
            Some(d) => {
                proof {
                    assert(pow16((i - start) as nat) <= pow16(5)) by {
                        lemma_pow16_mono((i - start) as nat, 5);
                    }
                    assert(pow16(5) == 1048576) by { reveal_with_fuel(pow16, 6); }
                    assert(value * 16 + d < pow16((i + 1 - start) as nat)) by (nonlinear_arith)
                        requires
                            value < pow16((i - start) as nat),
                            d < 16,
                            pow16((i + 1 - start) as nat) == pow16((i - start) as nat) * 16,
                    ;
                }
                value = value * 16 + d;
            },
            None => {
                proof {
                    lemma_hex_none_extends(digits@.skip(start as int), (i + 1 - start) as int);
                }
                return None;
            },
        }
        i = i + 1;
    }
    assert(digits@.skip(start as int).take(digits@.len() - start) =~= digits@.skip(start as int));
    Some(value)
}

proof fn lemma_pow16_mono(a: nat, b: nat)
    requires
        a <= b,
    ensures
        pow16(a) <= pow16(b),
    decreases b,
{
    if a < b {
        lemma_pow16_mono(a, (b - 1) as nat);
    }
}

/// A digit that is not hexadecimal spoils every longer prefix.
proof fn lemma_hex_none_extends(s: Seq<char>, n: int)
    requires
        0 < n <= s.len(),
        hex_number(s.take(n)) is None,
    ensures
        hex_number(s) is None,
    decreases s.len() - n,
{
    if n < s.len() {
        assert(s.take(n + 1).drop_last() =~= s.take(n));
        lemma_hex_none_extends(s, n + 1);
    } else {
        assert(s.take(n) =~= s);
    }
}

fn strip_leading_hashes(chars: &Vec<char>) -> (start: usize)
    ensures
        start <= chars@.len(),
        chars@.skip(start as int) == strip_hashes(chars@),
{
    let mut i: usize = 0;
    assert(chars@.skip(0) =~= chars@);
    while i < chars.len() && chars[i] == '#'
        invariant
            i <= chars@.len(),
            strip_hashes(chars@.skip(i as int)) == strip_hashes(chars@),
        decreases chars@.len() - i,
    {
        assert(chars@.skip(i as int).drop_first() =~= chars@.skip(i + 1));
        i = i + 1;
    }
    i
}

/// The colour `value` writes as `#rrggbb`, if it is one.
pub fn parse_hex(value: Option<&str>) -> (r: Option<u32>)
    ensures
        r == (match value {
            Some(v) => match parse_hex_spec(v@) {
                Some(n) => Some(n as u32),
                None => None,
            },
            None => None,
        }),
{
    let v = match value {
        Some(v) => v,
        None => return None,
    };
    let chars = chars_of(trim(v));
    let start = strip_leading_hashes(&chars);
    let ghost stripped = chars@.skip(start as int);
    if chars.len() - start != 6 {
        return None;
    }
    match hex_of(&chars, start) {
        Some(n) => {
            proof {
                lemma_hex_number_bound(stripped);
            }
            Some(n)
        },
        None => {
            if chars[start] == '+' {
                assert(stripped.drop_first() =~= chars@.skip(start + 1));
                hex_of(&chars, start + 1)
            } else {
                None
            }
        },
    }
}

/// The colours the window is drawn with, as `0xRRGGBB`.
#[derive(Clone, Copy, Debug, PartialEq, Eq, Structural)]
pub struct Theme {
    pub background: u32,
    pub pane_background: u32,
    pub title_background: u32,
    pub title_active_background: u32,
    pub border: u32,
    pub border_active: u32,
    pub text: u32,
    pub dim_text: u32,
}

/// A configured colour, or the default when it is unset or not `#rrggbb`.
pub open spec fn theme_color(value: Option<String>, default: u32) -> u32 {
    match value {
        Some(v) => match parse_hex_spec(v@) {
            Some(n) => n as u32,
            None => default,
        },
        None => default,
    }
}

fn configured(value: &Option<String>, default: u32) -> (c: u32)
    ensures
        c == theme_color(*value, default),
{
    let r = match value {
        Some(v) => parse_hex(Some(v.as_str())),
        None => parse_hex(None),
    };
    match r {
        Some(c) => c,
        None => default,
    }
}

impl Theme {
    pub fn from_config(config: &ThemeConfig) -> (t: Theme)
        ensures
            t.background == theme_color(config.background, 0x101010),
            t.pane_background == theme_color(config.pane_background, 0x111111),
            t.title_background == theme_color(config.title_background, 0x202020),
            t.title_active_background == theme_color(config.title_active_background, 0x263b2b),
            t.border == theme_color(config.border, 0x5a5a5a),
            t.border_active == theme_color(config.border_active, 0x4ec36b),
            t.text == theme_color(config.text, 0xe8e8e8),
            t.dim_text == theme_color(config.dim_text, 0xa8a8a8),
    {
        Theme {
            background: configured(&config.background, 0x101010),
            pane_background: configured(&config.pane_background, 0x111111),
            title_background: configured(&config.title_background, 0x202020),
            title_active_background: configured(&config.title_active_background, 0x263b2b),
            border: configured(&config.border, 0x5a5a5a),
            border_active: configured(&config.border_active, 0x4ec36b),
            text: configured(&config.text, 0xe8e8e8),
            dim_text: configured(&config.dim_text, 0xa8a8a8),
        }
    }
}

// ---------------------------------------------------------------------------
// Pixels

/// Channel `k` (0 blue, 1 green, 2 red) of a pixel `0xRRGGBB`.
pub open spec fn channel(pixel: u32, k: nat) -> nat {
    ((pixel as nat) / (if k == 0 { 1nat } else if k == 1 { 256nat } else { 65536nat })) % 256
}

pub open spec fn sat(v: int) -> nat {
    if v < 0 { 0 } else { v as nat }
}

/// A channel of `src` laid over one of `dst` with coverage `alpha` (out of 255).
pub open spec fn mix(s: nat, d: nat, alpha: nat) -> nat {
    ((s * alpha + d * sat(255 - alpha)) / 255) as nat
}

/// `src` blended over `dst` with coverage `alpha`, channel by channel.
pub open spec fn blend_spec(dst: u32, src: u32, alpha: u8) -> nat {
    mix(channel(src, 2), channel(dst, 2), alpha as nat) * 65536 + mix(
        channel(src, 1),
        channel(dst, 1),
        alpha as nat,
    ) * 256 + mix(channel(src, 0), channel(dst, 0), alpha as nat)
}

proof fn lemma_channels(x: u32)
    ensures
        (x >> 16u32) & 0xffu32 == channel(x, 2),
        (x >> 8u32) & 0xffu32 == channel(x, 1),
        x & 0xffu32 == channel(x, 0),
{
    assert((x >> 16u32) & 0xffu32 == (x / 65536) % 256) by (bit_vector);
    assert((x >> 8u32) & 0xffu32 == (x / 256) % 256) by (bit_vector);
    assert(x & 0xffu32 == x % 256) by (bit_vector);
}

proof fn lemma_pack3(r: u32, g: u32, b: u32)
    requires
        r < 256 && g < 256 && b < 256,
    ensures
        (r << 16u32) | (g << 8u32) | b == r * 65536 + g * 256 + b,
{
    assert((r << 16u32) | (g << 8u32) | b == r * 65536 + g * 256 + b) by (bit_vector)
        requires
            r < 256 && g < 256 && b < 256,
    ;
}

proof fn lemma_mix_bound(s: nat, d: nat, a: nat)
    requires
        s < 256,
        d < 256,
        a <= 255,
    ensures
        s * a + d * sat(255 - a) <= 65025,
        mix(s, d, a) < 256,
{
    assert(s * a + d * (255 - a) <= 255 * a + 255 * (255 - a)) by (nonlinear_arith)
        requires
            s < 256,
            d < 256,
            a <= 255,
    ;
}

fn mix_channel(s: u32, d: u32, a: u32) -> (m: u32)
    requires
        s < 256,
        d < 256,
        a <= 255,
    ensures
        m == mix(s as nat, d as nat, a as nat),
        m < 256,
{
    proof {
        lemma_mix_bound(s as nat, d as nat, a as nat);
    }
    (s * a + d * (255 - a)) / 255
}

/// `src` laid over `dst` with coverage `alpha`.
pub fn blend(dst: u32, src: u32, alpha: u8) -> (p: u32)
    ensures
        p == blend_spec(dst, src, alpha),
{
    let a = alpha as u32;
    let sr = (src >> 16) & 0xff;
    let sg = (src >> 8) & 0xff;
    let sb = src & 0xff;
    let dr = (dst >> 16) & 0xff;
    let dg = (dst >> 8) & 0xff;
    let db = dst & 0xff;
    proof {
        lemma_channels(src);
        lemma_channels(dst);
    }
    let r = mix_channel(sr, dr, a);
    let g = mix_channel(sg, dg, a);
    let b = mix_channel(sb, db, a);
    proof {
        lemma_pack3(r, g, b);
    }
    (r << 16) | (g << 8) | b
}

/// Full coverage draws the source colour; no coverage keeps the pixel.
pub proof fn blend_extremes(dst: u32, src: u32)
    ensures
        blend_spec(dst, src, 255) == channel(src, 2) * 65536 + channel(src, 1) * 256 + channel(src, 0),
        blend_spec(dst, src, 0) == channel(dst, 2) * 65536 + channel(dst, 1) * 256 + channel(dst, 0),
{
    assert forall|s: nat, d: nat| s < 256 && d < 256 implies mix(s, d, 255) == s && mix(s, d, 0) == d by {
        assert(s * 255 + d * 0 == s * 255) by (nonlinear_arith);
        assert(s * 0 + d * 255 == d * 255) by (nonlinear_arith);
        assert((s * 255) / 255 == s) by (nonlinear_arith);
        assert((d * 255) / 255 == d) by (nonlinear_arith);
    }
}

proof fn lemma_mix_between(s: nat, d: nat, a: nat)
    requires
        s < 256,
        d < 256,
        a <= 255,
    ensures
        (if s < d { s } else { d }) <= mix(s, d, a) <= (if s < d { d } else { s }),
{
    let lo: nat = if s < d { s } else { d };
    let hi: nat = if s < d { d } else { s };
    let t = s * a + d * (255 - a);
    assert(lo * 255 <= t <= hi * 255) by (nonlinear_arith)
        requires
            lo <= s <= hi,
            lo <= d <= hi,
            a <= 255,
            t == s * a + d * (255 - a),
    ;
    assert(lo <= t / 255 <= hi) by (nonlinear_arith)
        requires
            lo * 255 <= t <= hi * 255,
    ;
}

proof fn lemma_unpack(r: nat, g: nat, b: nat)
    requires
        r < 256 && g < 256 && b < 256,
    ensures
        r * 65536 + g * 256 + b <= 0xffffff,
        channel((r * 65536 + g * 256 + b) as u32, 2) == r,
        channel((r * 65536 + g * 256 + b) as u32, 1) == g,
        channel((r * 65536 + g * 256 + b) as u32, 0) == b,
{
    let (ri, gi, bi) = (r as int, g as int, b as int);
    let x: int = ri * 65536 + gi * 256 + bi;
    vstd::arithmetic::div_mod::lemma_fundamental_div_mod_converse(x, 65536, ri, gi * 256 + bi);
    vstd::arithmetic::div_mod::lemma_small_mod(r, 256);
    vstd::arithmetic::div_mod::lemma_fundamental_div_mod_converse(x, 256, ri * 256 + gi, bi);
    vstd::arithmetic::div_mod::lemma_fundamental_div_mod_converse(ri * 256 + gi, 256, ri, gi);
    vstd::arithmetic::div_mod::lemma_fundamental_div_mod_converse(x, 1, x, 0);
}

/// A blend is a 24-bit colour, and each of its channels lies between the
/// same channels of the two colours.
pub proof fn blend_between(dst: u32, src: u32, alpha: u8)
    ensures
        blend_spec(dst, src, alpha) <= 0xffffff,
        forall|k: nat|
            k < 3 ==> {
                let c = #[trigger] channel(blend_spec(dst, src, alpha) as u32, k);
                &&& c == mix(channel(src, k), channel(dst, k), alpha as nat)
                &&& (channel(src, k) <= c <= channel(dst, k) || channel(dst, k) <= c <= channel(src, k))
            },
{
    assert forall|p: u32, k: nat| channel(p, k) < 256 by {}
    let r = mix(channel(src, 2), channel(dst, 2), alpha as nat);
    let g = mix(channel(src, 1), channel(dst, 1), alpha as nat);
    let b = mix(channel(src, 0), channel(dst, 0), alpha as nat);
    lemma_mix_bound(channel(src, 2), channel(dst, 2), alpha as nat);
    lemma_mix_bound(channel(src, 1), channel(dst, 1), alpha as nat);
    lemma_mix_bound(channel(src, 0), channel(dst, 0), alpha as nat);
    lemma_mix_between(channel(src, 2), channel(dst, 2), alpha as nat);
    lemma_mix_between(channel(src, 1), channel(dst, 1), alpha as nat);
    lemma_mix_between(channel(src, 0), channel(dst, 0), alpha as nat);
    lemma_unpack(r, g, b);
}

// ---------------------------------------------------------------------------
// Titles

/// The text cut to `max_chars` characters; a cut text of more than one
/// character ends in `>`.
pub open spec fn truncate_spec(value: Seq<char>, max_chars: nat) -> Seq<char> {
    if max_chars == 0 {
        Seq::empty()
    } else if value.len() > max_chars && max_chars > 1 {
        value.take(max_chars - 1).push('>')
    } else if value.len() > max_chars {
        value.take(max_chars as int)
    } else {
        value
    }
}

pub fn truncate(value: &str, max_chars: usize) -> (r: String)
    ensures
        r@ == truncate_spec(value@, max_chars as nat),
{
    if max_chars == 0 {
        return String::new();
    }
    let n = value.unicode_len();
    if n > max_chars && max_chars > 1 {
        let mut out = value.substring_char(0, max_chars - 1).to_owned();
        out.append(">");
        proof {
            reveal_strlit(">");
            assert(">"@ =~= seq!['>']);
        }
        out
    } else if n > max_chars {
        value.substring_char(0, max_chars).to_owned()
    } else {
        proof {
            assert(value@.subrange(0, n as int) =~= value@);
        }
        value.substring_char(0, n).to_owned()
    }
}

/// A truncated title is never longer than asked, and a title that fits is
/// kept whole.
pub proof fn truncate_fits(value: Seq<char>, max_chars: nat)
    ensures
        truncate_spec(value, max_chars).len() <= max_chars,
        value.len() <= max_chars ==> truncate_spec(value, max_chars) == value,
{
}

// ---------------------------------------------------------------------------
// Filling rectangles

pub open spec fn clamp_int(v: int, lo: int, hi: int) -> int {
    if v < lo { lo } else if v > hi { hi } else { v }
}

pub open spec fn max_int(a: int, b: int) -> int {
    if a > b { a } else { b }
}

/// Whether pixel `i` of a `width` x `height` surface lies in the part of
/// the rectangle at (`x`, `y`) of size `w` x `h` that is on the surface.
pub open spec fn in_rect(i: int, width: nat, height: nat, x: int, y: int, w: nat, h: nat) -> bool {
    &&& width > 0
    &&& 0 <= i < width * height
    &&& max_int(x, 0) <= i % (width as int) < clamp_int(x + w, 0, width as int)
    &&& max_int(y, 0) <= i / (width as int) < clamp_int(y + h, 0, height as int)
}

/// The surface with the rectangle filled with `color`.
pub open spec fn fill_spec(
    pixels: Seq<u32>,
    width: nat,
    height: nat,
    x: int,
    y: int,
    w: nat,
    h: nat,
    color: u32,
) -> Seq<u32> {
    Seq::new(
        pixels.len(),
        |i: int| if in_rect(i, width, height, x, y, w, h) { color } else { pixels[i] },
    )
}

/// The rectangle can be filled: the numbers fit `i32`, the surface holds
/// `width * height` pixels, and the rectangle does not start right of the
/// surface in a row it covers (where slicing a row would fail).
pub open spec fn fill_ok(len: nat, width: u32, height: u32, x: i32, y: i32, w: u32, h: u32) -> bool {
    &&& width <= i32::MAX && height <= i32::MAX
    &&& w <= i32::MAX && h <= i32::MAX
    &&& x + w <= i32::MAX && y + h <= i32::MAX
    &&& (width as nat) * (height as nat) <= len
    &&& (max_int(y as int, 0) < clamp_int(y + h, 0, height as int) ==> max_int(x as int, 0)
        <= clamp_int(x + w, 0, width as int))
}

proof fn lemma_cell_index(py: int, px: int, width: int, height: int)
    requires
        0 <= py < height,
        0 <= px < width,
    ensures
        (py * width + px) / width == py,
        (py * width + px) % width == px,
        0 <= py * width + px < width * height,
{
    vstd::arithmetic::div_mod::lemma_fundamental_div_mod_converse(py * width + px, width, py, px);
    assert(py * width + px < width * height) by (nonlinear_arith)
        requires
            0 <= py < height,
            0 <= px < width,
    ;
    assert(0 <= py * width) by (nonlinear_arith)
        requires
            0 <= py,
            0 <= width,
    ;
}

proof fn lemma_index_cell(i: int, width: int, height: int)
    requires
        width > 0,
        0 <= i < width * height,
    ensures
        0 <= i / width < height,
        0 <= i % width < width,
{
    vstd::arithmetic::div_mod::lemma_fundamental_div_mod(i, width);
    assert(0 <= i % width < width) by {
        vstd::arithmetic::div_mod::lemma_mod_bound(i, width);
    }
    assert(0 <= i / width < height) by (nonlinear_arith)
        requires
            width > 0,
            0 <= i < width * height,
            i == width * (i / width) + (i % width),
            0 <= i % width < width,
    ;
}

proof fn lemma_same_cell(i: int, j: int, width: int)
    requires
        width > 0,
        i / width == j / width,
        i % width == j % width,
    ensures
        i == j,
{
    vstd::arithmetic::div_mod::lemma_fundamental_div_mod(i, width);
    vstd::arithmetic::div_mod::lemma_fundamental_div_mod(j, width);
}

/// Fills the part of the rectangle at (`x`, `y`) of size `w` x `h` that lies
/// on the `width` x `height` surface with `color`.
pub fn draw_rect(
    pixels: &mut [u32],
    width: u32,
    height: u32,
    x: i32,
    y: i32,
    w: u32,
    h: u32,
    color: u32,
)
    requires
        fill_ok(old(pixels)@.len(), width, height, x, y, w, h),
    ensures
        final(pixels)@ == fill_spec(
            old(pixels)@,
            width as nat,
            height as nat,
            x as int,
            y as int,
            w as nat,
            h as nat,
            color,
        ),
{
    let ghost old_pixels = pixels@;
    let ghost wi = width as int;
    let ghost hi = height as int;
    let x0: u32 = if x > 0 { x as u32 } else { 0 };
    let y0: u32 = if y > 0 { y as u32 } else { 0 };
    let xe: i32 = x + w as i32;
    let ye: i32 = y + h as i32;
    let x1: u32 = if xe < 0 { 0 } else if xe > width as i32 { width } else { xe as u32 };
    let y1: u32 = if ye < 0 { 0 } else if ye > height as i32 { height } else { ye as u32 };
    let ghost target = fill_spec(
        old_pixels,
        width as nat,
        height as nat,
        x as int,
        y as int,
        w as nat,
        h as nat,
        color,
    );
    let n = pixels.len();
    let mut py = y0;
    if y0 >= y1 {
        assert(pixels@ =~= target);
        return;
    }
    while py < y1
        invariant
            wi == width as int,
            hi == height as int,
            old_pixels.len() == n,
            y0 <= py <= y1 <= height,
            x0 <= x1 <= width,
            pixels@.len() == old_pixels.len(),
            (width as nat) * (height as nat) <= old_pixels.len(),
            x0 == max_int(x as int, 0),
            y0 == max_int(y as int, 0),
            x1 == clamp_int(x + w, 0, width as int),
            y1 == clamp_int(y + h, 0, height as int),
            forall|i: int|
                0 <= i < pixels@.len() ==> #[trigger] pixels@[i] == if width > 0 && 0 <= i < wi * hi
                    && x0 <= i % wi < x1 && y0 <= i / wi < py {
                    color
                } else {
                    old_pixels[i]
                },
        decreases y1 - py,
    {
        proof {
            assert((py as int) * wi <= wi * hi) by (nonlinear_arith)
                requires
                    0 <= py < hi,
                    0 <= wi,
            ;
        }
        let row: usize = py as usize * width as usize;
        let mut px = x0;
        while px < x1
            invariant
                wi == width as int,
                hi == height as int,
                old_pixels.len() == n,
                y0 <= py < y1 <= height,
                x0 <= px <= x1 <= width,
                row == py * width,
                pixels@.len() == old_pixels.len(),
                (width as nat) * (height as nat) <= old_pixels.len(),
                forall|i: int|
                    0 <= i < pixels@.len() ==> #[trigger] pixels@[i] == if width > 0 && 0 <= i < wi
                        * hi && ((x0 <= i % wi < x1 && y0 <= i / wi < py) || (i / wi == py && x0
                        <= i % wi < px)) {
                        color
                    } else {
                        old_pixels[i]
                    },
            decreases x1 - px,
        {
            proof {
                lemma_cell_index(py as int, px as int, wi, hi);
            }
            let j = row + px as usize;
            let ghost before = pixels@;
            pixels[j] = color;
            proof {
                assert forall|i: int| 0 <= i < pixels@.len() implies #[trigger] pixels@[i] == if width
                    > 0 && 0 <= i < wi * hi && ((x0 <= i % wi < x1 && y0 <= i / wi < py) || (i / wi
                    == py && x0 <= i % wi < px + 1)) {
                    color
                } else {
                    old_pixels[i]
                } by {
                    if i != j {
                        assert(before[i] == pixels@[i]);
                        if i / wi == py && i % wi == px {
                            lemma_same_cell(i, j as int, wi);
                        }
                    }
                }
            }
            px = px + 1;
        }
        py = py + 1;
    }
    assert(pixels@ =~= target);
}

// ---------------------------------------------------------------------------
// Glyphs

/// Where a glyph of `glyph_w` x `glyph_h` is drawn in a cell of `cell_w` x
/// `cell_h` whose corner is at (`x`, `y`): centred, rounding down.
pub open spec fn glyph_origin(x: int, cell: nat, glyph: nat) -> int {
    x + (if cell > glyph { (cell - glyph) as nat } else { 0nat }) / 2
}

/// The coverage the glyph's bitmap gives pixel (`px`, `py`), if the pixel is
/// under the glyph and covered at all.
pub open spec fn glyph_alpha(
    bitmap: Seq<u8>,
    glyph_w: nat,
    glyph_h: nat,
    gx0: int,
    gy0: int,
    px: int,
    py: int,
) -> Option<u8> {
    let gx = px - gx0;
    let gy = py - gy0;
    if 0 <= gx < glyph_w && 0 <= gy < glyph_h && bitmap[gy * glyph_w + gx] != 0 {
        Some(bitmap[gy * glyph_w + gx])
    } else {
        None
    }
}

/// The surface with the glyph blended in `fg` over every pixel it covers.
pub open spec fn glyph_spec(
    pixels: Seq<u32>,
    width: nat,
    height: nat,
    gx0: int,
    gy0: int,
    glyph_w: nat,
    glyph_h: nat,
    bitmap: Seq<u8>,
    fg: u32,
) -> Seq<u32> {
    Seq::new(
        pixels.len(),
        |i: int|
            if width > 0 && 0 <= i < width * height {
                match glyph_alpha(bitmap, glyph_w, glyph_h, gx0, gy0, i % (width as int), i / (width as int)) {
                    Some(a) => blend_spec(pixels[i], fg, a) as u32,
                    None => pixels[i],
                }
            } else {
                pixels[i]
            },
    )
}

/// The glyph can be drawn: the numbers fit, the bitmap holds a byte per
/// glyph pixel and the surface a pixel per position.
pub open spec fn glyph_ok(
    len: nat,
    bitmap_len: nat,
    width: u32,
    height: u32,
    x: i32,
    y: i32,
    cell_w: u32,
    cell_h: u32,
    glyph_w: u32,
    glyph_h: u32,
) -> bool {
    &&& width <= i32::MAX && height <= i32::MAX
    &&& glyph_w <= i32::MAX && glyph_h <= i32::MAX
    &&& (glyph_w as nat) * (glyph_h as nat) <= bitmap_len
    &&& (glyph_w as nat) * (glyph_h as nat) <= u32::MAX
    &&& (width as nat) * (height as nat) <= len
    &&& glyph_origin(x as int, cell_w as nat, glyph_w as nat) + glyph_w <= i32::MAX
    &&& glyph_origin(y as int, cell_h as nat, glyph_h as nat) + glyph_h <= i32::MAX
}

/// Draws a glyph of `glyph_w` x `glyph_h` coverage values, centred in the
/// cell of `cell_w` x `cell_h` at (`x`, `y`), blending `fg` into the pixels
/// it covers that lie on the surface.
pub fn draw_glyph(
    pixels: &mut [u32],
    width: u32,
    height: u32,
    x: i32,
    y: i32,
    cell_w: u32,
    cell_h: u32,
    glyph_w: u32,
    glyph_h: u32,
    bitmap: &[u8],
    fg: u32,
)
    requires
        glyph_ok(old(pixels)@.len(), bitmap@.len(), width, height, x, y, cell_w, cell_h, glyph_w, glyph_h),
    ensures
        final(pixels)@ == glyph_spec(
            old(pixels)@,
            width as nat,
            height as nat,
            glyph_origin(x as int, cell_w as nat, glyph_w as nat),
            glyph_origin(y as int, cell_h as nat, glyph_h as nat),
            glyph_w as nat,
            glyph_h as nat,
            bitmap@,
            fg,
        ),
{
    let ghost old_pixels = pixels@;
    let ghost wi = width as int;
    let ghost hi = height as int;
    let n = pixels.len();
    let draw_x: i32 = x + (cell_w.saturating_sub(glyph_w) / 2) as i32;
    let draw_y: i32 = y + (cell_h.saturating_sub(glyph_h) / 2) as i32;
    let ghost gw = glyph_w as nat;
    let ghost gh = glyph_h as nat;
    let ghost target = glyph_spec(old_pixels, width as nat, height as nat, draw_x as int, draw_y as int, gw, gh, bitmap@, fg);
    let mut gy: u32 = 0;
    while gy < glyph_h
        invariant
            wi == width as int,
            hi == height as int,
            old_pixels.len() == n,
            pixels@.len() == n,
            gw == glyph_w,
            gh == glyph_h,
            target == glyph_spec(old_pixels, width as nat, height as nat, draw_x as int, draw_y as int, gw, gh, bitmap@, fg),
            gy <= glyph_h,
            width <= i32::MAX && height <= i32::MAX,
            glyph_w <= i32::MAX && glyph_h <= i32::MAX,
            (glyph_w as nat) * (glyph_h as nat) <= bitmap@.len(),
            (glyph_w as nat) * (glyph_h as nat) <= u32::MAX,
            (width as nat) * (height as nat) <= n,
            draw_x + glyph_w <= i32::MAX,
            draw_y + glyph_h <= i32::MAX,
            forall|i: int|
                0 <= i < n ==> #[trigger] pixels@[i] == if width > 0 && 0 <= i < wi * hi && i / wi
                    - draw_y < gy {
                    target[i]
                } else {
                    old_pixels[i]
                },
        decreases glyph_h - gy,
    {
        let py: i32 = draw_y + gy as i32;
        let mut gx: u32 = 0;
        while gx < glyph_w
            invariant
                wi == width as int,
                hi == height as int,
                old_pixels.len() == n,
                pixels@.len() == n,
                gw == glyph_w,
                gh == glyph_h,
                gy < glyph_h,
                gx <= glyph_w,
                target == glyph_spec(old_pixels, width as nat, height as nat, draw_x as int, draw_y as int, gw, gh, bitmap@, fg),
                py == draw_y + gy,
                width <= i32::MAX && height <= i32::MAX,
                glyph_w <= i32::MAX && glyph_h <= i32::MAX,
                (glyph_w as nat) * (glyph_h as nat) <= bitmap@.len(),
                (glyph_w as nat) * (glyph_h as nat) <= u32::MAX,
                (width as nat) * (height as nat) <= n,
                draw_x + glyph_w <= i32::MAX,
                draw_y + glyph_h <= i32::MAX,
                forall|i: int|
                    0 <= i < n ==> #[trigger] pixels@[i] == if width > 0 && 0 <= i < wi * hi && (i
                        / wi - draw_y < gy || (i / wi == py && i % wi - draw_x < gx)) {
                        target[i]
                    } else {
                        old_pixels[i]
                    },
            decreases glyph_w - gx,
        {
            proof {
                assert((gy as int) * (glyph_w as int) + (gx as int) < (glyph_w as int) * (glyph_h as int)) by (nonlinear_arith)
                    requires
                        0 <= gy < glyph_h,
                        0 <= gx < glyph_w,
                ;
                assert(0 <= (gy as int) * (glyph_w as int)) by (nonlinear_arith)
                    requires
                        0 <= gy,
                        0 <= glyph_w,
                ;
            }
            let alpha = bitmap[(gy * glyph_w + gx) as usize];
            let px: i32 = draw_x + gx as i32;
            if alpha != 0 && py >= 0 && py < height as i32 && px >= 0 && px < width as i32 {
                proof {
                    lemma_cell_index(py as int, px as int, wi, hi);
                }
                let idx: usize = py as usize * width as usize + px as usize;
                let ghost before = pixels@;
                pixels[idx] = blend(pixels[idx], fg, alpha);
                proof {
                    assert forall|i: int| 0 <= i < n implies #[trigger] pixels@[i] == if width > 0 && 0
                        <= i < wi * hi && (i / wi - draw_y < gy || (i / wi == py && i % wi - draw_x
                        < gx + 1)) {
                        target[i]
                    } else {
                        old_pixels[i]
                    } by {
                        if i != idx {
                            assert(before[i] == pixels@[i]);
                            if i / wi == py && i % wi == px {
                                lemma_same_cell(i, idx as int, wi);
                            }
                        } else {
                            assert(i / wi == py && i % wi == px);
                            assert(before[i] == old_pixels[i]);
                            assert(glyph_alpha(bitmap@, gw, gh, draw_x as int, draw_y as int, px as int, py as int) == Some(alpha));
                            assert(target[i] == blend_spec(old_pixels[i], fg, alpha) as u32);
                        }
                    }
                }
            } else {
                proof {
                    assert forall|i: int| 0 <= i < n implies #[trigger] pixels@[i] == if width > 0 && 0
                        <= i < wi * hi && (i / wi - draw_y < gy || (i / wi == py && i % wi - draw_x
                        < gx + 1)) {
                        target[i]
                    } else {
                        old_pixels[i]
                    } by {
                        if width > 0 && 0 <= i < wi * hi && i / wi == py && i % wi == px {
                            lemma_index_cell(i, wi, hi);
                            assert(target[i] == old_pixels[i]);
                        }
                    }
                }
            }
            gx = gx + 1;
        }
        proof {
            assert forall|i: int| 0 <= i < n implies #[trigger] pixels@[i] == if width > 0 && 0 <= i
                < wi * hi && i / wi - draw_y < gy + 1 {
                target[i]
            } else {
                old_pixels[i]
            } by {
                if width > 0 && 0 <= i < wi * hi && i / wi == py && i % wi - draw_x >= gx {
                    assert(target[i] == old_pixels[i]);
                }
            }
        }
        gy = gy + 1;
    }
    proof {
        assert forall|i: int| 0 <= i < n implies #[trigger] pixels@[i] == target[i] by {
            if width > 0 && 0 <= i < wi * hi && i / wi - draw_y >= gy {
                assert(target[i] == old_pixels[i]);
            }
        }
    }
    assert(pixels@ =~= target);
}

// ---------------------------------------------------------------------------
// Lines of text

/// A rasterised character: its size and a coverage byte per pixel, row by
/// row.
#[derive(Clone, Debug)]
pub struct Glyph {
    pub width: u32,
    pub height: u32,
    pub bitmap: Vec<u8>,
}

/// The surface after the first `n` glyphs are drawn one cell apart, from the
/// cell whose corner is at (`x`, `y`) rightwards.
pub open spec fn text_spec(
    pixels: Seq<u32>,
    width: nat,
    height: nat,
    x: int,
    y: int,
    cell_w: nat,
    cell_h: nat,
    glyphs: Seq<Glyph>,
    fg: u32,
    n: nat,
) -> Seq<u32>
    decreases n,
{
    if n == 0 {
        pixels
    } else {
        let k = (n - 1) as nat;
        let g = glyphs[k as int];
        glyph_spec(
            text_spec(pixels, width, height, x, y, cell_w, cell_h, glyphs, fg, k),
            width,
            height,
            glyph_origin(x + k * cell_w, cell_w, g.width as nat),
            glyph_origin(y, cell_h, g.height as nat),
            g.width as nat,
            g.height as nat,
            g.bitmap@,
            fg,
        )
    }
}

/// Every glyph of the line can be drawn in its cell.
pub open spec fn text_ok(
    len: nat,
    width: u32,
    height: u32,
    x: i32,
    y: i32,
    cell_w: u32,
    cell_h: u32,
    glyphs: Seq<Glyph>,
) -> bool {
    &&& glyphs.len() * cell_w <= i32::MAX
    &&& x + glyphs.len() * cell_w <= i32::MAX
    &&& forall|k: int|
        0 <= k < glyphs.len() ==> glyph_ok(
            len,
            #[trigger] glyphs[k].bitmap@.len(),
            width,
            height,
            (x + k * cell_w) as i32,
            y,
            cell_w,
            cell_h,
            glyphs[k].width,
            glyphs[k].height,
        )
}

/// Draws a line of glyphs in `fg`, one cell of `cell_w` x `cell_h` each,
/// starting with the cell whose corner is at (`x`, `y`).
pub fn draw_text(
    pixels: &mut [u32],
    width: u32,
    height: u32,
    x: i32,
    y: i32,
    cell_w: u32,
    cell_h: u32,
    glyphs: &Vec<Glyph>,
    fg: u32,
)
    requires
        text_ok(old(pixels)@.len(), width, height, x, y, cell_w, cell_h, glyphs@),
    ensures
        final(pixels)@ == text_spec(
            old(pixels)@,
            width as nat,
            height as nat,
            x as int,
            y as int,
            cell_w as nat,
            cell_h as nat,
            glyphs@,
            fg,
            glyphs@.len(),
        ),
{
    let ghost start = pixels@;
    let mut i: usize = 0;
    while i < glyphs.len()
        invariant
            i <= glyphs@.len(),
            pixels@.len() == start.len(),
            text_ok(start.len(), width, height, x, y, cell_w, cell_h, glyphs@),
            pixels@ == text_spec(
                start,
                width as nat,
                height as nat,
                x as int,
                y as int,
                cell_w as nat,
                cell_h as nat,
                glyphs@,
                fg,
                i as nat,
            ),
        decreases glyphs@.len() - i,
    {
        proof {
            assert((i as nat) * (cell_w as nat) <= (glyphs@.len() as nat) * (cell_w as nat)) by (nonlinear_arith)
                requires
                    i < glyphs@.len(),
            ;
            if cell_w > 0 {
                assert(i <= (i as nat) * (cell_w as nat)) by (nonlinear_arith)
                    requires
                        cell_w > 0,
                ;
            } else {
                assert((i as nat) * (cell_w as nat) == 0) by (nonlinear_arith)
                    requires
                        cell_w == 0,
                ;
            }
        }
        let dx: u32 = if cell_w == 0 { 0 } else { i as u32 * cell_w };
        let gx: i32 = x + dx as i32;
        let g = &glyphs[i];
        proof {
            assert(dx == i * cell_w);
            assert(glyph_ok(start.len(), glyphs@[i as int].bitmap@.len(), width, height, (x + i * cell_w) as i32, y, cell_w, cell_h, glyphs@[i as int].width, glyphs@[i as int].height));
        }
        draw_glyph(pixels, width, height, gx, y, cell_w, cell_h, g.width, g.height, g.bitmap.as_slice(), fg);
        i = i + 1;
    }
}

// ---------------------------------------------------------------------------
// Checks before drawing

proof fn lemma_mul_bound(a: nat, b: nat, amax: nat, bmax: nat)
    requires
        a <= amax,
        b <= bmax,
    ensures
        a * b <= amax * bmax,
{
    assert(a * b <= amax * bmax) by (nonlinear_arith)
        requires
            a <= amax,
            b <= bmax,
    ;
}

/// Whether `draw_rect` can fill the rectangle on a surface of `len` pixels.
pub fn can_fill(len: usize, width: u32, height: u32, x: i32, y: i32, w: u32, h: u32) -> (r: bool)
    ensures
        r == fill_ok(len as nat, width, height, x, y, w, h),
{
    let max: i64 = 0x7fff_ffff;
    if width as i64 > max || height as i64 > max || w as i64 > max || h as i64 > max {
        return false;
    }
    if x as i64 + w as i64 > max || y as i64 + h as i64 > max {
        return false;
    }
    proof {
        lemma_mul_bound(width as nat, height as nat, 0xffff_ffff, 0xffff_ffff);
    }
    if width as u64 * height as u64 > len as u64 {
        return false;
    }
    let y0: i64 = if y < 0 { 0 } else { y as i64 };
    let y1: i64 = clamp_i64(y as i64 + h as i64, height as i64);
    let x0: i64 = if x < 0 { 0 } else { x as i64 };
    let x1: i64 = clamp_i64(x as i64 + w as i64, width as i64);
    !(y0 < y1) || x0 <= x1
}

fn clamp_i64(v: i64, hi: i64) -> (r: i64)
    requires
        hi >= 0,
    ensures
        r == clamp_int(v as int, 0, hi as int),
{
    if v < 0 {
        0
    } else if v > hi {
        hi
    } else {
        v
    }
}

/// Whether `draw_glyph` can draw the glyph on a surface of `len` pixels.
pub fn can_draw_glyph(
    len: usize,
    bitmap_len: usize,
    width: u32,
    height: u32,
    x: i32,
    y: i32,
    cell_w: u32,
    cell_h: u32,
    glyph_w: u32,
    glyph_h: u32,
) -> (r: bool)
    ensures
        r == glyph_ok(len as nat, bitmap_len as nat, width, height, x, y, cell_w, cell_h, glyph_w, glyph_h),
{
    let max: i64 = 0x7fff_ffff;
    if width as i64 > max || height as i64 > max || glyph_w as i64 > max || glyph_h as i64 > max {
        return false;
    }
    proof {
        lemma_mul_bound(glyph_w as nat, glyph_h as nat, 0xffff_ffff, 0xffff_ffff);
        lemma_mul_bound(width as nat, height as nat, 0xffff_ffff, 0xffff_ffff);
    }
    let area: u64 = glyph_w as u64 * glyph_h as u64;
    if area > bitmap_len as u64 || area > 0xffff_ffff {
        return false;
    }
    if width as u64 * height as u64 > len as u64 {
        return false;
    }
    let gx: i64 = x as i64 + (cell_w.saturating_sub(glyph_w) / 2) as i64;
    let gy: i64 = y as i64 + (cell_h.saturating_sub(glyph_h) / 2) as i64;
    gx + glyph_w as i64 <= max && gy + glyph_h as i64 <= max
}

/// Whether `draw_text` can draw the line of glyphs on a surface of `len`
/// pixels.
pub fn can_draw_text(
    len: usize,
    width: u32,
    height: u32,
    x: i32,
    y: i32,
    cell_w: u32,
    cell_h: u32,
    glyphs: &Vec<Glyph>,
) -> (r: bool)
    ensures
        r == text_ok(len as nat, width, height, x, y, cell_w, cell_h, glyphs@),
{
    let n = glyphs.len();
    let max: u64 = 0x7fff_ffff;
    if n as u64 > max {
        proof {
            if cell_w > 0 {
                assert(n <= (n as nat) * (cell_w as nat)) by (nonlinear_arith)
                    requires
                        cell_w > 0,
                ;
            } else {
                assert((n as nat) * (cell_w as nat) == 0) by (nonlinear_arith)
                    requires
                        cell_w == 0,
                ;
            }
        }
        if cell_w > 0 {
            return false;
        }
    }
    if n as u64 <= max {
        proof {
            lemma_mul_bound(n as nat, cell_w as nat, 0x7fff_ffff, 0xffff_ffff);
        }
        let total: u64 = n as u64 * cell_w as u64;
        if total > max || x as i64 + total as i64 > max as i64 {
            return false;
        }
    }
    let mut i: usize = 0;
    while i < n
        invariant
            n == glyphs@.len(),
            i <= n,
            glyphs@.len() * cell_w <= i32::MAX,
            x + glyphs@.len() * cell_w <= i32::MAX,
            forall|k: int|
                0 <= k < i ==> glyph_ok(
                    len as nat,
                    #[trigger] glyphs@[k].bitmap@.len(),
                    width,
                    height,
                    (x + k * cell_w) as i32,
                    y,
                    cell_w,
                    cell_h,
                    glyphs@[k].width,
                    glyphs@[k].height,
                ),
        decreases n - i,
    {
        proof {
            assert((i as nat) * (cell_w as nat) <= (n as nat) * (cell_w as nat)) by (nonlinear_arith)
                requires
                    i < n,
            ;
            if cell_w > 0 {
                assert(i <= (i as nat) * (cell_w as nat)) by (nonlinear_arith)
                    requires
                        cell_w > 0,
                ;
            } else {
                assert((i as nat) * (cell_w as nat) == 0) by (nonlinear_arith)
                    requires
                        cell_w == 0,
                ;
            }
        }
        let dx: u32 = if cell_w == 0 { 0 } else { i as u32 * cell_w };
        let gx: i32 = x + dx as i32;
        let g = &glyphs[i];
        if !can_draw_glyph(len, g.bitmap.len(), width, height, gx, y, cell_w, cell_h, g.width, g.height) {
            return false;
        }
        i = i + 1;
    }
    true
}

} // verus!
