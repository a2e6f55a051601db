use gridterm::layout::ThemeConfig;
use gridterm::paint::{
    blend, can_draw_glyph, can_draw_text, can_fill, draw_glyph, draw_rect, parse_hex, truncate,
    Glyph, Theme,
};

#[test]
fn hex_colours_parse() {
    assert_eq!(parse_hex(Some("#ffffff")), Some(0xffffff));
    assert_eq!(parse_hex(Some("  #1a2B3c ")), Some(0x1a2b3c));
    assert_eq!(parse_hex(Some("##101010")), Some(0x101010));
    assert_eq!(parse_hex(Some("101010")), Some(0x101010));
    assert_eq!(parse_hex(Some("#fff")), None);
    assert_eq!(parse_hex(Some("#gggggg")), None);
    assert_eq!(parse_hex(Some("#1234567")), None);
    assert_eq!(parse_hex(Some("+12345")), Some(0x12345));
    assert_eq!(parse_hex(Some("#éabcde")), None);
    assert_eq!(parse_hex(None), None);
}

#[test]
fn theme_defaults_and_overrides() {
    let theme = Theme::from_config(&ThemeConfig::default());
    assert_eq!(theme.background, 0x101010);
    assert_eq!(theme.pane_background, 0x111111);
    assert_eq!(theme.title_background, 0x202020);
    assert_eq!(theme.title_active_background, 0x263b2b);
    assert_eq!(theme.border, 0x5a5a5a);
    assert_eq!(theme.border_active, 0x4ec36b);
    assert_eq!(theme.text, 0xe8e8e8);
    assert_eq!(theme.dim_text, 0xa8a8a8);
    let config = ThemeConfig {
        text: Some("#ffffff".to_string()),
        border: Some("nope".to_string()),
        ..ThemeConfig::default()
    };
    let theme = Theme::from_config(&config);
    assert_eq!(theme.text, 0xffffff);
    assert_eq!(theme.border, 0x5a5a5a);
}

#[test]
fn blend_mixes_channels() {
    assert_eq!(blend(0x000000, 0xffffff, 255), 0xffffff);
    assert_eq!(blend(0x123456, 0xffffff, 0), 0x123456);
    assert_eq!(blend(0x000000, 0xff8040, 128), 0x804020);
    assert_eq!(blend(0xff000000, 0x00000000, 0), 0x000000);
}

#[test]
fn truncate_marks_cut_titles() {
    assert_eq!(truncate("hello", 0), "");
    assert_eq!(truncate("hello", 1), "h");
    assert_eq!(truncate("hello", 3), "he>");
    assert_eq!(truncate("hello", 5), "hello");
    assert_eq!(truncate("hello", 9), "hello");
    assert_eq!(truncate("héllo", 4), "hél>");
}

#[test]
fn rect_fill_is_clipped() {
    let mut pixels = vec![0u32; 4 * 3];
    draw_rect(&mut pixels, 4, 3, -1, 1, 3, 5, 7);
    assert_eq!(
        pixels,
        vec![
            0, 0, 0, 0, //
            7, 7, 0, 0, //
            7, 7, 0, 0,
        ]
    );
    let mut pixels = vec![1u32; 4 * 3];
    draw_rect(&mut pixels, 4, 3, 2, 0, 0, 3, 9);
    assert_eq!(pixels, vec![1u32; 12]);
    draw_rect(&mut pixels, 4, 3, 3, 2, 10, 10, 9);
    assert_eq!(pixels[11], 9);
    assert_eq!(pixels.iter().filter(|p| **p == 9).count(), 1);
}

#[test]
fn glyph_is_centred_and_blended() {
    let mut pixels = vec![0u32; 5 * 5];
    // a 1x1 glyph in a 3x3 cell at (1, 1) lands at (2, 2)
    draw_glyph(&mut pixels, 5, 5, 1, 1, 3, 3, 1, 1, &[255], 0xabcdef);
    assert_eq!(pixels[2 * 5 + 2], 0xabcdef);
    assert_eq!(pixels.iter().filter(|p| **p != 0).count(), 1);
    // zero coverage leaves the pixel alone; pixels off the surface are skipped
    let mut pixels = vec![5u32; 2 * 2];
    draw_glyph(&mut pixels, 2, 2, 1, 1, 2, 2, 2, 2, &[0, 255, 255, 255], 0xffffff);
    assert_eq!(pixels, vec![5, 5, 5, 5]);
}

#[test]
fn drawing_checks() {
    assert!(can_fill(12, 4, 3, -1, 1, 3, 5));
    assert!(!can_fill(11, 4, 3, 0, 0, 1, 1));
    assert!(!can_fill(12, 4, 3, 5, 0, 1, 1));
    assert!(can_fill(12, 4, 3, 5, 5, 1, 1));
    assert!(!can_fill(12, 4, 3, i32::MAX, 0, 1, 1));
    assert!(can_draw_glyph(25, 1, 5, 5, 1, 1, 3, 3, 1, 1));
    assert!(!can_draw_glyph(25, 3, 5, 5, 1, 1, 3, 3, 2, 2));
    assert!(!can_draw_glyph(24, 4, 5, 5, 1, 1, 3, 3, 2, 2));
}

#[test]
fn text_is_drawn_cell_by_cell() {
    let dot = Glyph { width: 1, height: 1, bitmap: vec![255] };
    let blank = Glyph { width: 1, height: 1, bitmap: vec![0] };
    let glyphs = vec![dot.clone(), blank, dot];
    let mut pixels = vec![0u32; 8 * 2];
    assert!(can_draw_text(pixels.len(), 8, 2, 0, 0, 2, 2, &glyphs));
    gridterm::paint::draw_text(&mut pixels, 8, 2, 0, 0, 2, 2, &glyphs, 0x010101);
    // each 1x1 glyph sits at (cell_x + 0, 0) of its 2x2 cell
    let lit: Vec<usize> = (0..16).filter(|i| pixels[*i] != 0).collect();
    assert_eq!(lit, vec![0, 4]);
    let bad = vec![Glyph { width: 2, height: 2, bitmap: vec![1] }];
    assert!(!can_draw_text(16, 8, 2, 0, 0, 2, 2, &bad));
}

#[test]
fn blended_channels_lie_between() {
    assert_eq!(blend(0x000000, 0xffffff, 128), 0x808080);
    let p = blend(0x10f020, 0x30a0ff, 77);
    for shift in [0, 8, 16] {
        let c = (p >> shift) & 0xff;
        let a = (0x10f020u32 >> shift) & 0xff;
        let b = (0x30a0ffu32 >> shift) & 0xff;
        assert!(a.min(b) <= c && c <= a.max(b));
    }
    assert!(p <= 0xffffff);
}
