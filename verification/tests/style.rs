use gridterm::style::{ansi_color, color_rgb, indexed_color, Color, Style};

#[test]
fn ansi_colours_map_to_names() {
    assert_eq!(ansi_color(0, false), Color::Black);
    assert_eq!(ansi_color(1, false), Color::Red);
    assert_eq!(ansi_color(7, false), Color::Gray);
    assert_eq!(ansi_color(0, true), Color::DarkGray);
    assert_eq!(ansi_color(6, true), Color::LightCyan);
    assert_eq!(ansi_color(7, true), Color::White);
    assert_eq!(ansi_color(42, false), Color::White);
}

#[test]
fn palette_entries() {
    assert_eq!(indexed_color(1), 0xcd3131);
    assert_eq!(indexed_color(15), 0xffffff);
    assert_eq!(indexed_color(16), 0x000000);
    assert_eq!(indexed_color(17), 0x00005f);
    assert_eq!(indexed_color(196), 0xff0000);
    assert_eq!(indexed_color(231), 0xffffff);
    assert_eq!(indexed_color(232), 0x080808);
    assert_eq!(indexed_color(255), 0xeeeeee);
}

#[test]
fn colours_as_pixels() {
    assert_eq!(color_rgb(Color::Reset, 0x123456), 0x123456);
    assert_eq!(color_rgb(Color::DarkGray, 0), 0x666666);
    assert_eq!(color_rgb(Color::Rgb(1, 2, 3), 0), 0x010203);
    assert_eq!(color_rgb(Color::Indexed(9), 0), color_rgb(Color::LightRed, 0));
}

#[test]
fn style_builders() {
    let s = Style::plain().with_fg(Color::Red).with_bg(Color::Blue).with_bold();
    assert_eq!(s, Style { fg: Some(Color::Red), bg: Some(Color::Blue), bold: true });
    assert_eq!(Style::default(), Style::plain());
}
