use gridterm::buffer::Cell;
use gridterm::layout::{Rect, ThemeConfig};
use gridterm::paint::Theme;
use gridterm::style::{Color, Style};
use gridterm::window::{
    cell_metrics, clamp_scroll, cursor_bar, frame_fills, marker_place, pane_frame, pane_rect,
    redraw_on_output, scroll_marker, shown_title, surface_area, terminal_paints, title_place, Fill,
    PaneFrame,
};

#[test]
fn pane_rect_falls_back_to_area() {
    let area = Rect { x: 0, y: 0, width: 10, height: 10 };
    let rects = vec![Rect { x: 1, y: 1, width: 2, height: 2 }];
    assert_eq!(pane_rect(&rects, 0, area), rects[0]);
    assert_eq!(pane_rect(&rects, 1, area), area);
}

#[test]
fn frame_of_a_pane() {
    let rect = Rect { x: 10, y: 20, width: 200, height: 100 };
    let frame = pane_frame(rect, 9, 20, 29).unwrap();
    assert_eq!(
        frame,
        PaneFrame {
            x: 10,
            y: 20,
            w: 200,
            h: 100,
            title_bar_h: 29,
            title_chars: 20,
            content_x: 16,
            content_y: 54,
            cols: 20,
            rows: 3,
        }
    );
}

#[test]
fn small_frames_are_skipped_and_grids_have_a_cell() {
    assert_eq!(pane_frame(Rect { x: 0, y: 0, width: 7, height: 100 }, 9, 20, 29), None);
    assert_eq!(pane_frame(Rect { x: 0, y: 0, width: 100, height: 7 }, 9, 20, 29), None);
    let frame = pane_frame(Rect { x: 0, y: 0, width: 8, height: 8 }, 9, 20, 29).unwrap();
    assert_eq!(frame.cols, 1);
    assert_eq!(frame.rows, 1);
    assert_eq!(frame.title_bar_h, 6);
    assert_eq!(frame.title_chars, 0);
}

#[test]
fn titles_and_markers() {
    assert_eq!(shown_title("Logs", Some("ne"), true), "Rename: ne");
    assert_eq!(shown_title("Logs", Some("ne"), false), "Logs");
    assert_eq!(shown_title("Logs", None, true), "Logs");
    assert_eq!(scroll_marker(0), "+0");
    assert_eq!(scroll_marker(120), "+120");
    assert_eq!(clamp_scroll(5, 3), 3);
    assert_eq!(clamp_scroll(2, 3), 2);
}

#[test]
fn cursor_bar_under_cursor() {
    assert_eq!(cursor_bar(10, 20, (3, 5), 4, 10, 9, 20), Some((37, 57, 9)));
    assert_eq!(cursor_bar(0, 0, (0, 3), 4, 10, 1, 2), None);
    assert_eq!(cursor_bar(0, 0, (0, 14), 4, 10, 1, 2), None);
    assert_eq!(cursor_bar(0, 0, (2, 13), 4, 10, 1, 2), Some((2, 18, 2)));
}

#[test]
fn paints_of_a_grid() {
    let theme = Theme::from_config(&ThemeConfig::default());
    let red_on_blue = Style { fg: Some(Color::Red), bg: Some(Color::Blue), bold: true };
    let lines = vec![
        vec![Cell::new('a', red_on_blue), Cell::new(' ', Style::plain()), Cell::new('z', Style::plain())],
        vec![],
        vec![Cell::new('b', Style::plain())],
    ];
    let paints = terminal_paints(&lines, 2, 2, 5, 7, 10, 20, &theme);
    assert_eq!(paints.len(), 2);
    assert_eq!((paints[0].x, paints[0].y), (5, 7));
    assert_eq!(paints[0].background, Some(0x2472c8));
    assert_eq!(paints[0].glyph, Some('a'));
    assert_eq!(paints[0].foreground, 0xcd3131);
    assert!(paints[0].bold);
    assert_eq!((paints[1].x, paints[1].y), (15, 7));
    assert_eq!(paints[1].background, None);
    assert_eq!(paints[1].glyph, None);
    assert_eq!(paints[1].foreground, theme.text);
    let all = terminal_paints(&lines, 5, 5, 0, 0, 1, 1, &theme);
    assert_eq!(all.len(), 4);
    assert_eq!((all[3].x, all[3].y, all[3].glyph), (0, 2, Some('b')));
}

#[test]
fn output_redraws_when_a_pane_is_unscrolled() {
    assert!(redraw_on_output(&vec![0, 4], 1));
    assert!(redraw_on_output(&vec![3, 0], 0));
    assert!(!redraw_on_output(&vec![3, 4], 0));
    assert!(!redraw_on_output(&vec![], 0));
}

#[test]
fn cell_sizes_from_font_metrics() {
    assert_eq!(cell_metrics(5, 10), (8, 17, 26));
    assert_eq!(cell_metrics(9, 21), (10, 21, 30));
}

#[test]
fn surface_is_clamped_to_u16() {
    assert_eq!(surface_area(800, 600), Rect { x: 0, y: 0, width: 800, height: 600 });
    assert_eq!(surface_area(100_000, 70_000), Rect { x: 0, y: 0, width: 65535, height: 65535 });
}

#[test]
fn frame_rectangles_and_text_places() {
    let theme = Theme::from_config(&ThemeConfig::default());
    let frame = pane_frame(Rect { x: 10, y: 20, width: 200, height: 100 }, 9, 20, 29).unwrap();
    let fills = frame_fills(frame, true, &theme);
    assert_eq!(
        fills,
        vec![
            Fill { x: 10, y: 20, w: 200, h: 100, color: theme.pane_background },
            Fill { x: 10, y: 20, w: 200, h: 1, color: theme.border_active },
            Fill { x: 10, y: 119, w: 200, h: 1, color: theme.border_active },
            Fill { x: 10, y: 20, w: 1, h: 100, color: theme.border_active },
            Fill { x: 209, y: 20, w: 1, h: 100, color: theme.border_active },
            Fill { x: 11, y: 21, w: 198, h: 29, color: theme.title_active_background },
        ]
    );
    for fill in &fills {
        assert!(fill.x >= 10 && fill.x + fill.w as i32 <= 210);
        assert!(fill.y >= 20 && fill.y + fill.h as i32 <= 120);
    }
    let idle = frame_fills(frame, false, &theme);
    assert_eq!(idle[1].color, theme.border);
    assert_eq!(idle[5].color, theme.title_background);
    assert_eq!(title_place(frame, true, &theme), (18, 26, theme.text));
    assert_eq!(title_place(frame, false, &theme), (18, 26, theme.dim_text));
    assert_eq!(marker_place(frame, 3, 9, &theme), (175, 26, theme.border_active));
}
