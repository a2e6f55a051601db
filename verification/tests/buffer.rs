use gridterm::buffer::{sgr_code, Cell, PaneBuffer};
use gridterm::style::{Color, Style};

fn text_of(line: &[Cell]) -> String {
    line.iter().map(|c| c.ch).collect()
}

fn feed(buffer: &mut PaneBuffer, s: &str) {
    for c in s.chars() {
        match c {
            '\n' => buffer.execute(b'\n'),
            '\r' => buffer.execute(b'\r'),
            _ => buffer.print(c),
        }
    }
}

#[test]
fn new_buffer_is_one_empty_line() {
    let buffer = PaneBuffer::new(10);
    assert_eq!(buffer.cursor_position(), (0, 0));
    assert_eq!(buffer.visible_lines(5), vec![Vec::<Cell>::new()]);
    assert_eq!(buffer.max_scrollback(5), 0);
}

#[test]
fn printing_writes_at_cursor_and_advances() {
    let mut buffer = PaneBuffer::new(200);
    feed(&mut buffer, "hi");
    assert_eq!(buffer.cursor_position(), (2, 0));
    let lines = buffer.visible_lines(3);
    assert_eq!(lines.len(), 1);
    assert_eq!(text_of(&lines[0]), "hi");
    assert_eq!(lines[0][0].style, Style::plain());
}

#[test]
fn crlf_moves_to_next_line_start() {
    let mut buffer = PaneBuffer::new(200);
    feed(&mut buffer, "ab\r\ncd");
    assert_eq!(buffer.cursor_position(), (2, 1));
    let lines = buffer.visible_lines(10);
    assert_eq!(text_of(&lines[0]), "ab");
    assert_eq!(text_of(&lines[1]), "cd");
}

#[test]
fn line_feed_keeps_column() {
    let mut buffer = PaneBuffer::new(200);
    feed(&mut buffer, "ab");
    buffer.execute(b'\n');
    assert_eq!(buffer.cursor_position(), (0, 1));
}

#[test]
fn backspace_moves_left_and_stops_at_zero() {
    let mut buffer = PaneBuffer::new(200);
    feed(&mut buffer, "a");
    buffer.execute(0x08);
    assert_eq!(buffer.cursor_position(), (0, 0));
    buffer.execute(0x08);
    assert_eq!(buffer.cursor_position(), (0, 0));
    buffer.execute(0x07);
    assert_eq!(buffer.cursor_position(), (0, 0));
}

#[test]
fn printing_at_right_edge_wraps() {
    let mut buffer = PaneBuffer::new(200);
    buffer.resize(3);
    feed(&mut buffer, "abcd");
    assert_eq!(buffer.cursor_position(), (1, 1));
    let lines = buffer.visible_lines(5);
    assert_eq!(text_of(&lines[0]), "abc");
    assert_eq!(text_of(&lines[1]), "d");
}

#[test]
fn resize_pulls_cursor_inside() {
    let mut buffer = PaneBuffer::new(200);
    feed(&mut buffer, "abcdef");
    buffer.resize(4);
    assert_eq!(buffer.cursor_position(), (3, 0));
    buffer.resize(0);
    assert_eq!(buffer.cursor_position(), (0, 0));
}

#[test]
fn scrollback_is_limited_to_max_lines() {
    let mut buffer = PaneBuffer::new(0);
    for i in 0..250 {
        feed(&mut buffer, &format!("{}\r\n", i));
    }
    // at least 200 lines are kept, never more
    assert_eq!(buffer.max_scrollback(1), 199);
    assert_eq!(buffer.cursor_position(), (0, 199));
    let top = buffer.visible_lines_at(1, 199);
    assert_eq!(text_of(&top[0]), "51");
}

#[test]
fn visible_window_follows_scrollback() {
    let mut buffer = PaneBuffer::new(200);
    feed(&mut buffer, "a\r\nb\r\nc\r\nd");
    assert_eq!(buffer.visible_start_at(2, 0), 2);
    assert_eq!(buffer.visible_start_at(2, 1), 1);
    assert_eq!(buffer.visible_start_at(2, 10), 0);
    assert_eq!(buffer.visible_start_at(0, 0), 3);
    let shown = buffer.visible_lines_at(2, 1);
    assert_eq!(shown.len(), 2);
    assert_eq!(text_of(&shown[0]), "b");
    assert_eq!(text_of(&shown[1]), "c");
    assert_eq!(buffer.max_scrollback(2), 2);
}

#[test]
fn cursor_moves_by_csi() {
    let mut buffer = PaneBuffer::new(200);
    buffer.csi_dispatch(&vec![vec![5], vec![10]], 'H');
    assert_eq!(buffer.cursor_position(), (9, 4));
    buffer.csi_dispatch(&vec![vec![2]], 'A');
    assert_eq!(buffer.cursor_position(), (9, 2));
    buffer.csi_dispatch(&vec![], 'B');
    assert_eq!(buffer.cursor_position(), (9, 3));
    buffer.csi_dispatch(&vec![vec![100]], 'C');
    assert_eq!(buffer.cursor_position(), (79, 3));
    buffer.csi_dispatch(&vec![vec![0]], 'D');
    assert_eq!(buffer.cursor_position(), (78, 3));
    buffer.csi_dispatch(&vec![], 'f');
    assert_eq!(buffer.cursor_position(), (0, 0));
}

#[test]
fn csi_erase_commands() {
    let mut buffer = PaneBuffer::new(200);
    feed(&mut buffer, "hello\r\nworld");
    buffer.csi_dispatch(&vec![vec![1], vec![3]], 'H');
    buffer.csi_dispatch(&vec![], 'K');
    assert_eq!(text_of(&buffer.visible_lines(5)[0]), "he");
    buffer.csi_dispatch(&vec![vec![2]], 'J');
    assert_eq!(buffer.visible_lines(5), vec![Vec::<Cell>::new()]);
    assert_eq!(buffer.cursor_position(), (0, 0));
}

#[test]
fn sgr_sets_colours_and_bold() {
    let mut buffer = PaneBuffer::new(200);
    buffer.csi_dispatch(&vec![vec![1], vec![31], vec![102]], 'm');
    buffer.print('x');
    let cell = buffer.visible_lines(1)[0][0];
    assert_eq!(
        cell.style,
        Style { fg: Some(Color::Red), bg: Some(Color::LightGreen), bold: true }
    );
    buffer.csi_dispatch(&vec![vec![39], vec![49]], 'm');
    buffer.print('y');
    let cell = buffer.visible_lines(1)[0][1];
    assert_eq!(cell.style, Style { fg: Some(Color::Reset), bg: Some(Color::Reset), bold: true });
    buffer.csi_dispatch(&vec![], 'm');
    buffer.print('z');
    assert_eq!(buffer.visible_lines(1)[0][2].style, Style::plain());
}

#[test]
fn sgr_codes_one_by_one() {
    let plain = Style::plain();
    assert_eq!(sgr_code(plain, 34).fg, Some(Color::Blue));
    assert_eq!(sgr_code(plain, 97).fg, Some(Color::White));
    assert_eq!(sgr_code(plain, 40).bg, Some(Color::Black));
    assert_eq!(sgr_code(plain, 1).bold, true);
    assert_eq!(sgr_code(plain, 5), plain);
    assert_eq!(sgr_code(sgr_code(plain, 1), 0), plain);
}

#[test]
fn message_replaces_screen() {
    let mut buffer = PaneBuffer::new(200);
    feed(&mut buffer, "a\r\nb\r\nc");
    buffer.replace_with_message("closed");
    let lines = buffer.visible_lines(10);
    assert_eq!(lines.len(), 1);
    assert_eq!(text_of(&lines[0]), "closed");
    assert_eq!(lines[0][0].style, Style { fg: Some(Color::DarkGray), bg: None, bold: false });
    assert_eq!(buffer.cursor_position(), (0, 0));
}

#[test]
fn printing_below_the_last_line_adds_lines() {
    let mut buffer = PaneBuffer::new(200);
    buffer.csi_dispatch(&vec![vec![3], vec![2]], 'H');
    buffer.print('q');
    let lines = buffer.visible_lines(10);
    assert_eq!(lines.len(), 3);
    assert_eq!(text_of(&lines[2]), " q");
    assert_eq!(lines[2][0], Cell::default());
}

#[test]
fn escape_dispatch_changes_nothing() {
    let mut buffer = PaneBuffer::new(200);
    feed(&mut buffer, "ab");
    buffer.esc_dispatch(&[], false, b'c');
    assert_eq!(buffer.cursor_position(), (2, 0));
    assert_eq!(text_of(&buffer.visible_lines(1)[0]), "ab");
}

#[test]
fn visible_start_saturates() {
    let mut buffer = PaneBuffer::new(200);
    feed(&mut buffer, "a\r\nb\r\nc");
    assert_eq!(buffer.visible_start_at(usize::MAX, 5), 0);
    assert_eq!(buffer.visible_start_at(1, usize::MAX), 0);
    assert_eq!(buffer.visible_start_at(1, 1), 1);
    assert_eq!(buffer.visible_start_at(1, 2), 0);
    assert_eq!(buffer.max_scrollback(1), 2);
}
