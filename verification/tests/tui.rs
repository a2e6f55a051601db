use gridterm::buffer::Cell;
use gridterm::layout::Rect;
use gridterm::style::{Color, Style};
use gridterm::tui::{pane_area, pane_border, pane_inner_size, row_spans, terminal_key, TermAction, TermKey};

fn bytes(action: TermAction) -> Vec<u8> {
    match action {
        TermAction::Send(b) => b,
        other => panic!("expected bytes, got {:?}", other),
    }
}

#[test]
fn terminal_keys_switch_and_quit() {
    assert!(matches!(terminal_key(1, 4, TermKey::Char('q'), true), (1, TermAction::Quit)));
    assert!(matches!(terminal_key(3, 4, TermKey::Tab, false), (0, TermAction::Nothing)));
    assert!(matches!(terminal_key(0, 4, TermKey::BackTab, false), (3, TermAction::Nothing)));
    assert!(matches!(terminal_key(2, 4, TermKey::BackTab, false), (1, TermAction::Nothing)));
    assert!(matches!(terminal_key(0, 0, TermKey::Tab, false), (0, TermAction::Nothing)));
    assert!(matches!(terminal_key(0, 0, TermKey::BackTab, false), (0, TermAction::Nothing)));
}

#[test]
fn terminal_keys_send_bytes() {
    assert_eq!(bytes(terminal_key(0, 2, TermKey::Char('c'), true).1), vec![3]);
    assert!(matches!(terminal_key(0, 2, TermKey::Char('q'), false).1, TermAction::SendChar('q')));
    assert!(matches!(terminal_key(0, 2, TermKey::Char('1'), true).1, TermAction::SendChar('1')));
    assert_eq!(bytes(terminal_key(0, 2, TermKey::Enter, false).1), b"\r".to_vec());
    assert_eq!(bytes(terminal_key(0, 2, TermKey::Backspace, false).1), b"\x7f".to_vec());
    assert_eq!(bytes(terminal_key(0, 2, TermKey::Left, false).1), b"\x1b[D".to_vec());
    assert_eq!(bytes(terminal_key(0, 2, TermKey::Right, false).1), b"\x1b[C".to_vec());
    assert_eq!(bytes(terminal_key(0, 2, TermKey::Up, false).1), b"\x1b[A".to_vec());
    assert_eq!(bytes(terminal_key(0, 2, TermKey::Down, false).1), b"\x1b[B".to_vec());
    assert_eq!(bytes(terminal_key(0, 2, TermKey::Delete, false).1), b"\x1b[3~".to_vec());
    assert_eq!(bytes(terminal_key(0, 2, TermKey::Home, false).1), b"\x1b[H".to_vec());
    assert_eq!(bytes(terminal_key(0, 2, TermKey::End, false).1), b"\x1b[F".to_vec());
    assert_eq!(bytes(terminal_key(0, 2, TermKey::Esc, false).1), b"\x1b".to_vec());
    assert!(matches!(terminal_key(1, 2, TermKey::Other, false), (1, TermAction::Nothing)));
}

#[test]
fn pane_areas_and_sizes() {
    let full = Rect { x: 0, y: 0, width: 80, height: 24 };
    let chunks = vec![
        Rect { x: 0, y: 0, width: 40, height: 24 },
        Rect { x: 40, y: 0, width: 40, height: 24 },
    ];
    assert_eq!(pane_area(&chunks, 1, full), chunks[1]);
    assert_eq!(pane_area(&chunks, 5, full), chunks[1]);
    assert_eq!(pane_area(&vec![], 0, full), full);
    assert_eq!(pane_inner_size(chunks[0]), (38, 22));
    assert_eq!(pane_inner_size(Rect { x: 0, y: 0, width: 2, height: 3 }), (1, 1));
}

#[test]
fn border_labels_and_colours() {
    let (label, style) = pane_border(0, 0);
    assert_eq!(label, " 1 ");
    assert_eq!(style.fg, Some(Color::LightGreen));
    let (label, style) = pane_border(11, 0);
    assert_eq!(label, " 12 ");
    assert_eq!(style.fg, Some(Color::DarkGray));
}

#[test]
fn rows_are_cut_where_style_changes() {
    let red = Style::plain().with_fg(Color::Red);
    let row = vec![
        Cell::new('a', Style::plain()),
        Cell::new('b', Style::plain()),
        Cell::new('c', red),
        Cell::new('d', red),
        Cell::new('e', Style::plain()),
    ];
    let spans = row_spans(&row);
    assert_eq!(
        spans,
        vec![
            ("ab".to_string(), Style::plain()),
            ("cd".to_string(), red),
            ("e".to_string(), Style::plain()),
        ]
    );
    assert!(row_spans(&vec![]).is_empty());
    let first_red = row_spans(&vec![Cell::new('x', red)]);
    assert_eq!(first_red, vec![("x".to_string(), red)]);
}

#[test]
fn spans_hold_the_row_in_order() {
    let red = Style::plain().with_fg(Color::Red);
    let row: Vec<Cell> = "hello world"
        .chars()
        .enumerate()
        .map(|(i, c)| Cell::new(c, if i % 3 == 0 { red } else { Style::plain() }))
        .collect();
    let spans = row_spans(&row);
    let joined: String = spans.iter().map(|(t, _)| t.as_str()).collect();
    assert_eq!(joined, "hello world");
    assert!(spans.iter().all(|(t, _)| !t.is_empty()));
    for pair in spans.windows(2) {
        assert_ne!(pair[0].1, pair[1].1);
    }
}

#[test]
fn tab_then_back_tab_returns() {
    for count in 1..5usize {
        for active in 0..count {
            let (next, _) = terminal_key(active, count, TermKey::Tab, false);
            assert!(next < count);
            let (back, _) = terminal_key(next, count, TermKey::BackTab, false);
            assert_eq!(back, active);
        }
    }
}
