use gridterm::keys::{
    adjust_scroll, click_pane, control_byte, control_byte_for, handle_key, reset_all_scroll,
    reset_scroll, utf8_bytes, wheel_scroll, InputState, Key, KeyEffect, Modifiers, NamedKey,
};

const NONE: Modifiers = Modifiers { control: false, shift: false };
const CTRL: Modifiers = Modifiers { control: true, shift: false };
const SHIFT: Modifiers = Modifiers { control: false, shift: true };
const CTRL_SHIFT: Modifiers = Modifiers { control: true, shift: true };

fn state(active: usize, panes: usize) -> InputState {
    InputState { active, rename: None, scroll_offsets: vec![0; panes] }
}

fn press(st: &mut InputState, key: Key, mods: Modifiers) -> KeyEffect {
    let count = st.scroll_offsets.len();
    handle_key(st, &key, None, mods, true, count, "Pane 1")
}

fn sent(effect: KeyEffect) -> Vec<u8> {
    match effect {
        KeyEffect::Send(bytes) => bytes,
        other => panic!("expected bytes, got {:?}", other),
    }
}

fn ch(s: &str) -> Key {
    Key::Character(s.to_string())
}

#[test]
fn scroll_saturates_both_ways() {
    let mut offsets = vec![0usize, 5];
    adjust_scroll(&mut offsets, 1, 10);
    assert_eq!(offsets, vec![0, 15]);
    adjust_scroll(&mut offsets, 1, -20);
    assert_eq!(offsets, vec![0, 0]);
    adjust_scroll(&mut offsets, 0, i32::MIN);
    assert_eq!(offsets, vec![0, 0]);
    let mut full = vec![usize::MAX - 1];
    adjust_scroll(&mut full, 0, 10);
    assert_eq!(full, vec![usize::MAX]);
    adjust_scroll(&mut full, 5, 10);
    assert_eq!(full, vec![usize::MAX]);
}

#[test]
fn scroll_back_then_forth_returns() {
    let mut offsets = vec![3usize, 7];
    adjust_scroll(&mut offsets, 0, 10);
    adjust_scroll(&mut offsets, 0, -10);
    assert_eq!(offsets, vec![3, 7]);
}

#[test]
fn scroll_resets() {
    let mut offsets = vec![3usize, 7, 9];
    reset_scroll(&mut offsets, 1);
    assert_eq!(offsets, vec![3, 0, 9]);
    reset_scroll(&mut offsets, 3);
    assert_eq!(offsets, vec![3, 0, 9]);
    reset_all_scroll(&mut offsets);
    assert_eq!(offsets, vec![0, 0, 0]);
}

#[test]
fn control_bytes_of_letters() {
    assert_eq!(control_byte("c"), Some(3));
    assert_eq!(control_byte("C"), Some(3));
    assert_eq!(control_byte("z"), Some(26));
    assert_eq!(control_byte("1"), None);
    assert_eq!(control_byte("ab"), None);
    assert_eq!(control_byte(""), None);
    assert_eq!(control_byte_for('a', true), Some(1));
    assert_eq!(control_byte_for('a', false), None);
    assert_eq!(control_byte_for('é', true), None);
}

#[test]
fn utf8_of_text() {
    assert_eq!(utf8_bytes("é"), vec![0xc3, 0xa9]);
    assert_eq!(utf8_bytes("ab"), vec![b'a', b'b']);
}

#[test]
fn tab_cycles_panes() {
    let mut st = state(0, 3);
    press(&mut st, Key::Named(NamedKey::Tab), NONE);
    assert_eq!(st.active, 1);
    press(&mut st, Key::Named(NamedKey::Tab), NONE);
    press(&mut st, Key::Named(NamedKey::Tab), NONE);
    assert_eq!(st.active, 0);
    press(&mut st, Key::Named(NamedKey::Tab), SHIFT);
    assert_eq!(st.active, 2);
    press(&mut st, Key::Named(NamedKey::Tab), SHIFT);
    assert_eq!(st.active, 1);
}

#[test]
fn released_keys_and_no_panes_do_nothing() {
    let mut st = state(0, 2);
    let e = handle_key(&mut st, &Key::Named(NamedKey::Tab), None, NONE, false, 2, "t");
    assert!(matches!(e, KeyEffect::Nothing));
    assert_eq!(st.active, 0);
    let mut empty = state(0, 0);
    let e = handle_key(&mut empty, &ch("q"), None, CTRL, true, 0, "t");
    assert!(matches!(e, KeyEffect::Nothing));
}

#[test]
fn named_keys_send_sequences_and_reset_scroll() {
    let mut st = state(0, 1);
    st.scroll_offsets[0] = 4;
    assert_eq!(sent(press(&mut st, Key::Named(NamedKey::Enter), NONE)), b"\r".to_vec());
    assert_eq!(st.scroll_offsets, vec![0]);
    assert_eq!(sent(press(&mut st, Key::Named(NamedKey::Backspace), NONE)), b"\x7f".to_vec());
    assert_eq!(sent(press(&mut st, Key::Named(NamedKey::ArrowLeft), NONE)), b"\x1b[D".to_vec());
    assert_eq!(sent(press(&mut st, Key::Named(NamedKey::ArrowRight), NONE)), b"\x1b[C".to_vec());
    assert_eq!(sent(press(&mut st, Key::Named(NamedKey::ArrowUp), NONE)), b"\x1b[A".to_vec());
    assert_eq!(sent(press(&mut st, Key::Named(NamedKey::ArrowDown), NONE)), b"\x1b[B".to_vec());
    assert_eq!(sent(press(&mut st, Key::Named(NamedKey::Delete), NONE)), b"\x1b[3~".to_vec());
    assert_eq!(sent(press(&mut st, Key::Named(NamedKey::Home), NONE)), b"\x1b[H".to_vec());
    assert_eq!(sent(press(&mut st, Key::Named(NamedKey::End), NONE)), b"\x1b[F".to_vec());
    assert_eq!(sent(press(&mut st, Key::Named(NamedKey::Escape), NONE)), b"\x1b".to_vec());
    assert_eq!(sent(press(&mut st, Key::Named(NamedKey::Space), NONE)), b" ".to_vec());
    assert!(matches!(press(&mut st, Key::Named(NamedKey::Other), NONE), KeyEffect::Nothing));
    assert!(matches!(press(&mut st, Key::Unidentified, NONE), KeyEffect::Nothing));
}

#[test]
fn page_keys_scroll_by_ten() {
    let mut st = state(1, 2);
    press(&mut st, Key::Named(NamedKey::PageUp), NONE);
    press(&mut st, Key::Named(NamedKey::PageUp), NONE);
    assert_eq!(st.scroll_offsets, vec![0, 20]);
    press(&mut st, Key::Named(NamedKey::PageDown), NONE);
    assert_eq!(st.scroll_offsets, vec![0, 10]);
}

#[test]
fn control_shortcuts() {
    let mut st = state(0, 2);
    st.scroll_offsets = vec![5, 6];
    assert!(matches!(press(&mut st, ch("q"), CTRL), KeyEffect::Exit));
    assert!(matches!(press(&mut st, ch("Q"), CTRL), KeyEffect::Exit));
    assert_eq!(st.scroll_offsets, vec![5, 6]);
    assert!(matches!(press(&mut st, ch("w"), CTRL), KeyEffect::ClosePane));
    assert_eq!(st.scroll_offsets, vec![0, 6]);
    st.scroll_offsets = vec![5, 6];
    assert!(matches!(press(&mut st, ch("R"), CTRL_SHIFT), KeyEffect::RestartPane));
    assert_eq!(st.scroll_offsets, vec![0, 6]);
    st.scroll_offsets = vec![5, 6];
    assert!(matches!(press(&mut st, ch("+"), CTRL), KeyEffect::FontLarger));
    assert_eq!(st.scroll_offsets, vec![0, 0]);
    assert!(matches!(press(&mut st, ch("="), CTRL), KeyEffect::FontLarger));
    assert!(matches!(press(&mut st, ch("-"), CTRL), KeyEffect::FontSmaller));
    assert!(matches!(press(&mut st, ch("0"), CTRL), KeyEffect::FontReset));
    assert!(matches!(press(&mut st, ch("v"), CTRL_SHIFT), KeyEffect::Paste));
    assert_eq!(sent(press(&mut st, ch("c"), CTRL)), vec![3]);
    assert!(matches!(press(&mut st, ch("1"), CTRL), KeyEffect::Nothing));
}

#[test]
fn typed_text_is_sent() {
    let mut st = state(0, 1);
    st.scroll_offsets = vec![2];
    let e = handle_key(&mut st, &ch("a"), Some("A"), SHIFT, true, 1, "t");
    assert_eq!(sent(e), b"A".to_vec());
    assert_eq!(st.scroll_offsets, vec![0]);
    assert_eq!(sent(press(&mut st, ch("é"), NONE)), vec![0xc3, 0xa9]);
}

#[test]
fn renaming_a_pane() {
    let mut st = state(0, 2);
    let e = handle_key(&mut st, &ch("r"), None, CTRL, true, 2, "Logs");
    assert!(matches!(e, KeyEffect::Nothing));
    assert_eq!(st.rename.as_deref(), Some("Logs"));
    press(&mut st, Key::Named(NamedKey::Backspace), NONE);
    press(&mut st, Key::Named(NamedKey::Backspace), NONE);
    assert_eq!(st.rename.as_deref(), Some("Lo"));
    press(&mut st, Key::Named(NamedKey::Space), NONE);
    press(&mut st, ch("ad"), NONE);
    press(&mut st, ch("x"), CTRL);
    press(&mut st, Key::Named(NamedKey::Tab), NONE);
    assert_eq!(st.rename.as_deref(), Some("Lo ad"));
    assert_eq!(st.active, 0);
    match press(&mut st, Key::Named(NamedKey::Enter), NONE) {
        KeyEffect::SetTitle(t) => assert_eq!(t, "Lo ad"),
        other => panic!("expected a title, got {:?}", other),
    }
    assert_eq!(st.rename, None);
}

#[test]
fn blank_or_cancelled_rename_keeps_title() {
    let mut st = state(0, 1);
    st.rename = Some("   ".to_string());
    assert!(matches!(press(&mut st, Key::Named(NamedKey::Enter), NONE), KeyEffect::Nothing));
    assert_eq!(st.rename, None);
    st.rename = Some("new".to_string());
    assert!(matches!(press(&mut st, Key::Named(NamedKey::Escape), NONE), KeyEffect::Nothing));
    assert_eq!(st.rename, None);
    st.rename = Some(String::new());
    press(&mut st, Key::Named(NamedKey::Backspace), NONE);
    assert_eq!(st.rename.as_deref(), Some(""));
}

#[test]
fn keys_leave_other_panes_alone() {
    let mut st = state(1, 3);
    st.scroll_offsets = vec![4, 5, 6];
    press(&mut st, Key::Named(NamedKey::Enter), NONE);
    press(&mut st, Key::Named(NamedKey::PageUp), NONE);
    press(&mut st, ch("x"), NONE);
    assert_eq!(st.scroll_offsets, vec![4, 0, 6]);
    assert_eq!(st.active, 1);
    press(&mut st, ch("0"), CTRL);
    assert_eq!(st.scroll_offsets, vec![0, 0, 0]);
}

#[test]
fn clicks_and_wheel_pick_panes() {
    let mut st = state(0, 3);
    st.rename = Some("typing".to_string());
    click_pane(&mut st, 2);
    assert_eq!(st.active, 2);
    assert_eq!(st.rename, None);
    st.rename = Some("typing".to_string());
    wheel_scroll(&mut st, Some(1), 3);
    assert_eq!(st.active, 1);
    assert_eq!(st.scroll_offsets, vec![0, 3, 0]);
    assert_eq!(st.rename.as_deref(), Some("typing"));
    wheel_scroll(&mut st, None, -1);
    assert_eq!(st.active, 1);
    assert_eq!(st.scroll_offsets, vec![0, 2, 0]);
}
