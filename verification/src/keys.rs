//! What keys do: which pane is active, what is sent to it, how far each pane
//! is scrolled back, and the editing of a pane's title.
use vstd::prelude::*;
use vstd::slice::slice_to_vec;
use crate::text::{lower, lower_chars, lower_seq, trim, trim_spec, str_eq};

verus! {

// ---------------------------------------------------------------------------
// Scrolling

/// The offsets with the `active` one moved by `delta` lines (back for
/// positive `delta`), saturating at 0 and at `usize::MAX`.
pub open spec fn adjust_scroll_spec(offsets: Seq<usize>, active: int, delta: i32) -> Seq<usize> {
    if 0 <= active < offsets.len() {
        let v = offsets[active] as int;
        let moved = if delta >= 0 {
            if v + delta > usize::MAX { usize::MAX as int } else { v + delta }
        } else {
            if v + delta < 0 { 0 } else { v + delta }
        };
        offsets.update(active, moved as usize)
    } else {
        offsets
    }
}

pub open spec fn reset_scroll_spec(offsets: Seq<usize>, active: int) -> Seq<usize> {
    if 0 <= active < offsets.len() {
        offsets.update(active, 0)
    } else {
        offsets
    }
}

/// Scrolls the active pane back by `delta` lines (forward for negative ones).
pub fn adjust_scroll(scroll_offsets: &mut Vec<usize>, active: usize, delta: i32)
    ensures
        final(scroll_offsets)@ == adjust_scroll_spec(old(scroll_offsets)@, active as int, delta),
{
    if active < scroll_offsets.len() {
        let offset = scroll_offsets[active];
        let moved = if delta >= 0 {
            offset.saturating_add(delta as usize)
        } else {
            let back: i64 = -(delta as i64);
            offset.saturating_sub(back as usize)
        };
        scroll_offsets.set(active, moved);
    }
}

/// Scrolls the active pane back to the newest output.
pub fn reset_scroll(scroll_offsets: &mut Vec<usize>, active: usize)
    ensures
        final(scroll_offsets)@ == reset_scroll_spec(old(scroll_offsets)@, active as int),
{
    if active < scroll_offsets.len() {
        scroll_offsets.set(active, 0);
    }
}

/// Scrolls every pane back to its newest output.
pub fn reset_all_scroll(scroll_offsets: &mut Vec<usize>)
    ensures
        final(scroll_offsets)@ == Seq::new(old(scroll_offsets)@.len(), |i: int| 0usize),
{
    let mut i: usize = 0;
    while i < scroll_offsets.len()
        invariant
            i <= scroll_offsets@.len(),
            scroll_offsets@.len() == old(scroll_offsets)@.len(),
            forall|k: int| 0 <= k < i ==> #[trigger] scroll_offsets@[k] == 0,
        decreases scroll_offsets@.len() - i,
    {
        scroll_offsets.set(i, 0);
        i = i + 1;
    }
    assert(scroll_offsets@ =~= Seq::new(old(scroll_offsets)@.len(), |i: int| 0usize));
}

/// Scrolling back and then forward by the same amount returns to where the
/// pane was, when the first step did not saturate.
pub proof fn scroll_back_and_forth(offsets: Seq<usize>, active: int, delta: i32)
    requires
        0 <= active < offsets.len(),
        0 <= delta,
        offsets[active] + delta <= usize::MAX,
    ensures
        adjust_scroll_spec(adjust_scroll_spec(offsets, active, delta), active, -delta as i32)
            == offsets,
{
    assert(adjust_scroll_spec(adjust_scroll_spec(offsets, active, delta), active, -delta as i32)
        =~= offsets);
}

// ---------------------------------------------------------------------------
// Switching panes

/// The pane after the active one, wrapping around.
pub open spec fn next_pane(active: nat, count: nat) -> nat {
    ((active + 1) as nat % count) as nat
}

/// The pane before the active one, wrapping around.
pub open spec fn previous_pane(active: nat, count: nat) -> nat {
    if active == 0 { (count - 1) as nat } else { (active - 1) as nat }
}

/// Going to the next pane and then to the previous one returns to the
/// pane one started from, and the other way round.
pub proof fn next_and_previous_undo(active: nat, count: nat)
    requires
        active < count,
    ensures
        previous_pane(next_pane(active, count), count) == active,
        next_pane(previous_pane(active, count), count) == active,
        next_pane(active, count) < count,
        previous_pane(active, count) < count,
{
    if active + 1 < count {
        vstd::arithmetic::div_mod::lemma_small_mod((active + 1) as nat, count);
    } else {
        vstd::arithmetic::div_mod::lemma_mod_self_0(count as int);
    }
    if active == 0 {
        vstd::arithmetic::div_mod::lemma_mod_self_0(count as int);
    } else {
        vstd::arithmetic::div_mod::lemma_small_mod(active, count);
    }
}

// ---------------------------------------------------------------------------
// Control characters

/// The control character typed with Ctrl and a letter: Ctrl-A is 1, Ctrl-Z 26.
pub open spec fn control_code(c: char) -> Option<u8> {
    let l = lower(c);
    if 'a' <= l && l <= 'z' {
        Some(((l as u32) - 96) as u8)
    } else {
        None
    }
}

proof fn lemma_control_mask(v: u8)
    requires
        97 <= v <= 122,
    ensures
        v & 0x1f == v - 96,
{
    assert(v & 0x1f == v - 96) by (bit_vector)
        requires
            97 <= v <= 122,
    ;
}

fn control_of(c: char) -> (r: Option<u8>)
    ensures
        r == control_code(c),
{
    let l = crate::text::to_lower(c);
    if 'a' <= l && l <= 'z' {
        let v = l as u8;
        proof {
            lemma_control_mask(v);
        }
        Some(v & 0x1f)
    } else {
        None
    }
}

/// The control character of a typed text that is a single letter.
pub fn control_byte(text: &str) -> (r: Option<u8>)
    ensures
        r == (if text@.len() == 1 { control_code(text@[0]) } else { None }),
{
    if text.unicode_len() != 1 {
        return None;
    }
    control_of(text.get_char(0))
}

/// The control character of a key typed in the terminal view, when Ctrl is held.
pub fn control_byte_for(c: char, control: bool) -> (r: Option<u8>)
    ensures
        r == (if control { control_code(c) } else { None }),
{
    if !control {
        return None;
    }
    control_of(c)
}

// ---------------------------------------------------------------------------
// Keys of the window

/// Keys the window tells apart by name.
#[derive(Clone, Copy, Debug, PartialEq, Eq, Structural)]
pub enum NamedKey {
    Enter,
    Escape,
    Backspace,
    Space,
    Tab,
    ArrowLeft,
    ArrowRight,
    ArrowUp,
    ArrowDown,
    Delete,
    Home,
    End,
    PageUp,
    PageDown,
    Other,
}

/// A key as the window reports it: named, the text it types, or neither.
#[derive(Clone, Debug)]
pub enum Key {
    Named(NamedKey),
    Character(String),
    Unidentified,
}

/// The modifier keys held.
#[derive(Clone, Copy, Debug, PartialEq, Eq, Structural)]
pub struct Modifiers {
    pub control: bool,
    pub shift: bool,
}

/// What the window has to do after a key.
#[derive(Clone, Debug)]
pub enum KeyEffect {
    Nothing,
    Exit,
    /// Send the bytes to the active pane.
    Send(Vec<u8>),
    ClosePane,
    RestartPane,
    /// The active pane's title becomes this.
    SetTitle(String),
    FontLarger,
    FontSmaller,
    FontReset,
    /// Send the clipboard's text to the active pane (resetting its scroll)
    /// if the clipboard has text.
    Paste,
}

/// The effect as a mathematical value.
pub enum Effect {
    Nothing,
    Exit,
    Send(Seq<u8>),
    ClosePane,
    RestartPane,
    SetTitle(Seq<char>),
    FontLarger,
    FontSmaller,
    FontReset,
    Paste,
}

pub open spec fn effect_view(e: KeyEffect) -> Effect {
    match e {
        KeyEffect::Nothing => Effect::Nothing,
        KeyEffect::Exit => Effect::Exit,
        KeyEffect::Send(bytes) => Effect::Send(bytes@),
        KeyEffect::ClosePane => Effect::ClosePane,
        KeyEffect::RestartPane => Effect::RestartPane,
        KeyEffect::SetTitle(t) => Effect::SetTitle(t@),
        KeyEffect::FontLarger => Effect::FontLarger,
        KeyEffect::FontSmaller => Effect::FontSmaller,
        KeyEffect::FontReset => Effect::FontReset,
        KeyEffect::Paste => Effect::Paste,
    }
}

/// The state keys change: the active pane, the title being typed, if any,
/// and how far each pane is scrolled back.
pub struct InputState {
    pub active: usize,
    pub rename: Option<String>,
    pub scroll_offsets: Vec<usize>,
}

pub struct InputModel {
    pub active: nat,
    pub rename: Option<Seq<char>>,
    pub scroll: Seq<usize>,
}

pub open spec fn opt_string(s: Option<String>) -> Option<Seq<char>> {
    match s {
        Some(v) => Some(v@),
        None => None,
    }
}

pub open spec fn input_view(s: InputState) -> InputModel {
    InputModel { active: s.active as nat, rename: opt_string(s.rename), scroll: s.scroll_offsets@ }
}

/// The bytes a named key sends to the shell, for the keys that send any.
pub open spec fn named_key_bytes(key: NamedKey) -> Option<Seq<u8>> {
    match key {
        NamedKey::Enter => Some(seq![0x0du8]),
        NamedKey::Backspace => Some(seq![0x7fu8]),
        NamedKey::ArrowLeft => Some(seq![0x1bu8, 0x5bu8, 0x44u8]),
        NamedKey::ArrowRight => Some(seq![0x1bu8, 0x5bu8, 0x43u8]),
        NamedKey::ArrowUp => Some(seq![0x1bu8, 0x5bu8, 0x41u8]),
        NamedKey::ArrowDown => Some(seq![0x1bu8, 0x5bu8, 0x42u8]),
        NamedKey::Delete => Some(seq![0x1bu8, 0x5bu8, 0x33u8, 0x7eu8]),
        NamedKey::Home => Some(seq![0x1bu8, 0x5bu8, 0x48u8]),
        NamedKey::End => Some(seq![0x1bu8, 0x5bu8, 0x46u8]),
        NamedKey::Escape => Some(seq![0x1bu8]),
        _ => None,
    }
}

fn named_bytes(key: NamedKey) -> (r: Option<Vec<u8>>)
    ensures
        match r {
            Some(v) => named_key_bytes(key) == Some(v@),
            None => named_key_bytes(key) is None,
        },
{
    let r = match key {
        NamedKey::Enter => Some(vec![0x0du8]),
        NamedKey::Backspace => Some(vec![0x7fu8]),
        NamedKey::ArrowLeft => Some(vec![0x1bu8, 0x5bu8, 0x44u8]),
        NamedKey::ArrowRight => Some(vec![0x1bu8, 0x5bu8, 0x43u8]),
        NamedKey::ArrowUp => Some(vec![0x1bu8, 0x5bu8, 0x41u8]),
        NamedKey::ArrowDown => Some(vec![0x1bu8, 0x5bu8, 0x42u8]),
        NamedKey::Delete => Some(vec![0x1bu8, 0x5bu8, 0x33u8, 0x7eu8]),
        NamedKey::Home => Some(vec![0x1bu8, 0x5bu8, 0x48u8]),
        NamedKey::End => Some(vec![0x1bu8, 0x5bu8, 0x46u8]),
        NamedKey::Escape => Some(vec![0x1bu8]),
        _ => None,
    };
    proof {
        if r is Some {
            assert(named_key_bytes(key) == Some(r->0@));
        }
    }
    r
}

/// The result of a key in the title editor: Enter commits a title that is
/// not blank (trimmed) and leaves the editor, Escape leaves it, Backspace
/// drops the last character, Space and text typed without Ctrl are added.
pub open spec fn rename_step(
    value: Seq<char>,
    key: KeyModel,
    mods: Modifiers,
) -> (Option<Seq<char>>, Effect) {
    match key {
        KeyModel::Named(NamedKey::Enter) => (
            None,
            if trim_spec(value).len() > 0 { Effect::SetTitle(trim_spec(value)) } else { Effect::Nothing },
        ),
        KeyModel::Named(NamedKey::Escape) => (None, Effect::Nothing),
        KeyModel::Named(NamedKey::Backspace) => (
            Some(if value.len() > 0 { value.drop_last() } else { value }),
            Effect::Nothing,
        ),
        KeyModel::Named(NamedKey::Space) => (Some(value.push(' ')), Effect::Nothing),
        KeyModel::Character(text) => if !mods.control {
            (Some(value + text), Effect::Nothing)
        } else {
            (Some(value), Effect::Nothing)
        },
        _ => (Some(value), Effect::Nothing),
    }
}

/// A key as a mathematical value.
pub enum KeyModel {
    Named(NamedKey),
    Character(Seq<char>),
    Unidentified,
}

pub open spec fn key_view(k: Key) -> KeyModel {
    match k {
        Key::Named(n) => KeyModel::Named(n),
        Key::Character(s) => KeyModel::Character(s@),
        Key::Unidentified => KeyModel::Unidentified,
    }
}

/// The UTF-8 bytes of a text.
pub open spec fn utf8(s: Seq<char>) -> Seq<u8> {
    vstd::utf8::encode_utf8(s)
}

/// The result of a typed text outside the title editor, in the order the
/// window checks: Ctrl-Q exits, Ctrl-W closes the pane, Ctrl-Shift-R restarts
/// it, Ctrl-R edits its title, Ctrl-+ (or =), Ctrl-- and Ctrl-0 change the
/// font size, Ctrl-Shift-V pastes, Ctrl with a letter sends its control
/// character; anything else sends the text typed.
pub open spec fn text_step(
    st: InputModel,
    text: Seq<char>,
    typed: Option<Seq<char>>,
    mods: Modifiers,
    title: Seq<char>,
) -> (InputModel, Effect) {
    let low = lower_seq(text);
    let reset = InputModel { scroll: reset_scroll_spec(st.scroll, st.active as int), ..st };
    let reset_all = InputModel { scroll: Seq::new(st.scroll.len(), |i: int| 0usize), ..st };
    if mods.control && low == seq!['q'] {
        (st, Effect::Exit)
    } else if mods.control && low == seq!['w'] {
        (reset, Effect::ClosePane)
    } else if mods.control && mods.shift && low == seq!['r'] {
        (reset, Effect::RestartPane)
    } else if mods.control && low == seq!['r'] {
        (InputModel { rename: Some(title), ..st }, Effect::Nothing)
    } else if mods.control && (text == seq!['+'] || text == seq!['=']) {
        (reset_all, Effect::FontLarger)
    } else if mods.control && text == seq!['-'] {
        (reset_all, Effect::FontSmaller)
    } else if mods.control && text == seq!['0'] {
        (reset_all, Effect::FontReset)
    } else if mods.control && mods.shift && low == seq!['v'] {
        (st, Effect::Paste)
    } else if mods.control {
        match (if text.len() == 1 { control_code(text[0]) } else { None }) {
            Some(b) => (reset, Effect::Send(seq![b])),
            None => (st, Effect::Nothing),
        }
    } else {
        match typed {
            Some(t) => (reset, Effect::Send(utf8(t))),
            None => (reset, Effect::Send(utf8(text))),
        }
    }
}

/// The result of a key: nothing unless it is a press and there are panes;
/// the title editor takes every key while it is open; otherwise Space and
/// the named keys send their bytes (and scroll the pane to its newest
/// output), Tab and Shift-Tab go to the next and previous pane, Page Up and
/// Page Down scroll by ten lines, and text goes by `text_step`.
pub open spec fn key_step(
    st: InputModel,
    key: KeyModel,
    typed: Option<Seq<char>>,
    mods: Modifiers,
    pressed: bool,
    pane_count: nat,
    title: Seq<char>,
) -> (InputModel, Effect) {
    let reset = InputModel { scroll: reset_scroll_spec(st.scroll, st.active as int), ..st };
    if !pressed || pane_count == 0 {
        (st, Effect::Nothing)
    } else if st.rename is Some {
        let (rename, effect) = rename_step(st.rename->0, key, mods);
        (InputModel { rename, ..st }, effect)
    } else {
        match key {
            KeyModel::Named(NamedKey::Space) => (reset, Effect::Send(seq![0x20u8])),
            KeyModel::Named(NamedKey::Tab) => if mods.shift {
                (InputModel { active: previous_pane(st.active, pane_count), ..st }, Effect::Nothing)
            } else {
                (InputModel { active: next_pane(st.active, pane_count), ..st }, Effect::Nothing)
            },
            KeyModel::Named(NamedKey::PageUp) => (
                InputModel { scroll: adjust_scroll_spec(st.scroll, st.active as int, 10), ..st },
                Effect::Nothing,
            ),
            KeyModel::Named(NamedKey::PageDown) => (
                InputModel { scroll: adjust_scroll_spec(st.scroll, st.active as int, -10i32), ..st },
                Effect::Nothing,
            ),
            KeyModel::Named(named) => match named_key_bytes(named) {
                Some(bytes) => (reset, Effect::Send(bytes)),
                None => (st, Effect::Nothing),
            },
            KeyModel::Character(text) => text_step(st, text, typed, mods, title),
            KeyModel::Unidentified => (st, Effect::Nothing),
        }
    }
}

/// The UTF-8 bytes of `s`.
pub fn utf8_bytes(s: &str) -> (r: Vec<u8>)
    ensures
        r@ == utf8(s@),
{
    slice_to_vec(s.as_bytes())
}

/// std's `String::pop`.
///
/// Trusted: the contract claims what its documentation says: the last
/// character is removed, if there is one.
#[verifier::external_body]
fn pop_char(s: &mut String)
    ensures
        final(s)@ == (if old(s)@.len() > 0 { old(s)@.drop_last() } else { old(s)@ }),
{
    s.pop();
}

fn rename_key(value: &mut String, key: &Key, mods: Modifiers) -> (r: (bool, KeyEffect))
    ensures
        (if r.0 { Some(final(value)@) } else { None }, effect_view(r.1)) == rename_step(
            old(value)@,
            key_view(*key),
            mods,
        ),
{
    match key {
        Key::Named(NamedKey::Enter) => {
            let trimmed = trim(value.as_str());
            if !trimmed.is_empty() {
                (false, KeyEffect::SetTitle(trimmed.to_owned()))
            } else {
                (false, KeyEffect::Nothing)
            }
        },
        Key::Named(NamedKey::Escape) => (false, KeyEffect::Nothing),
        Key::Named(NamedKey::Backspace) => {
            pop_char(value);
            (true, KeyEffect::Nothing)
        },
        Key::Named(NamedKey::Space) => {
            value.append(" ");
            proof {
                reveal_strlit(" ");
            }
            (true, KeyEffect::Nothing)
        },
        Key::Character(text) => {
            if !mods.control {
                value.append(text.as_str());
            }
            (true, KeyEffect::Nothing)
        },
        _ => (true, KeyEffect::Nothing),
    }
}

fn is_lit(text: &Vec<char>, c: char) -> (r: bool)
    ensures
        r == (text@ == seq![c]),
{
    if text.len() == 1 && text[0] == c {
        assert(text@ =~= seq![c]);
        true
    } else {
        false
    }
}

fn text_key(
    state: &mut InputState,
    text: &String,
    typed: Option<&str>,
    mods: Modifiers,
    title: &str,
) -> (e: KeyEffect)
    ensures
        (input_view(*final(state)), effect_view(e)) == text_step(
            input_view(*old(state)),
            text@,
            match typed {
                Some(t) => Some(t@),
                None => None,
            },
            mods,
            title@,
        ),
{
    let low = lower_chars(text.as_str());
    let chars = crate::text::chars_of(text.as_str());
    let ghost st = input_view(*state);
    if mods.control && is_lit(&low, 'q') {
        KeyEffect::Exit
    } else if mods.control && is_lit(&low, 'w') {
        reset_scroll(&mut state.scroll_offsets, state.active);
        KeyEffect::ClosePane
    } else if mods.control && mods.shift && is_lit(&low, 'r') {
        reset_scroll(&mut state.scroll_offsets, state.active);
        KeyEffect::RestartPane
    } else if mods.control && is_lit(&low, 'r') {
        state.rename = Some(title.to_owned());
        KeyEffect::Nothing
    } else if mods.control && (is_lit(&chars, '+') || is_lit(&chars, '=')) {
        reset_all_scroll(&mut state.scroll_offsets);
        KeyEffect::FontLarger
    } else if mods.control && is_lit(&chars, '-') {
        reset_all_scroll(&mut state.scroll_offsets);
        KeyEffect::FontSmaller
    } else if mods.control && is_lit(&chars, '0') {
        reset_all_scroll(&mut state.scroll_offsets);
        KeyEffect::FontReset
    } else if mods.control && mods.shift && is_lit(&low, 'v') {
        KeyEffect::Paste
    } else if mods.control {
        match control_byte(text.as_str()) {
            Some(b) => {
                reset_scroll(&mut state.scroll_offsets, state.active);
                let v = vec![b];
                assert(v@ =~= seq![b]);
                KeyEffect::Send(v)
            },
            None => KeyEffect::Nothing,
        }
    } else {
        reset_scroll(&mut state.scroll_offsets, state.active);
        match typed {
            Some(t) => KeyEffect::Send(utf8_bytes(t)),
            None => KeyEffect::Send(utf8_bytes(text.as_str())),
        }
    }
}

/// Handles a key of the window: `typed` is the text the key types, if the
/// window reports one; `title` is the active pane's title.
pub fn handle_key(
    state: &mut InputState,
    key: &Key,
    typed: Option<&str>,
    mods: Modifiers,
    pressed: bool,
    pane_count: usize,
    title: &str,
) -> (e: KeyEffect)
    requires
        old(state).active < pane_count || old(state).active == 0,
    ensures
        (input_view(*final(state)), effect_view(e)) == key_step(
            input_view(*old(state)),
            key_view(*key),
            match typed {
                Some(t) => Some(t@),
                None => None,
            },
            mods,
            pressed,
            pane_count as nat,
            title@,
        ),
        final(state).active < pane_count || final(state).active == old(state).active,
{
    if !pressed || pane_count == 0 {
        return KeyEffect::Nothing;
    }
    if state.rename.is_some() {
        let mut value = state.rename.take().unwrap();
        let (keep, effect) = rename_key(&mut value, key, mods);
        if keep {
            state.rename = Some(value);
        }
        return effect;
    }
    proof {
        next_and_previous_undo(state.active as nat, pane_count as nat);
    }
    match key {
        Key::Named(NamedKey::Space) => {
            reset_scroll(&mut state.scroll_offsets, state.active);
            let v = vec![0x20u8];
            assert(v@ =~= seq![0x20u8]);
            KeyEffect::Send(v)
        },
        Key::Named(NamedKey::Tab) => {
            state.active = if mods.shift {
                if state.active == 0 { pane_count - 1 } else { state.active - 1 }
            } else {
                (state.active + 1) % pane_count
            };
            KeyEffect::Nothing
        },
        Key::Named(NamedKey::PageUp) => {
            adjust_scroll(&mut state.scroll_offsets, state.active, 10);
            KeyEffect::Nothing
        },
        Key::Named(NamedKey::PageDown) => {
            adjust_scroll(&mut state.scroll_offsets, state.active, -10);
            KeyEffect::Nothing
        },
        Key::Named(named) => match named_bytes(*named) {
            Some(bytes) => {
                reset_scroll(&mut state.scroll_offsets, state.active);
                KeyEffect::Send(bytes)
            },
            None => KeyEffect::Nothing,
        },
        Key::Character(text) => text_key(state, text, typed, mods, title),
        Key::Unidentified => KeyEffect::Nothing,
    }
}

/// Keys reach the active pane only: a key leaves every other pane's scroll
/// offset as it was, but for the font keys, which scroll every pane to its
/// newest output; and only Tab and Shift-Tab change which pane is active.
pub proof fn keys_touch_only_active_pane(
    st: InputModel,
    key: KeyModel,
    typed: Option<Seq<char>>,
    mods: Modifiers,
    pressed: bool,
    pane_count: nat,
    title: Seq<char>,
    i: int,
)
    requires
        0 <= i < st.scroll.len(),
        i != st.active,
    ensures
        ({
            let (next, effect) = key_step(st, key, typed, mods, pressed, pane_count, title);
            &&& next.scroll.len() == st.scroll.len()
            &&& (next.scroll[i] == st.scroll[i] || effect is FontLarger || effect is FontSmaller
                || effect is FontReset)
            &&& (next.active != st.active ==> key == KeyModel::Named(NamedKey::Tab))
        }),
{
}

/// Ctrl with a letter, when no title is being typed: without Shift, every
/// letter but q, w and r (in either case) sends its control character to
/// the active pane (Ctrl-A is 1, Ctrl-Z is 26) and scrolls that pane to its
/// newest output; with Shift, v pastes, and the letters other than q, w, r
/// and v also send their control character. Ctrl-Q exits, Ctrl-W closes the
/// pane, Ctrl-Shift-R restarts it and Ctrl-R starts editing its title from
/// the current one.
pub proof fn ctrl_letters_send_control_bytes(
    st: InputModel,
    c: char,
    typed: Option<Seq<char>>,
    shift: bool,
    pane_count: nat,
    title: Seq<char>,
)
    requires
        st.rename is None,
        pane_count > 0,
        ('a' <= c && c <= 'z') || ('A' <= c && c <= 'Z'),
    ensures
        ({
            let letter: int = if c <= 'Z' { c as int - 'A' as int } else { c as int - 'a' as int };
            let (next, effect) = key_step(
                st,
                KeyModel::Character(seq![c]),
                typed,
                Modifiers { control: true, shift },
                true,
                pane_count,
                title,
            );
            let plain_letter = letter != 16 && letter != 22 && letter != 17;
            &&& (!shift && plain_letter) ==> effect == Effect::Send(seq![(letter + 1) as u8])
                && next == (InputModel { scroll: reset_scroll_spec(st.scroll, st.active as int), ..st })
            &&& (shift && letter == 21) ==> effect == Effect::Paste && next == st
            &&& (shift && plain_letter && letter != 21) ==> effect == Effect::Send(seq![(letter + 1) as u8])
            &&& letter == 16 ==> effect == Effect::Exit && next == st
            &&& letter == 22 ==> effect == Effect::ClosePane && next == (InputModel {
                scroll: reset_scroll_spec(st.scroll, st.active as int),
                ..st
            })
            &&& (letter == 17 && shift) ==> effect == Effect::RestartPane
            &&& (letter == 17 && !shift) ==> effect == Effect::Nothing && next == (InputModel {
                rename: Some(title),
                ..st
            })
        }),
{
    let letter: int = if c <= 'Z' { c as int - 'A' as int } else { c as int - 'a' as int };
    let l = lower(c);
    assert(l as int == letter + 97);
    let low = lower_seq(seq![c]);
    assert(low =~= seq![l]);
    assert(seq![c].len() == 1 && seq![c][0] == c);
    assert(control_code(c) == Some((letter + 1) as u8));
    assert((low == seq!['q']) == (letter == 16)) by {
        if low == seq!['q'] {
            assert(low[0] == 'q');
        }
    }
    assert((low == seq!['w']) == (letter == 22)) by {
        if low == seq!['w'] {
            assert(low[0] == 'w');
        }
    }
    assert((low == seq!['r']) == (letter == 17)) by {
        if low == seq!['r'] {
            assert(low[0] == 'r');
        }
    }
    assert((low == seq!['v']) == (letter == 21)) by {
        if low == seq!['v'] {
            assert(low[0] == 'v');
        }
    }
    assert(seq![c] != seq!['+'] && seq![c] != seq!['='] && seq![c] != seq!['-'] && seq![c] != seq!['0']) by {
        assert(seq!['+'][0] == '+');
        assert(seq!['='][0] == '=');
        assert(seq!['-'][0] == '-');
        assert(seq!['0'][0] == '0');
    }
}

/// The named keys, pressed while no title is being typed: Tab goes to the
/// next pane and Shift-Tab to the previous one, wrapping around; Page Up
/// scrolls the active pane ten lines back and Page Down ten lines forward,
/// not past its newest output; Space, Enter, Backspace, the arrows, Delete,
/// Home, End and Escape send a space, CR, DEL, ESC [ D, C, A and B, ESC [ 3 ~,
/// ESC [ H, ESC [ F and ESC to the active pane and scroll it to its newest
/// output.
pub proof fn window_named_keys(
    st: InputModel,
    typed: Option<Seq<char>>,
    mods: Modifiers,
    pane_count: nat,
    title: Seq<char>,
)
    requires
        st.rename is None,
        st.active < pane_count,
        st.active < st.scroll.len(),
        st.scroll[st.active as int] + 10 <= usize::MAX,
    ensures
        ({
            let step = |k: NamedKey| key_step(st, KeyModel::Named(k), typed, mods, true, pane_count, title);
            let a = st.active as int;
            let sends = |k: NamedKey, bytes: Seq<u8>|
                step(k).1 == Effect::Send(bytes) && step(k).0.active == st.active && step(k).0.scroll
                    == st.scroll.update(a, 0usize);
            &&& !mods.shift ==> step(NamedKey::Tab).0.active == (if st.active + 1 == pane_count {
                0
            } else {
                st.active + 1
            })
            &&& mods.shift ==> step(NamedKey::Tab).0.active == (if st.active == 0 {
                pane_count - 1
            } else {
                st.active - 1
            })
            &&& step(NamedKey::PageUp).0.scroll == st.scroll.update(a, (st.scroll[a] + 10) as usize)
            &&& step(NamedKey::PageDown).0.scroll == st.scroll.update(
                a,
                (if st.scroll[a] >= 10 { st.scroll[a] - 10 } else { 0 }) as usize,
            )
            &&& sends(NamedKey::Space, seq![0x20u8])
            &&& sends(NamedKey::Enter, seq![0x0du8])
            &&& sends(NamedKey::Backspace, seq![0x7fu8])
            &&& sends(NamedKey::ArrowLeft, seq![0x1bu8, 0x5bu8, 0x44u8])
            &&& sends(NamedKey::ArrowRight, seq![0x1bu8, 0x5bu8, 0x43u8])
            &&& sends(NamedKey::ArrowUp, seq![0x1bu8, 0x5bu8, 0x41u8])
            &&& sends(NamedKey::ArrowDown, seq![0x1bu8, 0x5bu8, 0x42u8])
            &&& sends(NamedKey::Delete, seq![0x1bu8, 0x5bu8, 0x33u8, 0x7eu8])
            &&& sends(NamedKey::Home, seq![0x1bu8, 0x5bu8, 0x48u8])
            &&& sends(NamedKey::End, seq![0x1bu8, 0x5bu8, 0x46u8])
            &&& sends(NamedKey::Escape, seq![0x1bu8])
        }),
{
    if st.active + 1 == pane_count {
        vstd::arithmetic::div_mod::lemma_mod_self_0(pane_count as int);
    } else {
        vstd::arithmetic::div_mod::lemma_small_mod((st.active + 1) as nat, pane_count);
    }
}

// ---------------------------------------------------------------------------
// The mouse

/// A click on pane `idx` makes it the active pane and drops any title
/// being typed.
pub fn click_pane(state: &mut InputState, idx: usize)
    ensures
        input_view(*final(state)) == (InputModel {
            active: idx as nat,
            rename: None,
            ..input_view(*old(state))
        }),
{
    state.active = idx;
    state.rename = None;
}

/// The wheel turned by `lines` lines (back for positive ones) over pane
/// `target`, or over no pane: the pane under the mouse, else the active
/// one, becomes active and is scrolled.
pub fn wheel_scroll(state: &mut InputState, target: Option<usize>, lines: i32)
    ensures
        input_view(*final(state)) == ({
            let st = input_view(*old(state));
            let active = match target {
                Some(t) => t as nat,
                None => st.active,
            };
            InputModel {
                active,
                scroll: adjust_scroll_spec(st.scroll, active as int, lines),
                ..st
            }
        }),
{
    if let Some(t) = target {
        state.active = t;
    }
    adjust_scroll(&mut state.scroll_offsets, state.active, lines);
}

} // verus!
