//! Keyboard and pointer input, as the shell's surfaces read it.

use vstd::prelude::*;

use crate::config::opt_view;
use crate::text::chars_of;

verus! {

/// The Unicode private-use areas, which keyboards use for dead keys and vendor keys.
pub open spec fn private_use(c: char) -> bool {
    let u = c as u32;
    (0xe000 <= u && u <= 0xf8ff) || (0xf0000 <= u && u <= 0xffffd) || (0x100000 <= u && u
        <= 0x10fffd)
}

/// Characters to insert as text: not an ASCII control character, not private use.
pub open spec fn printable(c: char) -> bool {
    let u = c as u32;
    !(u <= 0x1f || u == 0x7f) && !private_use(c)
}

/// See [`printable`].
pub fn is_printable_char(c: char) -> (r: bool)
    ensures
        r == printable(c),
{
    let u = c as u32;
    let private = (0xe000 <= u && u <= 0xf8ff) || (0xf0000 <= u && u <= 0xffffd) || (0x100000
        <= u && u <= 0x10fffd);
    !(u <= 0x1f || u == 0x7f) && !private
}

/// The text a key event inserts: only on press, never while Ctrl is held (Ctrl+A is
/// a command, not the letter), and only when the key produced non-empty text made of
/// printable characters (Return arrives as `"\r"`).
pub open spec fn key_text_spec(pressed: bool, ctrl: bool, utf8: Option<Seq<char>>) -> Option<
    Seq<char>,
> {
    match utf8 {
        Some(t) => if pressed && !ctrl && t.len() > 0 && forall|i: int|
            0 <= i < t.len() ==> printable(#[trigger] t[i]) {
            Some(t)
        } else {
            None
        },
        None => None,
    }
}

/// A key types no text on release, nor while Ctrl is held.
pub proof fn law_no_text_on_release_or_with_ctrl(pressed: bool, ctrl: bool, utf8: Option<Seq<char>>)
    requires
        !pressed || ctrl,
    ensures
        key_text_spec(pressed, ctrl, utf8) is None,
{
}

/// Text holding a control character (Return arrives as `"\r"`) is never typed.
pub proof fn law_control_characters_are_not_typed(pressed: bool, ctrl: bool, t: Seq<char>, i: int)
    requires
        0 <= i < t.len(),
        (t[i] as u32) <= 0x1f || (t[i] as u32) == 0x7f,
    ensures
        key_text_spec(pressed, ctrl, Some(t)) is None,
{
    assert(!printable(t[i]));
}

/// See [`key_text_spec`].
pub fn key_text(pressed: bool, ctrl: bool, utf8: Option<&str>) -> (r: Option<String>)
    ensures
        match r {
            Some(s) => key_text_spec(pressed, ctrl, crate::config::opt_view(utf8)) == Some(s@),
            None => key_text_spec(pressed, ctrl, crate::config::opt_view(utf8)) is None,
        },
{
    match utf8 {
        Some(text) => {
            if !pressed || ctrl {
                return None;
            }
            let cs = chars_of(text);
            if cs.len() == 0 {
                return None;
            }
            let mut i: usize = 0;
            while i < cs.len()
                invariant
                    i <= cs@.len(),
                    cs@ == text@,
                    cs@.len() > 0,
                    pressed && !ctrl,
                    crate::config::opt_view(utf8) == Some(text@),
                    forall|k: int| 0 <= k < i ==> printable(#[trigger] cs@[k]),
                decreases cs@.len() - i,
            {
                if !is_printable_char(cs[i]) {
                    assert(!printable(text@[i as int]));
                    return None;
                }
                i = i + 1;
            }
            Some(text.to_owned())
        },
        None => None,
    }
}

/// Linux `input-event-codes.h` button values delivered by `wl_pointer`.
pub const BTN_LEFT: u32 = 0x110;
pub const BTN_RIGHT: u32 = 0x111;
pub const BTN_MIDDLE: u32 = 0x112;
pub const BTN_SIDE: u32 = 0x113;
pub const BTN_EXTRA: u32 = 0x114;

/// A pointer button the UI knows.
#[derive(Clone, Copy, Debug, PartialEq, Eq)]
pub enum PointerButton {
    Primary,
    Secondary,
    Middle,
    Extra1,
    Extra2,
}

/// The button a `wl_pointer` button code stands for.
pub open spec fn button_spec(code: u32) -> Option<PointerButton> {
    if code == BTN_LEFT {
        Some(PointerButton::Primary)
    } else if code == BTN_RIGHT {
        Some(PointerButton::Secondary)
    } else if code == BTN_MIDDLE {
        Some(PointerButton::Middle)
    } else if code == BTN_SIDE {
        Some(PointerButton::Extra1)
    } else if code == BTN_EXTRA {
        Some(PointerButton::Extra2)
    } else {
        None
    }
}

/// See [`button_spec`].
pub fn pointer_button(code: u32) -> (r: Option<PointerButton>)
    ensures
        r == button_spec(code),
{
    if code == BTN_LEFT {
        Some(PointerButton::Primary)
    } else if code == BTN_RIGHT {
        Some(PointerButton::Secondary)
    } else if code == BTN_MIDDLE {
        Some(PointerButton::Middle)
    } else if code == BTN_SIDE {
        Some(PointerButton::Extra1)
    } else if code == BTN_EXTRA {
        Some(PointerButton::Extra2)
    } else {
        None
    }
}

/// Keysyms (`xkbcommon-keysyms.h`) of the keys that are not characters.
pub const KEY_ESCAPE: u32 = 0xff1b;
pub const KEY_TAB: u32 = 0xff09;
pub const KEY_ISO_LEFT_TAB: u32 = 0xfe20;
pub const KEY_BACKSPACE: u32 = 0xff08;
pub const KEY_RETURN: u32 = 0xff0d;
pub const KEY_KP_ENTER: u32 = 0xff8d;
pub const KEY_INSERT: u32 = 0xff63;
pub const KEY_KP_INSERT: u32 = 0xff9e;
pub const KEY_DELETE: u32 = 0xffff;
pub const KEY_KP_DELETE: u32 = 0xff9f;
pub const KEY_HOME: u32 = 0xff50;
pub const KEY_KP_HOME: u32 = 0xff95;
pub const KEY_END: u32 = 0xff57;
pub const KEY_KP_END: u32 = 0xff9c;
pub const KEY_PAGE_UP: u32 = 0xff55;
pub const KEY_KP_PAGE_UP: u32 = 0xff9a;
pub const KEY_PAGE_DOWN: u32 = 0xff56;
pub const KEY_KP_PAGE_DOWN: u32 = 0xff9b;
pub const KEY_UP: u32 = 0xff52;
pub const KEY_KP_UP: u32 = 0xff97;
pub const KEY_DOWN: u32 = 0xff54;
pub const KEY_KP_DOWN: u32 = 0xff99;
pub const KEY_LEFT: u32 = 0xff51;
pub const KEY_KP_LEFT: u32 = 0xff96;
pub const KEY_RIGHT: u32 = 0xff53;
pub const KEY_KP_RIGHT: u32 = 0xff98;
pub const KEY_F1: u32 = 0xffbe;
pub const KEY_F2: u32 = 0xffbf;
pub const KEY_F3: u32 = 0xffc0;
pub const KEY_F4: u32 = 0xffc1;
pub const KEY_F5: u32 = 0xffc2;
pub const KEY_F6: u32 = 0xffc3;
pub const KEY_F7: u32 = 0xffc4;
pub const KEY_F8: u32 = 0xffc5;
pub const KEY_F9: u32 = 0xffc6;
pub const KEY_F10: u32 = 0xffc7;
pub const KEY_F11: u32 = 0xffc8;
pub const KEY_F12: u32 = 0xffc9;
pub const KEY_SHIFT_L: u32 = 0xffe1;
pub const KEY_SHIFT_R: u32 = 0xffe2;
pub const KEY_CONTROL_L: u32 = 0xffe3;
pub const KEY_CONTROL_R: u32 = 0xffe4;
pub const KEY_ALT_L: u32 = 0xffe9;
pub const KEY_ALT_R: u32 = 0xffea;
pub const KEY_SUPER_L: u32 = 0xffeb;
pub const KEY_SUPER_R: u32 = 0xffec;

/// A key as the UI reads it.
#[derive(Clone, Copy, Debug, PartialEq, Eq)]
pub enum Key {
    Escape,
    Tab,
    Backspace,
    Enter,
    Insert,
    Delete,
    Home,
    End,
    PageUp,
    PageDown,
    ArrowUp,
    ArrowDown,
    ArrowLeft,
    ArrowRight,
    F1,
    F2,
    F3,
    F4,
    F5,
    F6,
    F7,
    F8,
    F9,
    F10,
    F11,
    F12,
    ShiftLeft,
    ShiftRight,
    ControlLeft,
    ControlRight,
    AltLeft,
    AltRight,
    SuperLeft,
    SuperRight,
    A,
    B,
    C,
    D,
    E,
    F,
    G,
    H,
    I,
    J,
    K,
    L,
    M,
    N,
    O,
    P,
    Q,
    R,
    S,
    T,
    U,
    V,
    W,
    X,
    Y,
    Z,
    Num0,
    Num1,
    Num2,
    Num3,
    Num4,
    Num5,
    Num6,
    Num7,
    Num8,
    Num9,
    Space,
    Colon,
    Comma,
    Backslash,
    Slash,
    Pipe,
    Questionmark,
    Exclamationmark,
    OpenBracket,
    CloseBracket,
    OpenCurlyBracket,
    CloseCurlyBracket,
    Backtick,
    Minus,
    Period,
    Plus,
    Equals,
    Semicolon,
    Quote,
}

/// The key of a keysym that is not a character: the editing, navigation, function
/// and modifier keys, with their keypad twins.
pub open spec fn special_key(keysym: u32) -> Option<Key> {
    if keysym == KEY_ESCAPE {
        Some(Key::Escape)
    } else if keysym == KEY_TAB {
        Some(Key::Tab)
    } else if keysym == KEY_ISO_LEFT_TAB {
        Some(Key::Tab)
    } else if keysym == KEY_BACKSPACE {
        Some(Key::Backspace)
    } else if keysym == KEY_RETURN {
        Some(Key::Enter)
    } else if keysym == KEY_KP_ENTER {
        Some(Key::Enter)
    } else if keysym == KEY_INSERT {
        Some(Key::Insert)
    } else if keysym == KEY_KP_INSERT {
        Some(Key::Insert)
    } else if keysym == KEY_DELETE {
        Some(Key::Delete)
    } else if keysym == KEY_KP_DELETE {
        Some(Key::Delete)
    } else if keysym == KEY_HOME {
        Some(Key::Home)
    } else if keysym == KEY_KP_HOME {
        Some(Key::Home)
    } else if keysym == KEY_END {
        Some(Key::End)
    } else if keysym == KEY_KP_END {
        Some(Key::End)
    } else if keysym == KEY_PAGE_UP {
        Some(Key::PageUp)
    } else if keysym == KEY_KP_PAGE_UP {
        Some(Key::PageUp)
    } else if keysym == KEY_PAGE_DOWN {
        Some(Key::PageDown)
    } else if keysym == KEY_KP_PAGE_DOWN {
        Some(Key::PageDown)
    } else if keysym == KEY_UP {
        Some(Key::ArrowUp)
    } else if keysym == KEY_KP_UP {
        Some(Key::ArrowUp)
    } else if keysym == KEY_DOWN {
        Some(Key::ArrowDown)
    } else if keysym == KEY_KP_DOWN {
        Some(Key::ArrowDown)
    } else if keysym == KEY_LEFT {
        Some(Key::ArrowLeft)
    } else if keysym == KEY_KP_LEFT {
        Some(Key::ArrowLeft)
    } else if keysym == KEY_RIGHT {
        Some(Key::ArrowRight)
    } else if keysym == KEY_KP_RIGHT {
        Some(Key::ArrowRight)
    } else if keysym == KEY_F1 {
        Some(Key::F1)
    } else if keysym == KEY_F2 {
        Some(Key::F2)
    } else if keysym == KEY_F3 {
        Some(Key::F3)
    } else if keysym == KEY_F4 {
        Some(Key::F4)
    } else if keysym == KEY_F5 {
        Some(Key::F5)
    } else if keysym == KEY_F6 {
        Some(Key::F6)
    } else if keysym == KEY_F7 {
        Some(Key::F7)
    } else if keysym == KEY_F8 {
        Some(Key::F8)
    } else if keysym == KEY_F9 {
        Some(Key::F9)
    } else if keysym == KEY_F10 {
        Some(Key::F10)
    } else if keysym == KEY_F11 {
        Some(Key::F11)
    } else if keysym == KEY_F12 {
        Some(Key::F12)
    } else if keysym == KEY_SHIFT_L {
        Some(Key::ShiftLeft)
    } else if keysym == KEY_SHIFT_R {
        Some(Key::ShiftRight)
    } else if keysym == KEY_CONTROL_L {
        Some(Key::ControlLeft)
    } else if keysym == KEY_CONTROL_R {
        Some(Key::ControlRight)
    } else if keysym == KEY_ALT_L {
        Some(Key::AltLeft)
    } else if keysym == KEY_ALT_R {
        Some(Key::AltRight)
    } else if keysym == KEY_SUPER_L {
        Some(Key::SuperLeft)
    } else if keysym == KEY_SUPER_R {
        Some(Key::SuperRight)
    } else {
        None
    }
}

/// See [`special_key`].
pub fn special_key_of(keysym: u32) -> (r: Option<Key>)
    ensures
        r == special_key(keysym),
{
    if keysym == KEY_ESCAPE {
        Some(Key::Escape)
    } else if keysym == KEY_TAB {
        Some(Key::Tab)
    } else if keysym == KEY_ISO_LEFT_TAB {
        Some(Key::Tab)
    } else if keysym == KEY_BACKSPACE {
        Some(Key::Backspace)
    } else if keysym == KEY_RETURN {
        Some(Key::Enter)
    } else if keysym == KEY_KP_ENTER {
        Some(Key::Enter)
    } else if keysym == KEY_INSERT {
        Some(Key::Insert)
    } else if keysym == KEY_KP_INSERT {
        Some(Key::Insert)
    } else if keysym == KEY_DELETE {
        Some(Key::Delete)
    } else if keysym == KEY_KP_DELETE {
        Some(Key::Delete)
    } else if keysym == KEY_HOME {
        Some(Key::Home)
    } else if keysym == KEY_KP_HOME {
        Some(Key::Home)
    } else if keysym == KEY_END {
        Some(Key::End)
    } else if keysym == KEY_KP_END {
        Some(Key::End)
    } else if keysym == KEY_PAGE_UP {
        Some(Key::PageUp)
    } else if keysym == KEY_KP_PAGE_UP {
        Some(Key::PageUp)
    } else if keysym == KEY_PAGE_DOWN {
        Some(Key::PageDown)
    } else if keysym == KEY_KP_PAGE_DOWN {
        Some(Key::PageDown)
    } else if keysym == KEY_UP {
        Some(Key::ArrowUp)
    } else if keysym == KEY_KP_UP {
        Some(Key::ArrowUp)
    } else if keysym == KEY_DOWN {
        Some(Key::ArrowDown)
    } else if keysym == KEY_KP_DOWN {
        Some(Key::ArrowDown)
    } else if keysym == KEY_LEFT {
        Some(Key::ArrowLeft)
    } else if keysym == KEY_KP_LEFT {
        Some(Key::ArrowLeft)
    } else if keysym == KEY_RIGHT {
        Some(Key::ArrowRight)
    } else if keysym == KEY_KP_RIGHT {
        Some(Key::ArrowRight)
    } else if keysym == KEY_F1 {
        Some(Key::F1)
    } else if keysym == KEY_F2 {
        Some(Key::F2)
    } else if keysym == KEY_F3 {
        Some(Key::F3)
    } else if keysym == KEY_F4 {
        Some(Key::F4)
    } else if keysym == KEY_F5 {
        Some(Key::F5)
    } else if keysym == KEY_F6 {
        Some(Key::F6)
    } else if keysym == KEY_F7 {
        Some(Key::F7)
    } else if keysym == KEY_F8 {
        Some(Key::F8)
    } else if keysym == KEY_F9 {
        Some(Key::F9)
    } else if keysym == KEY_F10 {
        Some(Key::F10)
    } else if keysym == KEY_F11 {
        Some(Key::F11)
    } else if keysym == KEY_F12 {
        Some(Key::F12)
    } else if keysym == KEY_SHIFT_L {
        Some(Key::ShiftLeft)
    } else if keysym == KEY_SHIFT_R {
        Some(Key::ShiftRight)
    } else if keysym == KEY_CONTROL_L {
        Some(Key::ControlLeft)
    } else if keysym == KEY_CONTROL_R {
        Some(Key::ControlRight)
    } else if keysym == KEY_ALT_L {
        Some(Key::AltLeft)
    } else if keysym == KEY_ALT_R {
        Some(Key::AltRight)
    } else if keysym == KEY_SUPER_L {
        Some(Key::SuperLeft)
    } else if keysym == KEY_SUPER_R {
        Some(Key::SuperRight)
    } else {
        None
    }
}

/// The letter key `i` places after `A`, for `i < 26`.
pub open spec fn letter_key(i: u32) -> Key {
    if i == 0 {
        Key::A
    } else if i == 1 {
        Key::B
    } else if i == 2 {
        Key::C
    } else if i == 3 {
        Key::D
    } else if i == 4 {
        Key::E
    } else if i == 5 {
        Key::F
    } else if i == 6 {
        Key::G
    } else if i == 7 {
        Key::H
    } else if i == 8 {
        Key::I
    } else if i == 9 {
        Key::J
    } else if i == 10 {
        Key::K
    } else if i == 11 {
        Key::L
    } else if i == 12 {
        Key::M
    } else if i == 13 {
        Key::N
    } else if i == 14 {
        Key::O
    } else if i == 15 {
        Key::P
    } else if i == 16 {
        Key::Q
    } else if i == 17 {
        Key::R
    } else if i == 18 {
        Key::S
    } else if i == 19 {
        Key::T
    } else if i == 20 {
        Key::U
    } else if i == 21 {
        Key::V
    } else if i == 22 {
        Key::W
    } else if i == 23 {
        Key::X
    } else if i == 24 {
        Key::Y
    } else {
        Key::Z
    }
}

fn letter_key_of(i: u32) -> (r: Key)
    ensures
        r == letter_key(i),
{
    if i == 0 {
        Key::A
    } else if i == 1 {
        Key::B
    } else if i == 2 {
        Key::C
    } else if i == 3 {
        Key::D
    } else if i == 4 {
        Key::E
    } else if i == 5 {
        Key::F
    } else if i == 6 {
        Key::G
    } else if i == 7 {
        Key::H
    } else if i == 8 {
        Key::I
    } else if i == 9 {
        Key::J
    } else if i == 10 {
        Key::K
    } else if i == 11 {
        Key::L
    } else if i == 12 {
        Key::M
    } else if i == 13 {
        Key::N
    } else if i == 14 {
        Key::O
    } else if i == 15 {
        Key::P
    } else if i == 16 {
        Key::Q
    } else if i == 17 {
        Key::R
    } else if i == 18 {
        Key::S
    } else if i == 19 {
        Key::T
    } else if i == 20 {
        Key::U
    } else if i == 21 {
        Key::V
    } else if i == 22 {
        Key::W
    } else if i == 23 {
        Key::X
    } else if i == 24 {
        Key::Y
    } else {
        Key::Z
    }
}

/// The digit key for `d < 10`.
pub open spec fn digit_key(d: u32) -> Key {
    if d == 0 {
        Key::Num0
    } else if d == 1 {
        Key::Num1
    } else if d == 2 {
        Key::Num2
    } else if d == 3 {
        Key::Num3
    } else if d == 4 {
        Key::Num4
    } else if d == 5 {
        Key::Num5
    } else if d == 6 {
        Key::Num6
    } else if d == 7 {
        Key::Num7
    } else if d == 8 {
        Key::Num8
    } else {
        Key::Num9
    }
}

fn digit_key_of(d: u32) -> (r: Key)
    ensures
        r == digit_key(d),
{
    if d == 0 {
        Key::Num0
    } else if d == 1 {
        Key::Num1
    } else if d == 2 {
        Key::Num2
    } else if d == 3 {
        Key::Num3
    } else if d == 4 {
        Key::Num4
    } else if d == 5 {
        Key::Num5
    } else if d == 6 {
        Key::Num6
    } else if d == 7 {
        Key::Num7
    } else if d == 8 {
        Key::Num8
    } else {
        Key::Num9
    }
}

/// The punctuation key that writes `c`.
pub open spec fn punctuation_key(c: char) -> Option<Key> {
    if c == ' ' {
        Some(Key::Space)
    } else if c == ':' {
        Some(Key::Colon)
    } else if c == ',' {
        Some(Key::Comma)
    } else if c == '\\' {
        Some(Key::Backslash)
    } else if c == '/' {
        Some(Key::Slash)
    } else if c == '|' {
        Some(Key::Pipe)
    } else if c == '?' {
        Some(Key::Questionmark)
    } else if c == '!' {
        Some(Key::Exclamationmark)
    } else if c == '[' {
        Some(Key::OpenBracket)
    } else if c == ']' {
        Some(Key::CloseBracket)
    } else if c == '{' {
        Some(Key::OpenCurlyBracket)
    } else if c == '}' {
        Some(Key::CloseCurlyBracket)
    } else if c == '`' {
        Some(Key::Backtick)
    } else if c == '-' {
        Some(Key::Minus)
    } else if c == '.' {
        Some(Key::Period)
    } else if c == '+' {
        Some(Key::Plus)
    } else if c == '=' {
        Some(Key::Equals)
    } else if c == ';' {
        Some(Key::Semicolon)
    } else if c == '\'' {
        Some(Key::Quote)
    } else {
        None
    }
}

fn punctuation_key_of(c: char) -> (r: Option<Key>)
    ensures
        r == punctuation_key(c),
{
    if c == ' ' {
        Some(Key::Space)
    } else if c == ':' {
        Some(Key::Colon)
    } else if c == ',' {
        Some(Key::Comma)
    } else if c == '\\' {
        Some(Key::Backslash)
    } else if c == '/' {
        Some(Key::Slash)
    } else if c == '|' {
        Some(Key::Pipe)
    } else if c == '?' {
        Some(Key::Questionmark)
    } else if c == '!' {
        Some(Key::Exclamationmark)
    } else if c == '[' {
        Some(Key::OpenBracket)
    } else if c == ']' {
        Some(Key::CloseBracket)
    } else if c == '{' {
        Some(Key::OpenCurlyBracket)
    } else if c == '}' {
        Some(Key::CloseCurlyBracket)
    } else if c == '`' {
        Some(Key::Backtick)
    } else if c == '-' {
        Some(Key::Minus)
    } else if c == '.' {
        Some(Key::Period)
    } else if c == '+' {
        Some(Key::Plus)
    } else if c == '=' {
        Some(Key::Equals)
    } else if c == ';' {
        Some(Key::Semicolon)
    } else if c == '\'' {
        Some(Key::Quote)
    } else {
        None
    }
}

/// The key that writes `c`: letters of either case, digits and the punctuation keys.
pub open spec fn char_key(c: char) -> Option<Key> {
    let u = c as u32;
    if 97 <= u && u <= 122 {
        Some(letter_key((u - 97) as u32))
    } else if 65 <= u && u <= 90 {
        Some(letter_key((u - 65) as u32))
    } else if 48 <= u && u <= 57 {
        Some(digit_key((u - 48) as u32))
    } else {
        punctuation_key(c)
    }
}

/// See [`char_key`].
pub fn key_from_char(c: char) -> (r: Option<Key>)
    ensures
        r == char_key(c),
{
    let u = c as u32;
    if 97 <= u && u <= 122 {
        Some(letter_key_of(u - 97))
    } else if 65 <= u && u <= 90 {
        Some(letter_key_of(u - 65))
    } else if 48 <= u && u <= 57 {
        Some(digit_key_of(u - 48))
    } else {
        punctuation_key_of(c)
    }
}

/// The key of a key event: by its keysym, else by the character the keysym writes
/// (`key_char`, when it writes one).
pub open spec fn key_spec(keysym: u32, key_char: Option<char>) -> Option<Key> {
    match special_key(keysym) {
        Some(k) => Some(k),
        None => match key_char {
            Some(c) => char_key(c),
            None => None,
        },
    }
}

/// See [`key_spec`].
pub fn key_of(keysym: u32, key_char: Option<char>) -> (r: Option<Key>)
    ensures
        r == key_spec(keysym, key_char),
{
    match special_key_of(keysym) {
        Some(k) => Some(k),
        None => match key_char {
            Some(c) => key_from_char(c),
            None => None,
        },
    }
}

/// The modifier keys held. `command` is Ctrl: this shell runs on Linux only.
#[derive(Clone, Copy, Debug, PartialEq, Eq)]
pub struct Modifiers {
    pub alt: bool,
    pub ctrl: bool,
    pub shift: bool,
    pub command: bool,
}

/// What one key event adds: the key, when it is one the UI knows, and the text it
/// types, if any.
#[derive(Clone, Debug, PartialEq, Eq)]
pub struct KeyInput {
    pub key: Option<Key>,
    pub text: Option<String>,
}

/// One axis of a scroll: Wayland's high-resolution steps (120 to a wheel notch), its
/// discrete notches, and whether the scroll stops there. The continuous distance is
/// the caller's.
#[derive(Clone, Copy, Debug, PartialEq, Eq)]
pub struct AxisScroll {
    pub value120: i32,
    pub discrete: i32,
    pub stop: bool,
}

/// A `wl_pointer` event, as the UI reads it.
#[derive(Clone, Copy, Debug, PartialEq, Eq)]
pub enum PointerKind {
    Enter,
    Leave,
    Motion,
    Press(u32),
    Release(u32),
    Axis { horizontal: AxisScroll, vertical: AxisScroll },
}

/// Which measure of a scroll moves the content.
#[derive(Clone, Copy, Debug, PartialEq, Eq)]
pub enum WheelSource {
    /// `value120 / 120` lines, against the finger's direction.
    HighResolution,
    /// `discrete` lines, against the finger's direction.
    Discrete,
    /// The continuous distance in points, against the finger's direction.
    Continuous,
}

/// What the UI hears of a pointer event.
#[derive(Clone, Copy, Debug, PartialEq, Eq)]
pub enum PointerAction {
    /// The pointer is at the event's position.
    Moved,
    /// The pointer left.
    Gone,
    Button { button: PointerButton, pressed: bool, modifiers: Modifiers },
    /// A scroll, measured by `source`; it ends when either axis stops.
    Wheel { source: WheelSource, end: bool, modifiers: Modifiers },
    /// A button the UI does not know: nothing to repaint for.
    Ignored,
}

pub open spec fn wheel_source(h: AxisScroll, v: AxisScroll) -> WheelSource {
    if h.value120 != 0 || v.value120 != 0 {
        WheelSource::HighResolution
    } else if h.discrete != 0 || v.discrete != 0 {
        WheelSource::Discrete
    } else {
        WheelSource::Continuous
    }
}

pub open spec fn pointer_action(kind: PointerKind, modifiers: Modifiers) -> PointerAction {
    match kind {
        PointerKind::Enter => PointerAction::Moved,
        PointerKind::Motion => PointerAction::Moved,
        PointerKind::Leave => PointerAction::Gone,
        PointerKind::Press(code) => match button_spec(code) {
            Some(button) => PointerAction::Button { button, pressed: true, modifiers },
            None => PointerAction::Ignored,
        },
        PointerKind::Release(code) => match button_spec(code) {
            Some(button) => PointerAction::Button { button, pressed: false, modifiers },
            None => PointerAction::Ignored,
        },
        PointerKind::Axis { horizontal, vertical } => PointerAction::Wheel {
            source: wheel_source(horizontal, vertical),
            end: horizontal.stop || vertical.stop,
            modifiers,
        },
    }
}

/// The input state kept between frames: the modifiers held and whether the pointer
/// is over the surface.
pub struct InputState {
    pub modifiers: Modifiers,
    pub pointer_inside: bool,
}

impl InputState {
    /// No modifier held, the pointer elsewhere.
    pub fn new() -> (r: InputState)
        ensures
            r.modifiers == (Modifiers { alt: false, ctrl: false, shift: false, command: false }),
            !r.pointer_inside,
    {
        InputState {
            modifiers: Modifiers { alt: false, ctrl: false, shift: false, command: false },
            pointer_inside: false,
        }
    }

    /// Reads a pointer event: entering and leaving set `pointer_inside`; see
    /// [`pointer_action`] for what the UI hears.
    pub fn push_pointer(&mut self, kind: PointerKind) -> (r: PointerAction)
        ensures
            r == pointer_action(kind, old(self).modifiers),
            final(self).modifiers == old(self).modifiers,
            final(self).pointer_inside == match kind {
                PointerKind::Enter => true,
                PointerKind::Leave => false,
                _ => old(self).pointer_inside,
            },
    {
        match kind {
            PointerKind::Enter => {
                self.pointer_inside = true;
                PointerAction::Moved
            },
            PointerKind::Leave => {
                self.pointer_inside = false;
                PointerAction::Gone
            },
            PointerKind::Motion => PointerAction::Moved,
            PointerKind::Press(code) => match pointer_button(code) {
                Some(button) => PointerAction::Button { button, pressed: true, modifiers: self.modifiers },
                None => PointerAction::Ignored,
            },
            PointerKind::Release(code) => match pointer_button(code) {
                Some(button) => PointerAction::Button { button, pressed: false, modifiers: self.modifiers },
                None => PointerAction::Ignored,
            },
            PointerKind::Axis { horizontal, vertical } => {
                let source = if horizontal.value120 != 0 || vertical.value120 != 0 {
                    WheelSource::HighResolution
                } else if horizontal.discrete != 0 || vertical.discrete != 0 {
                    WheelSource::Discrete
                } else {
                    WheelSource::Continuous
                };
                PointerAction::Wheel {
                    source,
                    end: horizontal.stop || vertical.stop,
                    modifiers: self.modifiers,
                }
            },
        }
    }

    /// Replaces the modifier state; returns it, for the UI to hear.
    pub fn set_modifiers(&mut self, alt: bool, ctrl: bool, shift: bool) -> (r: Modifiers)
        ensures
            r == (Modifiers { alt, ctrl, shift, command: ctrl }),
            final(self).modifiers == r,
            final(self).pointer_inside == old(self).pointer_inside,
    {
        self.modifiers = Modifiers { alt, ctrl, shift, command: ctrl };
        self.modifiers
    }

    /// Reads a key press, repeat or release: its key (see [`key_spec`]) and the text it
    /// types (see [`key_text_spec`], with Ctrl as held now).
    pub fn push_key(&self, keysym: u32, key_char: Option<char>, utf8: Option<&str>, pressed: bool) -> (r: KeyInput)
        ensures
            r.key == key_spec(keysym, key_char),
            match r.text {
                Some(s) => key_text_spec(pressed, self.modifiers.ctrl, opt_view(utf8)) == Some(s@),
                None => key_text_spec(pressed, self.modifiers.ctrl, opt_view(utf8)) is None,
            },
    {
        KeyInput { key: key_of(keysym, key_char), text: key_text(pressed, self.modifiers.ctrl, utf8) }
    }
}

/// Each editing, navigation, function and modifier keysym (`xkbcommon-keysyms.h`:
/// `Escape`, `Tab`, `ISO_Left_Tab`, `BackSpace`, `Return`, `KP_Enter`, `Insert`, ...,
/// `Up`, `KP_Up`, `Down`, `KP_Down`, ..., `F1` to `F12`, `Shift_L`, ..., `Super_R`) is
/// the key of the same name, whatever character the keysym writes.
pub proof fn law_keysyms_name_their_keys(key_char: Option<char>)
    ensures
        key_spec(0xff1bu32, key_char) == Some(Key::Escape),
        key_spec(0xff09u32, key_char) == Some(Key::Tab),
        key_spec(0xfe20u32, key_char) == Some(Key::Tab),
        key_spec(0xff08u32, key_char) == Some(Key::Backspace),
        key_spec(0xff0du32, key_char) == Some(Key::Enter),
        key_spec(0xff8du32, key_char) == Some(Key::Enter),
        key_spec(0xff63u32, key_char) == Some(Key::Insert),
        key_spec(0xff9eu32, key_char) == Some(Key::Insert),
        key_spec(0xffffu32, key_char) == Some(Key::Delete),
        key_spec(0xff9fu32, key_char) == Some(Key::Delete),
        key_spec(0xff50u32, key_char) == Some(Key::Home),
        key_spec(0xff95u32, key_char) == Some(Key::Home),
        key_spec(0xff57u32, key_char) == Some(Key::End),
        key_spec(0xff9cu32, key_char) == Some(Key::End),
        key_spec(0xff55u32, key_char) == Some(Key::PageUp),
        key_spec(0xff9au32, key_char) == Some(Key::PageUp),
        key_spec(0xff56u32, key_char) == Some(Key::PageDown),
        key_spec(0xff9bu32, key_char) == Some(Key::PageDown),
        key_spec(0xff52u32, key_char) == Some(Key::ArrowUp),
        key_spec(0xff97u32, key_char) == Some(Key::ArrowUp),
        key_spec(0xff54u32, key_char) == Some(Key::ArrowDown),
        key_spec(0xff99u32, key_char) == Some(Key::ArrowDown),
        key_spec(0xff51u32, key_char) == Some(Key::ArrowLeft),
        key_spec(0xff96u32, key_char) == Some(Key::ArrowLeft),
        key_spec(0xff53u32, key_char) == Some(Key::ArrowRight),
        key_spec(0xff98u32, key_char) == Some(Key::ArrowRight),
        key_spec(0xffbeu32, key_char) == Some(Key::F1),
        key_spec(0xffbfu32, key_char) == Some(Key::F2),
        key_spec(0xffc0u32, key_char) == Some(Key::F3),
        key_spec(0xffc1u32, key_char) == Some(Key::F4),
        key_spec(0xffc2u32, key_char) == Some(Key::F5),
        key_spec(0xffc3u32, key_char) == Some(Key::F6),
        key_spec(0xffc4u32, key_char) == Some(Key::F7),
        key_spec(0xffc5u32, key_char) == Some(Key::F8),
        key_spec(0xffc6u32, key_char) == Some(Key::F9),
        key_spec(0xffc7u32, key_char) == Some(Key::F10),
        key_spec(0xffc8u32, key_char) == Some(Key::F11),
        key_spec(0xffc9u32, key_char) == Some(Key::F12),
        key_spec(0xffe1u32, key_char) == Some(Key::ShiftLeft),
        key_spec(0xffe2u32, key_char) == Some(Key::ShiftRight),
        key_spec(0xffe3u32, key_char) == Some(Key::ControlLeft),
        key_spec(0xffe4u32, key_char) == Some(Key::ControlRight),
        key_spec(0xffe9u32, key_char) == Some(Key::AltLeft),
        key_spec(0xffeau32, key_char) == Some(Key::AltRight),
        key_spec(0xffebu32, key_char) == Some(Key::SuperLeft),
        key_spec(0xffecu32, key_char) == Some(Key::SuperRight),
{
}

/// Every ASCII letter, of either case, is the letter key of the same name; every
/// digit is its digit key; each punctuation character is the key named after it.
pub proof fn law_characters_name_their_keys()
    ensures
        char_key('a') == Some(Key::A),
        char_key('A') == Some(Key::A),
        char_key('b') == Some(Key::B),
        char_key('B') == Some(Key::B),
        char_key('c') == Some(Key::C),
        char_key('C') == Some(Key::C),
        char_key('d') == Some(Key::D),
        char_key('D') == Some(Key::D),
        char_key('e') == Some(Key::E),
        char_key('E') == Some(Key::E),
        char_key('f') == Some(Key::F),
        char_key('F') == Some(Key::F),
        char_key('g') == Some(Key::G),
        char_key('G') == Some(Key::G),
        char_key('h') == Some(Key::H),
        char_key('H') == Some(Key::H),
        char_key('i') == Some(Key::I),
        char_key('I') == Some(Key::I),
        char_key('j') == Some(Key::J),
        char_key('J') == Some(Key::J),
        char_key('k') == Some(Key::K),
        char_key('K') == Some(Key::K),
        char_key('l') == Some(Key::L),
        char_key('L') == Some(Key::L),
        char_key('m') == Some(Key::M),
        char_key('M') == Some(Key::M),
        char_key('n') == Some(Key::N),
        char_key('N') == Some(Key::N),
        char_key('o') == Some(Key::O),
        char_key('O') == Some(Key::O),
        char_key('p') == Some(Key::P),
        char_key('P') == Some(Key::P),
        char_key('q') == Some(Key::Q),
        char_key('Q') == Some(Key::Q),
        char_key('r') == Some(Key::R),
        char_key('R') == Some(Key::R),
        char_key('s') == Some(Key::S),
        char_key('S') == Some(Key::S),
        char_key('t') == Some(Key::T),
        char_key('T') == Some(Key::T),
        char_key('u') == Some(Key::U),
        char_key('U') == Some(Key::U),
        char_key('v') == Some(Key::V),
        char_key('V') == Some(Key::V),
        char_key('w') == Some(Key::W),
        char_key('W') == Some(Key::W),
        char_key('x') == Some(Key::X),
        char_key('X') == Some(Key::X),
        char_key('y') == Some(Key::Y),
        char_key('Y') == Some(Key::Y),
        char_key('z') == Some(Key::Z),
        char_key('Z') == Some(Key::Z),
        char_key('0') == Some(Key::Num0),
        char_key('1') == Some(Key::Num1),
        char_key('2') == Some(Key::Num2),
        char_key('3') == Some(Key::Num3),
        char_key('4') == Some(Key::Num4),
        char_key('5') == Some(Key::Num5),
        char_key('6') == Some(Key::Num6),
        char_key('7') == Some(Key::Num7),
        char_key('8') == Some(Key::Num8),
        char_key('9') == Some(Key::Num9),
        char_key(' ') == Some(Key::Space),
        char_key(':') == Some(Key::Colon),
        char_key(',') == Some(Key::Comma),
        char_key('\\') == Some(Key::Backslash),
        char_key('/') == Some(Key::Slash),
        char_key('|') == Some(Key::Pipe),
        char_key('?') == Some(Key::Questionmark),
        char_key('!') == Some(Key::Exclamationmark),
        char_key('[') == Some(Key::OpenBracket),
        char_key(']') == Some(Key::CloseBracket),
        char_key('{') == Some(Key::OpenCurlyBracket),
        char_key('}') == Some(Key::CloseCurlyBracket),
        char_key('`') == Some(Key::Backtick),
        char_key('-') == Some(Key::Minus),
        char_key('.') == Some(Key::Period),
        char_key('+') == Some(Key::Plus),
        char_key('=') == Some(Key::Equals),
        char_key(';') == Some(Key::Semicolon),
        char_key('\'') == Some(Key::Quote),
{
}

/// A keysym that names no key of its own is the key of the character it writes.
pub proof fn law_other_keysyms_go_by_their_character(keysym: u32, c: char)
    requires
        special_key(keysym) is None,
    ensures
        key_spec(keysym, Some(c)) == char_key(c),
        key_spec(keysym, None) is None,
{
}

} // verus!
