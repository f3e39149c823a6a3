use shell::input::{is_printable_char, key_text, pointer_button, PointerButton};

#[test]
fn printable_characters() {
    assert!(is_printable_char('a'));
    assert!(is_printable_char(' '));
    assert!(is_printable_char('é'));
    assert!(!is_printable_char('\r'));
    assert!(!is_printable_char('\u{1}'));
    assert!(!is_printable_char('\u{7f}'));
    assert!(!is_printable_char('\u{e000}'));
    assert!(!is_printable_char('\u{10fffd}'));
    assert!(is_printable_char('\u{10fffe}'));
}

#[test]
fn return_gives_no_text() {
    assert_eq!(key_text(true, false, Some("\r")), None);
}

#[test]
fn ctrl_letter_gives_no_text() {
    assert_eq!(key_text(true, true, Some("\u{1}")), None);
    assert_eq!(key_text(true, true, Some("a")), None);
}

#[test]
fn shifted_letter_gives_text() {
    assert_eq!(key_text(true, false, Some("A")), Some("A".to_owned()));
    assert_eq!(key_text(false, false, Some("A")), None);
    assert_eq!(key_text(true, false, Some("")), None);
    assert_eq!(key_text(true, false, None), None);
}

#[test]
fn pointer_buttons() {
    assert_eq!(pointer_button(0x110), Some(PointerButton::Primary));
    assert_eq!(pointer_button(0x111), Some(PointerButton::Secondary));
    assert_eq!(pointer_button(0x112), Some(PointerButton::Middle));
    assert_eq!(pointer_button(0x113), Some(PointerButton::Extra1));
    assert_eq!(pointer_button(0x114), Some(PointerButton::Extra2));
    assert_eq!(pointer_button(0x115), None);
}

use shell::input::{
    key_from_char, key_of, AxisScroll, InputState, Key, PointerAction, PointerKind, WheelSource,
    KEY_KP_ENTER, KEY_RETURN,
};

fn press(input: &InputState, keysym: u32, key_char: Option<char>, utf8: Option<&str>) -> (Option<Key>, Option<String>) {
    let r = input.push_key(keysym, key_char, utf8, true);
    (r.key, r.text)
}

#[test]
fn return_is_enter_without_text() {
    let input = InputState::new();
    assert_eq!(press(&input, KEY_RETURN, Some('\r'), Some("\r")), (Some(Key::Enter), None));
}

#[test]
fn keypad_enter_is_enter() {
    let input = InputState::new();
    assert_eq!(press(&input, KEY_KP_ENTER, Some('\r'), Some("\r")).0, Some(Key::Enter));
}

#[test]
fn ctrl_letter_is_a_command_not_text() {
    let mut input = InputState::new();
    input.set_modifiers(false, true, false);
    assert_eq!(press(&input, 0x61, Some('a'), Some("\u{1}")), (Some(Key::A), None));
}

#[test]
fn shifted_letter_yields_key_and_text() {
    let input = InputState::new();
    assert_eq!(press(&input, 0x41, Some('A'), Some("A")), (Some(Key::A), Some("A".to_owned())));
}

#[test]
fn release_types_nothing() {
    let input = InputState::new();
    let r = input.push_key(0x41, Some('A'), Some("A"), false);
    assert_eq!(r.key, Some(Key::A));
    assert_eq!(r.text, None);
}

#[test]
fn keys_by_character() {
    assert_eq!(key_from_char('z'), Some(Key::Z));
    assert_eq!(key_from_char('Q'), Some(Key::Q));
    assert_eq!(key_from_char('7'), Some(Key::Num7));
    assert_eq!(key_from_char(' '), Some(Key::Space));
    assert_eq!(key_from_char('\''), Some(Key::Quote));
    assert_eq!(key_from_char('\\'), Some(Key::Backslash));
    assert_eq!(key_from_char('é'), None);
    assert_eq!(key_of(0xffbe, None), Some(Key::F1));
    assert_eq!(key_of(0xffc9, None), Some(Key::F12));
    assert_eq!(key_of(0xfe20, None), Some(Key::Tab));
    assert_eq!(key_of(0xffeb, None), Some(Key::SuperLeft));
    assert_eq!(key_of(0x1234, None), None);
}

#[test]
fn modifiers_make_ctrl_the_command_key() {
    let mut input = InputState::new();
    let m = input.set_modifiers(true, true, false);
    assert!(m.alt && m.ctrl && m.command && !m.shift);
    assert_eq!(input.modifiers, m);
}

#[test]
fn pointer_enter_and_leave() {
    let mut input = InputState::new();
    assert_eq!(input.push_pointer(PointerKind::Enter), PointerAction::Moved);
    assert!(input.pointer_inside);
    assert_eq!(input.push_pointer(PointerKind::Motion), PointerAction::Moved);
    assert!(input.pointer_inside);
    assert_eq!(input.push_pointer(PointerKind::Leave), PointerAction::Gone);
    assert!(!input.pointer_inside);
}

#[test]
fn pointer_buttons_carry_modifiers() {
    let mut input = InputState::new();
    let m = input.set_modifiers(false, false, true);
    assert_eq!(
        input.push_pointer(PointerKind::Press(0x110)),
        PointerAction::Button { button: PointerButton::Primary, pressed: true, modifiers: m }
    );
    assert_eq!(
        input.push_pointer(PointerKind::Release(0x111)),
        PointerAction::Button { button: PointerButton::Secondary, pressed: false, modifiers: m }
    );
    assert_eq!(input.push_pointer(PointerKind::Press(0x200)), PointerAction::Ignored);
}

#[test]
fn scroll_measures() {
    let mut input = InputState::new();
    let m = input.modifiers;
    let axis = |value120, discrete, stop| AxisScroll { value120, discrete, stop };
    assert_eq!(
        input.push_pointer(PointerKind::Axis { horizontal: axis(0, 0, false), vertical: axis(-120, -1, false) }),
        PointerAction::Wheel { source: WheelSource::HighResolution, end: false, modifiers: m }
    );
    assert_eq!(
        input.push_pointer(PointerKind::Axis { horizontal: axis(0, 2, false), vertical: axis(0, 0, false) }),
        PointerAction::Wheel { source: WheelSource::Discrete, end: false, modifiers: m }
    );
    assert_eq!(
        input.push_pointer(PointerKind::Axis { horizontal: axis(0, 0, false), vertical: axis(0, 0, true) }),
        PointerAction::Wheel { source: WheelSource::Continuous, end: true, modifiers: m }
    );
}
