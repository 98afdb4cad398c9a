use kakvide::input::{
    key_event_to_kak, modified_character_key_to_kak, mouse_button_to_kak, named_key_to_kak,
    pointer_position_to_coord, send_keys, send_mouse_button, send_mouse_move, send_resize,
    send_scroll, Key, KeyEvent, Modifiers, MouseButton, MouseMotionState, NamedKey,
};
use kakvide::layout::CellMetrics;
use kakvide::messages::{Coord, KakouneRequest, MouseButtonName};

const NONE: Modifiers = Modifiers { shift: false, control: false, alt: false, logo: false };

fn character(text: &str) -> Key {
    Key::Character(text.into())
}

#[test]
fn formats_alt_shift_character_keys_from_unmodified_character() {
    let modifiers = Modifiers { alt: true, shift: true, ..NONE };
    let key = character(";");
    assert_eq!(
        modified_character_key_to_kak(&key, modifiers).as_deref(),
        Some("<s-a-;>")
    );
}

#[test]
fn formats_ctrl_shift_letter_keys_with_explicit_shift_modifier() {
    let modifiers = Modifiers { control: true, shift: true, ..NONE };
    let key = character("p");
    assert_eq!(
        modified_character_key_to_kak(&key, modifiers).as_deref(),
        Some("<s-c-p>")
    );
}

#[test]
fn mouse_motion_state_ignores_hover_moves() {
    let state = MouseMotionState::default();

    assert!(!state.should_send_move());
}

#[test]
fn mouse_motion_state_sends_moves_while_left_button_is_down() {
    let mut state = MouseMotionState::default();

    state.set_button(MouseButton::Left, true);
    assert!(state.should_send_move());

    state.set_button(MouseButton::Left, false);
    assert!(!state.should_send_move());
}

#[test]
fn mouse_motion_state_does_not_send_moves_for_other_buttons() {
    let mut state = MouseMotionState::default();

    state.set_button(MouseButton::Right, true);
    state.set_button(MouseButton::Middle, true);

    assert!(!state.should_send_move());
}

#[test]
fn mouse_motion_state_reset_stops_drag_moves() {
    let mut state = MouseMotionState::default();

    state.set_button(MouseButton::Left, true);
    state.reset();

    assert!(!state.should_send_move());
}

#[test]
fn named_keys_have_the_names_of_the_editor() {
    let keys = [
        (NamedKey::Enter, "<ret>"),
        (NamedKey::Tab, "<tab>"),
        (NamedKey::Space, "<space>"),
        (NamedKey::Escape, "<esc>"),
        (NamedKey::ArrowUp, "<up>"),
        (NamedKey::ArrowDown, "<down>"),
        (NamedKey::ArrowLeft, "<left>"),
        (NamedKey::ArrowRight, "<right>"),
        (NamedKey::Backspace, "<backspace>"),
        (NamedKey::Delete, "<del>"),
        (NamedKey::Home, "<home>"),
        (NamedKey::End, "<end>"),
        (NamedKey::PageUp, "<pageup>"),
        (NamedKey::PageDown, "<pagedown>"),
    ];
    for (key, text) in keys {
        assert_eq!(named_key_to_kak(key, NONE).as_deref(), Some(text));
    }
    assert_eq!(named_key_to_kak(NamedKey::Other, NONE), None);
    let all = Modifiers { shift: true, control: true, alt: true, logo: true };
    assert_eq!(named_key_to_kak(NamedKey::Tab, all).as_deref(), Some("<s-a-c-tab>"));
    let logo = Modifiers { logo: true, ..NONE };
    assert_eq!(named_key_to_kak(NamedKey::Tab, logo).as_deref(), Some("<tab>"));
}

#[test]
fn characters_are_sent_as_typed_without_control_or_alt() {
    let event = KeyEvent { logical_key: character("É"), key_without_modifiers: character("é") };
    let shift = Modifiers { shift: true, ..NONE };
    assert_eq!(key_event_to_kak(&event, shift).as_deref(), Some("É"));
    let alt = Modifiers { alt: true, ..NONE };
    assert_eq!(key_event_to_kak(&event, alt).as_deref(), Some("<a-é>"));
}

#[test]
fn control_keys_are_sent_in_lower_case() {
    let event = KeyEvent { logical_key: character("Q"), key_without_modifiers: character("Q") };
    let control = Modifiers { control: true, ..NONE };
    assert_eq!(key_event_to_kak(&event, control).as_deref(), Some("<c-q>"));
}

#[test]
fn other_keys_are_not_sent() {
    let alt = Modifiers { alt: true, ..NONE };
    let event = KeyEvent { logical_key: Key::Unidentified, key_without_modifiers: Key::Unidentified };
    assert_eq!(key_event_to_kak(&event, NONE), None);
    assert_eq!(modified_character_key_to_kak(&character("ab"), alt), None);
    assert_eq!(modified_character_key_to_kak(&character(""), alt), None);
    assert_eq!(modified_character_key_to_kak(&Key::Named(NamedKey::Tab), alt), None);
}

#[test]
fn requests_are_left_in_order() {
    let coord = Coord { line: 1, column: 2 };
    let metrics = CellMetrics { cell_width: 8, cell_height: 18 };
    let mut outbox = Vec::new();
    send_resize(&mut outbox, 24 + 80, 24 + 36, &metrics, false, 24);
    send_keys(&mut outbox, &["x".to_string()]);
    send_mouse_move(&mut outbox, coord);
    send_mouse_button(&mut outbox, true, MouseButton::Middle, coord);
    send_mouse_button(&mut outbox, false, MouseButton::Right, coord);
    send_mouse_button(&mut outbox, true, MouseButton::Other(9), coord);
    send_scroll(&mut outbox, -3, coord);

    assert_eq!(outbox.len(), 6);
    assert!(matches!(outbox[0], KakouneRequest::Resize { rows: 2, columns: 10 }));
    match &outbox[1] {
        KakouneRequest::Keys { keys } => assert_eq!(keys, &vec!["x".to_string()]),
        other => panic!("unexpected request: {other:?}"),
    }
    assert!(matches!(outbox[2], KakouneRequest::MouseMove { coord: c } if c == coord));
    assert!(matches!(
        outbox[3],
        KakouneRequest::MousePress { button: MouseButtonName::Middle, coord: c } if c == coord
    ));
    assert!(matches!(
        outbox[4],
        KakouneRequest::MouseRelease { button: MouseButtonName::Right, coord: c } if c == coord
    ));
    assert!(matches!(outbox[5], KakouneRequest::Scroll { amount: -3, coord: c } if c == coord));
}

#[test]
fn only_three_buttons_have_names() {
    assert_eq!(mouse_button_to_kak(MouseButton::Left), Some(MouseButtonName::Left));
    assert_eq!(mouse_button_to_kak(MouseButton::Back), None);
    assert_eq!(mouse_button_to_kak(MouseButton::Forward), None);
}

#[test]
fn pointer_finds_the_cell_below_it() {
    let metrics = CellMetrics { cell_width: 8, cell_height: 18 };
    assert_eq!(
        pointer_position_to_coord(12 + 8 * 3, 36 + 18 * 2 + 17, &metrics, 36),
        Coord { line: 2, column: 3 }
    );
    assert_eq!(pointer_position_to_coord(0, 0, &metrics, 36), Coord { line: 0, column: 0 });
}
