use kakvide::config::UserKeysConfig;
use kakvide::input::{Key, KeyEvent, Modifiers, NamedKey};
use kakvide::user_keys::{action_for_event, format_chord, FontSizeAction, UserAction};

const NONE: Modifiers = Modifiers { shift: false, control: false, alt: false, logo: false };

const COMMAND: Modifiers = Modifiers { logo: true, ..NONE };

fn pressed(text: &str) -> KeyEvent {
    KeyEvent {
        logical_key: Key::Unidentified,
        key_without_modifiers: Key::Character(text.to_string()),
    }
}

#[test]
fn chords_are_written_with_their_modifiers() {
    assert_eq!(format_chord(NONE, 'n'), "N");
    assert_eq!(format_chord(COMMAND, '='), "Cmd-=");
    assert_eq!(
        format_chord(Modifiers { shift: true, control: true, alt: true, logo: true }, 'z'),
        "Cmd-Ctrl-Alt-Shift-Z"
    );
}

#[test]
fn keys_of_the_front_end_are_found() {
    let keys = UserKeysConfig::default();
    let found = |text: &str| action_for_event(&keys, &pressed(text), COMMAND);
    assert_eq!(found("="), Some(UserAction::FontSize(FontSizeAction::Increase)));
    assert_eq!(found("-"), Some(UserAction::FontSize(FontSizeAction::Decrease)));
    assert_eq!(found("0"), Some(UserAction::FontSize(FontSizeAction::Reset)));
    assert_eq!(found("n"), Some(UserAction::WindowNew));
    assert_eq!(found("w"), Some(UserAction::WindowClose));
    assert_eq!(found("q"), None);
    assert_eq!(found("nw"), None);
    assert_eq!(action_for_event(&keys, &pressed("n"), NONE), None);
    let named = KeyEvent {
        logical_key: Key::Named(NamedKey::Tab),
        key_without_modifiers: Key::Named(NamedKey::Tab),
    };
    assert_eq!(action_for_event(&keys, &named, COMMAND), None);
}
