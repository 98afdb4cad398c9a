//! The keys of the front end's own commands.

use vstd::prelude::*;

use crate::config::{KeysView, UserKeysConfig};
use crate::input::{Key, KeyEvent, Modifiers};
use crate::strings::same_text;
use crate::text::text_chars;

verus! {

/// A change of the font's size.
#[derive(Debug, Clone, Copy, PartialEq, Eq, Structural)]
pub enum FontSizeAction {
    Increase,
    Decrease,
    Reset,
}

/// What a key of the front end's own stands for.
#[derive(Debug, Clone, Copy, PartialEq, Eq, Structural)]
pub enum UserAction {
    FontSize(FontSizeAction),
    WindowNew,
    WindowClose,
}

/// A letter of the ASCII alphabet in upper case; any other character as it is.
pub open spec fn ascii_upper(c: char) -> char {
    if 'a' <= c && c <= 'z' {
        ((c as u32) - 32) as char
    } else {
        c
    }
}

/// A letter of the ASCII alphabet in upper case; any other character as it is.
fn upper(c: char) -> (high: char)
    ensures
        high == ascii_upper(c),
{
    if 'a' <= c && c <= 'z' {
        (c as u8 - 32) as char
    } else {
        c
    }
}

/// A key with the modifiers that are held down, as the settings write it.
pub open spec fn chord_text(modifiers: Modifiers, c: char) -> Seq<char> {
    (if modifiers.logo {
        "Cmd-"@
    } else {
        Seq::empty()
    }) + (if modifiers.control {
        "Ctrl-"@
    } else {
        Seq::empty()
    }) + (if modifiers.alt {
        "Alt-"@
    } else {
        Seq::empty()
    }) + (if modifiers.shift {
        "Shift-"@
    } else {
        Seq::empty()
    }) + seq![ascii_upper(c)]
}

/// A key with the modifiers that are held down, as the settings write it.
pub fn format_chord(modifiers: Modifiers, c: char) -> (text: String)
    ensures
        text@ == chord_text(modifiers, c),
{
    let mut text = String::new();
    if modifiers.logo {
        text.append("Cmd-");
    }
    assert(text@ =~= if modifiers.logo {
        "Cmd-"@
    } else {
        Seq::empty()
    });
    if modifiers.control {
        text.append("Ctrl-");
    } else {
        assert(text@ + Seq::empty() =~= text@);
    }
    if modifiers.alt {
        text.append("Alt-");
    } else {
        assert(text@ + Seq::empty() =~= text@);
    }
    if modifiers.shift {
        text.append("Shift-");
    } else {
        assert(text@ + Seq::empty() =~= text@);
    }
    text.push(upper(c));
    assert(text@ =~= chord_text(modifiers, c));
    text
}

/// What a chord stands for: the first of the settings that is written like it.
pub open spec fn action_of_chord(keys: KeysView, chord: Seq<char>) -> Option<UserAction> {
    if chord == keys.font_scale_up {
        Some(UserAction::FontSize(FontSizeAction::Increase))
    } else if chord == keys.font_scale_down {
        Some(UserAction::FontSize(FontSizeAction::Decrease))
    } else if chord == keys.font_scale_reset {
        Some(UserAction::FontSize(FontSizeAction::Reset))
    } else if chord == keys.window_new {
        Some(UserAction::WindowNew)
    } else if chord == keys.window_close {
        Some(UserAction::WindowClose)
    } else {
        None
    }
}

/// What a pressed key stands for: only keys of a single character count, by
/// what they mean without the modifiers.
pub open spec fn action_of_key(
    keys: KeysView,
    event: KeyEvent,
    modifiers: Modifiers,
) -> Option<UserAction> {
    match event.key_without_modifiers {
        Key::Character(text) => if text@.len() == 1 {
            action_of_chord(keys, chord_text(modifiers, text@[0]))
        } else {
            None
        },
        _ => None,
    }
}

/// What a pressed key stands for, if it is one of the front end's own.
pub fn action_for_event(keys: &UserKeysConfig, event: &KeyEvent, modifiers: Modifiers) -> (action:
    Option<UserAction>)
    ensures
        action == action_of_key(keys.deep_view(), *event, modifiers),
{
    match &event.key_without_modifiers {
        Key::Character(text) => {
            let chars = text_chars(text.as_str());
            if chars.len() != 1 {
                return None;
            }
            let chord = format_chord(modifiers, chars[0]);
            if same_text(chord.as_str(), keys.font_scale_up.as_str()) {
                Some(UserAction::FontSize(FontSizeAction::Increase))
            } else if same_text(chord.as_str(), keys.font_scale_down.as_str()) {
                Some(UserAction::FontSize(FontSizeAction::Decrease))
            } else if same_text(chord.as_str(), keys.font_scale_reset.as_str()) {
                Some(UserAction::FontSize(FontSizeAction::Reset))
            } else if same_text(chord.as_str(), keys.window_new.as_str()) {
                Some(UserAction::WindowNew)
            } else if same_text(chord.as_str(), keys.window_close.as_str()) {
                Some(UserAction::WindowClose)
            } else {
                None
            }
        },
        _ => None,
    }
}

/// Whether a text begins with a modifier's name and a dash.
pub open spec fn has_name(text: Seq<char>, name: Seq<char>) -> bool {
    text.len() > name.len() && text.take(name.len() as int) == name && text[name.len() as int]
        == '-'
}

/// A text without a modifier's name and dash at its front.
pub open spec fn without_name(text: Seq<char>, name: Seq<char>) -> Seq<char> {
    if has_name(text, name) {
        text.skip((name.len() + 1) as int)
    } else {
        text
    }
}

/// The modifiers, in the order command, control, alt and shift, and the key that a
/// chord stands for.
pub open spec fn read_chord(text: Seq<char>) -> (bool, bool, bool, bool, Seq<char>) {
    let command = seq!['C', 'm', 'd'];
    let control = seq!['C', 't', 'r', 'l'];
    let alt = seq!['A', 'l', 't'];
    let shift = seq!['S', 'h', 'i', 'f', 't'];
    let after_command = without_name(text, command);
    let after_control = without_name(after_command, control);
    let after_alt = without_name(after_control, alt);
    (
        has_name(text, command),
        has_name(after_command, control),
        has_name(after_control, alt),
        has_name(after_alt, shift),
        without_name(after_alt, shift),
    )
}

/// A modifier's name in front of a text is found, and one that is not there is
/// not.
proof fn lemma_name_is_found(name: Seq<char>, here: bool, rest: Seq<char>)
    requires
        !here ==> !has_name(rest, name),
    ensures
        ({
            let text = (if here {
                name.push('-')
            } else {
                Seq::empty()
            }) + rest;
            has_name(text, name) == here && without_name(text, name) == rest
        }),
{
    let text = (if here {
        name.push('-')
    } else {
        Seq::empty()
    }) + rest;
    if here {
        assert(text.take(name.len() as int) =~= name);
        assert(text.skip((name.len() + 1) as int) =~= rest);
    } else {
        assert(text =~= rest);
    }
}

/// The text of a chord tells the modifiers that are held down and the key, a small
/// letter as the capital one.
pub proof fn law_chord_can_be_read_back(modifiers: Modifiers, c: char)
    ensures
        ({
            let (command, control, alt, shift, key) = read_chord(chord_text(modifiers, c));
            &&& command == modifiers.logo
            &&& control == modifiers.control
            &&& alt == modifiers.alt
            &&& shift == modifiers.shift
            &&& key.len() == 1
            &&& key[0] as u32 == c as u32 - if 97 <= c as u32 <= 122 {
                32int
            } else {
                0int
            }
        }),
{
    reveal_strlit("Cmd-");
    reveal_strlit("Ctrl-");
    reveal_strlit("Alt-");
    reveal_strlit("Shift-");
    let none = Seq::<char>::empty();
    let command = seq!['C', 'm', 'd'];
    let control = seq!['C', 't', 'r', 'l'];
    let alt = seq!['A', 'l', 't'];
    let shift = seq!['S', 'h', 'i', 'f', 't'];
    assert("Cmd-"@ =~= command.push('-'));
    assert("Ctrl-"@ =~= control.push('-'));
    assert("Alt-"@ =~= alt.push('-'));
    assert("Shift-"@ =~= shift.push('-'));
    let key = seq![ascii_upper(c)];
    let from_shift = (if modifiers.shift {
        shift.push('-')
    } else {
        none
    }) + key;
    let from_alt = (if modifiers.alt {
        alt.push('-')
    } else {
        none
    }) + from_shift;
    let from_control = (if modifiers.control {
        control.push('-')
    } else {
        none
    }) + from_alt;
    let all = (if modifiers.logo {
        command.push('-')
    } else {
        none
    }) + from_control;
    assert(chord_text(modifiers, c) =~= all);
    lemma_name_is_found(shift, modifiers.shift, key);
    if has_name(from_shift, alt) {
        assert(from_shift.take(3)[0] == alt[0]);
    }
    lemma_name_is_found(alt, modifiers.alt, from_shift);
    if has_name(from_alt, control) {
        assert(from_alt.take(4)[0] == control[0]);
    }
    lemma_name_is_found(control, modifiers.control, from_alt);
    if has_name(from_control, command) {
        assert(from_control.take(3)[0] == command[0]);
        assert(from_control.take(3)[1] == command[1]);
    }
    lemma_name_is_found(command, modifiers.logo, from_control);
}

/// Whether the settings give every command a chord of its own.
pub open spec fn chords_differ(keys: KeysView) -> bool {
    &&& keys.font_scale_up != keys.font_scale_down
    &&& keys.font_scale_up != keys.font_scale_reset
    &&& keys.font_scale_up != keys.window_new
    &&& keys.font_scale_up != keys.window_close
    &&& keys.font_scale_down != keys.font_scale_reset
    &&& keys.font_scale_down != keys.window_new
    &&& keys.font_scale_down != keys.window_close
    &&& keys.font_scale_reset != keys.window_new
    &&& keys.font_scale_reset != keys.window_close
    &&& keys.window_new != keys.window_close
}

/// A pressed key of one character does what the settings say for its chord, where
/// they give every command a chord of its own, and nothing where they do not name
/// it. A key that is not one character without its modifiers does nothing.
pub proof fn law_keys_do_what_the_settings_say(
    keys: KeysView,
    event: KeyEvent,
    modifiers: Modifiers,
)
    requires
        chords_differ(keys),
    ensures
        ({
            let action = action_of_key(keys, event, modifiers);
            match event.key_without_modifiers {
                Key::Character(text) => if text@.len() == 1 {
                    let chord = chord_text(modifiers, text@[0]);
                    &&& action == Some(UserAction::FontSize(FontSizeAction::Increase)) <==> chord
                        == keys.font_scale_up
                    &&& action == Some(UserAction::FontSize(FontSizeAction::Decrease)) <==> chord
                        == keys.font_scale_down
                    &&& action == Some(UserAction::FontSize(FontSizeAction::Reset)) <==> chord
                        == keys.font_scale_reset
                    &&& action == Some(UserAction::WindowNew) <==> chord == keys.window_new
                    &&& action == Some(UserAction::WindowClose) <==> chord == keys.window_close
                } else {
                    action is None
                },
                _ => action is None,
            }
        }),
{
}

} // verus!
