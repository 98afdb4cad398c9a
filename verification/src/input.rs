//! Keys, mouse and window size, as requests to the editor.

use vstd::prelude::*;

use crate::layout::{
    cell_side, layout_metrics, less, top_padding_pixels, window_layout, CellMetrics, PADDING,
};
use crate::messages::{Coord, KakouneRequest, MouseButtonName, RequestView};
use crate::text::text_chars;

verus! {

/// A button of the mouse.
#[derive(Debug, Clone, Copy, PartialEq, Eq, Structural)]
pub enum MouseButton {
    Left,
    Right,
    Middle,
    Back,
    Forward,
    Other(u16),
}

/// The modifier keys that are held down.
#[derive(Debug, Clone, Copy, PartialEq, Eq, Structural)]
pub struct Modifiers {
    pub shift: bool,
    pub control: bool,
    pub alt: bool,
    pub logo: bool,
}

/// A key with a name of its own.
#[derive(Debug, Clone, Copy, PartialEq, Eq, Structural)]
pub enum NamedKey {
    Enter,
    Tab,
    Space,
    Escape,
    ArrowUp,
    ArrowDown,
    ArrowLeft,
    ArrowRight,
    Backspace,
    Delete,
    Home,
    End,
    PageUp,
    PageDown,
    Other,
}

/// A key of the keyboard.
#[derive(Debug)]
pub enum Key {
    Named(NamedKey),
    Character(String),
    Unidentified,
}

/// A key that was pressed: what it means with the modifiers held down, and what
/// it means without them.
#[derive(Debug)]
pub struct KeyEvent {
    pub logical_key: Key,
    pub key_without_modifiers: Key,
}

/// Whether the pointer is dragged.
#[derive(Debug)]
pub struct MouseMotionState {
    left_button_down: bool,
}

impl Default for MouseMotionState {
    fn default() -> (state: Self)
        ensures
            !state.is_dragging(),
    {
        MouseMotionState { left_button_down: false }
    }
}

impl MouseMotionState {
    /// Whether the left button is down.
    pub closed spec fn is_dragging(&self) -> bool {
        self.left_button_down
    }

    /// A button was pressed or released. Only the left one drags.
    pub fn set_button(&mut self, button: MouseButton, pressed: bool)
        ensures
            final(self).is_dragging() == if button == MouseButton::Left {
                pressed
            } else {
                old(self).is_dragging()
            },
    {
        match button {
            MouseButton::Left => {
                self.left_button_down = pressed;
            },
            _ => {},
        }
    }

    /// The pointer has left the window.
    pub fn reset(&mut self)
        ensures
            !final(self).is_dragging(),
    {
        self.left_button_down = false;
    }

    /// Whether the editor is told of a move.
    pub fn should_send_move(&self) -> (yes: bool)
        ensures
            yes == self.is_dragging(),
    {
        self.left_button_down
    }
}

/// Leave a request for the editor.
pub fn send_request(outbox: &mut Vec<KakouneRequest>, request: KakouneRequest)
    ensures
        final(outbox).deep_view() == old(outbox).deep_view().push(request.deep_view()),
{
    outbox.push(request);
    assert(outbox.deep_view() =~= old(outbox).deep_view().push(request.deep_view()));
}

/// Tell the editor the size of the grid that fits in the window.
pub fn send_resize(
    outbox: &mut Vec<KakouneRequest>,
    width: usize,
    height: usize,
    metrics: &CellMetrics,
    transparent_menubar: bool,
    top_inset: usize,
)
    ensures
        ({
            let layout = window_layout(
                width,
                height,
                *metrics,
                top_padding_pixels(top_inset, transparent_menubar),
            );
            final(outbox).deep_view() == old(outbox).deep_view().push(
                RequestView::Resize { rows: layout.rows, columns: layout.cols },
            )
        }),
        width >= 24 ==> (final(outbox).deep_view().last() matches RequestView::Resize {
            rows,
            columns,
        } && rows >= 1 && 24 + columns * metrics.cell_width <= width),
{
    proof {
        crate::layout::law_grid_stays_inside_the_borders(
            width,
            height,
            *metrics,
            top_padding_pixels(top_inset, transparent_menubar),
        );
    }
    let layout = layout_metrics(width, height, metrics, transparent_menubar, top_inset);
    send_request(outbox, KakouneRequest::Resize { rows: layout.rows, columns: layout.cols });
}

/// Send keys to the editor.
pub fn send_keys(outbox: &mut Vec<KakouneRequest>, keys: &[String])
    ensures
        final(outbox).deep_view() == old(outbox).deep_view().push(
            RequestView::Keys { keys: keys.deep_view() },
        ),
{
    let mut copies: Vec<String> = Vec::new();
    assert(copies.deep_view() =~= keys.deep_view().take(0));
    for i in 0..keys.len()
        invariant
            copies.deep_view() == keys.deep_view().take(i as int),
    {
        let ghost before = copies.deep_view();
        let copy = keys[i].clone();
        assert(copy.deep_view() == keys.deep_view()[i as int]);
        copies.push(copy);
        assert(copies.deep_view() =~= before.push(copy.deep_view()));
        assert(copies.deep_view() =~= keys.deep_view().take(i + 1));
    }
    assert(keys.deep_view().take(keys.len() as int) =~= keys.deep_view());
    send_request(outbox, KakouneRequest::Keys { keys: copies });
}

/// Tell the editor of a move.
pub fn send_mouse_move(outbox: &mut Vec<KakouneRequest>, coord: Coord)
    ensures
        final(outbox).deep_view() == old(outbox).deep_view().push(
            RequestView::MouseMove { coord },
        ),
{
    send_request(outbox, KakouneRequest::MouseMove { coord });
}

/// The editor's name for a button, if it has one.
pub open spec fn button_name(button: MouseButton) -> Option<MouseButtonName> {
    match button {
        MouseButton::Left => Some(MouseButtonName::Left),
        MouseButton::Right => Some(MouseButtonName::Right),
        MouseButton::Middle => Some(MouseButtonName::Middle),
        _ => None,
    }
}

/// The editor's name for a button, if it has one.
pub fn mouse_button_to_kak(button: MouseButton) -> (name: Option<MouseButtonName>)
    ensures
        name == button_name(button),
{
    match button {
        MouseButton::Left => Some(MouseButtonName::Left),
        MouseButton::Right => Some(MouseButtonName::Right),
        MouseButton::Middle => Some(MouseButtonName::Middle),
        _ => None,
    }
}

/// Tell the editor of a button, if it knows the button.
pub fn send_mouse_button(
    outbox: &mut Vec<KakouneRequest>,
    pressed: bool,
    button: MouseButton,
    coord: Coord,
)
    ensures
        final(outbox).deep_view() == match button_name(button) {
            Some(name) => old(outbox).deep_view().push(
                if pressed {
                    RequestView::MousePress { button: name, coord }
                } else {
                    RequestView::MouseRelease { button: name, coord }
                },
            ),
            None => old(outbox).deep_view(),
        },
        button is Left || button is Right || button is Middle ==> final(outbox)@.len()
            == old(outbox)@.len() + 1 && (final(outbox).deep_view().last() is MousePress
            <==> pressed) && (final(outbox).deep_view().last() is MouseRelease <==> !pressed),
{
    if let Some(name) = mouse_button_to_kak(button) {
        let request = if pressed {
            KakouneRequest::MousePress { button: name, coord }
        } else {
            KakouneRequest::MouseRelease { button: name, coord }
        };
        send_request(outbox, request);
    }
}

/// Tell the editor to scroll.
pub fn send_scroll(outbox: &mut Vec<KakouneRequest>, amount: i32, coord: Coord)
    ensures
        final(outbox).deep_view() == old(outbox).deep_view().push(
            RequestView::Scroll { amount, coord },
        ),
        final(outbox).deep_view().last() matches RequestView::Scroll { amount: sent, coord: cell }
            && sent == amount && cell.line == coord.line && cell.column == coord.column,
{
    send_request(outbox, KakouneRequest::Scroll { amount, coord });
}

/// The cell of the grid that a pixel lies in, counted from the first cell for
/// pixels in the left or the upper border.
pub open spec fn cell_at(x: usize, y: usize, metrics: CellMetrics, top_padding: usize) -> Coord {
    Coord {
        line: (less(y as int, top_padding as int) / (cell_side(metrics.cell_height) as nat))
            as usize,
        column: (less(x as int, PADDING as int) / (cell_side(metrics.cell_width) as nat)) as usize,
    }
}

/// The cell of the grid that the pointer is in, by the pixel that it is over.
pub fn pointer_position_to_coord(
    x: usize,
    y: usize,
    metrics: &CellMetrics,
    top_padding: usize,
) -> (coord: Coord)
    ensures
        coord == cell_at(x, y, *metrics, top_padding),
{
    let width: usize = if metrics.cell_width == 0 {
        1
    } else {
        metrics.cell_width
    };
    let height: usize = if metrics.cell_height == 0 {
        1
    } else {
        metrics.cell_height
    };
    Coord {
        line: y.saturating_sub(top_padding) / height,
        column: x.saturating_sub(PADDING) / width,
    }
}

/// A pointer over a pixel of a cell is in that cell.
pub proof fn law_pointer_finds_its_cell(
    coord: Coord,
    x: usize,
    y: usize,
    metrics: CellMetrics,
    top_padding: usize,
)
    requires
        PADDING + coord.column * metrics.cell_width <= x < PADDING + (coord.column + 1)
            * metrics.cell_width,
        top_padding + coord.line * metrics.cell_height <= y < top_padding + (coord.line + 1)
            * metrics.cell_height,
    ensures
        cell_at(x, y, metrics, top_padding) == coord,
{
    lemma_pixel_in_cell(x - PADDING, coord.column as int, metrics.cell_width as int);
    lemma_pixel_in_cell(y - top_padding, coord.line as int, metrics.cell_height as int);
}

/// A pixel between the edges of a cell lies in it.
proof fn lemma_pixel_in_cell(pixel: int, cell: int, side: int)
    requires
        cell * side <= pixel < (cell + 1) * side,
        0 <= cell,
        0 <= side,
    ensures
        side > 0,
        pixel >= 0,
        pixel / side == cell,
{
    assert(side > 0 && pixel >= 0 && pixel == cell * side + (pixel - cell * side) && pixel - cell
        * side < side) by (nonlinear_arith)
        requires
            cell * side <= pixel < (cell + 1) * side,
            0 <= cell,
            0 <= side,
    ;
    vstd::arithmetic::div_mod::lemma_fundamental_div_mod_converse(
        pixel,
        side,
        cell,
        pixel - cell * side,
    );
}

/// The editor's name for a key, if it has one.
pub open spec fn key_name(key: NamedKey) -> Option<Seq<char>> {
    match key {
        NamedKey::Enter => Some("ret"@),
        NamedKey::Tab => Some("tab"@),
        NamedKey::Space => Some("space"@),
        NamedKey::Escape => Some("esc"@),
        NamedKey::ArrowUp => Some("up"@),
        NamedKey::ArrowDown => Some("down"@),
        NamedKey::ArrowLeft => Some("left"@),
        NamedKey::ArrowRight => Some("right"@),
        NamedKey::Backspace => Some("backspace"@),
        NamedKey::Delete => Some("del"@),
        NamedKey::Home => Some("home"@),
        NamedKey::End => Some("end"@),
        NamedKey::PageUp => Some("pageup"@),
        NamedKey::PageDown => Some("pagedown"@),
        NamedKey::Other => None,
    }
}

/// A key with its modifiers, as the editor writes it.
pub open spec fn key_text(modifiers: Modifiers, base: Seq<char>) -> Seq<char> {
    "<"@ + (if modifiers.shift {
        "s-"@
    } else {
        Seq::empty()
    }) + (if modifiers.alt {
        "a-"@
    } else {
        Seq::empty()
    }) + (if modifiers.control {
        "c-"@
    } else {
        Seq::empty()
    }) + base + ">"@
}

/// A key with its modifiers, as the editor writes it.
pub fn format_modified_key(modifiers: Modifiers, base: &str) -> (text: String)
    ensures
        text@ == key_text(modifiers, base@),
{
    let mut text = "<".to_string();
    if modifiers.shift {
        text.append("s-");
    } else {
        assert(text@ + Seq::empty() =~= text@);
    }
    if modifiers.alt {
        text.append("a-");
    } else {
        assert(text@ + Seq::empty() =~= text@);
    }
    if modifiers.control {
        text.append("c-");
    } else {
        assert(text@ + Seq::empty() =~= text@);
    }
    text.append(base);
    text.append(">");
    text
}

/// A named key as the editor writes it, if it has a name for the key.
pub open spec fn named_key_text(key: NamedKey, modifiers: Modifiers) -> Option<Seq<char>> {
    match key_name(key) {
        Some(name) => Some(key_text(modifiers, name)),
        None => None,
    }
}

/// A named key as the editor writes it, if it has a name for the key.
pub fn named_key_to_kak(key: NamedKey, modifiers: Modifiers) -> (text: Option<String>)
    ensures
        match text {
            Some(found) => named_key_text(key, modifiers) == Some(found@),
            None => named_key_text(key, modifiers) is None,
        },
{
    let base = match key {
        NamedKey::Enter => "ret",
        NamedKey::Tab => "tab",
        NamedKey::Space => "space",
        NamedKey::Escape => "esc",
        NamedKey::ArrowUp => "up",
        NamedKey::ArrowDown => "down",
        NamedKey::ArrowLeft => "left",
        NamedKey::ArrowRight => "right",
        NamedKey::Backspace => "backspace",
        NamedKey::Delete => "del",
        NamedKey::Home => "home",
        NamedKey::End => "end",
        NamedKey::PageUp => "pageup",
        NamedKey::PageDown => "pagedown",
        NamedKey::Other => return None,
    };
    Some(format_modified_key(modifiers, base))
}

/// A letter of the ASCII alphabet in lower case; any other character as it is.
pub open spec fn ascii_lower(c: char) -> char {
    if 'A' <= c && c <= 'Z' {
        ((c as u32) + 32) as char
    } else {
        c
    }
}

/// A letter of the ASCII alphabet in lower case; any other character as it is.
fn lower(c: char) -> (low: char)
    ensures
        low == ascii_lower(c),
{
    if 'A' <= c && c <= 'Z' {
        (c as u8 + 32) as char
    } else {
        c
    }
}

/// A character key with modifiers as the editor writes it: only for keys of a
/// single character.
pub open spec fn character_key_text(key: Key, modifiers: Modifiers) -> Option<Seq<char>> {
    match key {
        Key::Character(text) => if text@.len() == 1 {
            Some(key_text(modifiers, seq![ascii_lower(text@[0])]))
        } else {
            None
        },
        _ => None,
    }
}

/// A character key with modifiers as the editor writes it.
pub fn modified_character_key_to_kak(key: &Key, modifiers: Modifiers) -> (text: Option<String>)
    ensures
        match text {
            Some(found) => character_key_text(*key, modifiers) == Some(found@),
            None => character_key_text(*key, modifiers) is None,
        },
{
    match key {
        Key::Character(text) => {
            let chars = text_chars(text.as_str());
            if chars.len() != 1 {
                return None;
            }
            let mut base = String::new();
            base.push(lower(chars[0]));
            assert(base@ =~= seq![ascii_lower(text@[0])]);
            Some(format_modified_key(modifiers, base.as_str()))
        },
        _ => None,
    }
}

/// What a pressed key sends to the editor. A character is sent as it is typed,
/// unless control or alt is held down.
pub open spec fn key_event_text(event: KeyEvent, modifiers: Modifiers) -> Option<Seq<char>> {
    match event.logical_key {
        Key::Named(key) => named_key_text(key, modifiers),
        Key::Character(text) => if modifiers.control || modifiers.alt {
            character_key_text(event.key_without_modifiers, modifiers)
        } else {
            Some(text@)
        },
        Key::Unidentified => None,
    }
}

/// What a pressed key sends to the editor.
pub fn key_event_to_kak(event: &KeyEvent, modifiers: Modifiers) -> (text: Option<String>)
    ensures
        match text {
            Some(found) => key_event_text(*event, modifiers) == Some(found@),
            None => key_event_text(*event, modifiers) is None,
        },
{
    match &event.logical_key {
        Key::Named(key) => named_key_to_kak(*key, modifiers),
        Key::Character(text) => if modifiers.control || modifiers.alt {
            modified_character_key_to_kak(&event.key_without_modifiers, modifiers)
        } else {
            Some(text.clone())
        },
        Key::Unidentified => None,
    }
}

/// Whether a text begins with the mark of a modifier.
pub open spec fn has_mark(text: Seq<char>, letter: char) -> bool {
    text.len() >= 2 && text[0] == letter && text[1] == '-'
}

/// A text without the mark of a modifier at its front.
pub open spec fn without_mark(text: Seq<char>, letter: char) -> Seq<char> {
    if has_mark(text, letter) {
        text.skip(2)
    } else {
        text
    }
}

/// The modifiers and the key that a key's text stands for.
pub open spec fn read_key(text: Seq<char>) -> (bool, bool, bool, Seq<char>) {
    let inner = text.subrange(1, text.len() - 1);
    let after_shift = without_mark(inner, 's');
    let after_alt = without_mark(after_shift, 'a');
    (
        has_mark(inner, 's'),
        has_mark(after_shift, 'a'),
        has_mark(after_alt, 'c'),
        without_mark(after_alt, 'c'),
    )
}

/// The text of a key tells its modifiers and the key, for every key whose own
/// text does not look like a mark.
pub proof fn law_key_text_can_be_read_back(modifiers: Modifiers, base: Seq<char>)
    requires
        base.len() > 0,
        base.len() > 1 ==> base[1] != '-',
    ensures
        read_key(key_text(modifiers, base)) == (
            modifiers.shift,
            modifiers.alt,
            modifiers.control,
            base,
        ),
{
    reveal_strlit("<");
    reveal_strlit(">");
    reveal_strlit("s-");
    reveal_strlit("a-");
    reveal_strlit("c-");
    let none = Seq::<char>::empty();
    let control = if modifiers.control {
        "c-"@
    } else {
        none
    };
    let alt = if modifiers.alt {
        "a-"@
    } else {
        none
    };
    let shift = if modifiers.shift {
        "s-"@
    } else {
        none
    };
    let text = key_text(modifiers, base);
    let inner = text.subrange(1, text.len() - 1);
    assert(inner =~= shift + (alt + (control + base)));
    let rest = alt + (control + base);
    let last = control + base;
    assert((shift + rest).skip(shift.len() as int) =~= rest);
    assert((alt + last).skip(alt.len() as int) =~= last);
    assert((control + base).skip(control.len() as int) =~= base);
    assert(has_mark(inner, 's') == modifiers.shift);
    assert(without_mark(inner, 's') =~= rest);
    assert(has_mark(rest, 'a') == modifiers.alt);
    assert(without_mark(rest, 'a') =~= last);
    assert(has_mark(last, 'c') == modifiers.control);
    assert(without_mark(last, 'c') =~= base);
}

/// Every key of a single character and every named key can be read back from
/// its text.
pub proof fn law_editor_keys_can_be_read_back(key: NamedKey, modifiers: Modifiers, c: char)
    ensures
        read_key(key_text(modifiers, seq![c])) == (
            modifiers.shift,
            modifiers.alt,
            modifiers.control,
            seq![c],
        ),
        key_name(key) is Some ==> read_key(key_text(modifiers, key_name(key)->0)) == (
            modifiers.shift,
            modifiers.alt,
            modifiers.control,
            key_name(key)->0,
        ),
{
    law_key_text_can_be_read_back(modifiers, seq![c]);
    if key_name(key) is Some {
        reveal_strlit("ret");
        reveal_strlit("tab");
        reveal_strlit("space");
        reveal_strlit("esc");
        reveal_strlit("up");
        reveal_strlit("down");
        reveal_strlit("left");
        reveal_strlit("right");
        reveal_strlit("backspace");
        reveal_strlit("del");
        reveal_strlit("home");
        reveal_strlit("end");
        reveal_strlit("pageup");
        reveal_strlit("pagedown");
        law_key_text_can_be_read_back(modifiers, key_name(key)->0);
    }
}

/// The key that the editor means by a name.
pub open spec fn key_of_name(name: Seq<char>) -> NamedKey {
    if name == seq!['r', 'e', 't'] {
        NamedKey::Enter
    } else if name == seq!['t', 'a', 'b'] {
        NamedKey::Tab
    } else if name == seq!['s', 'p', 'a', 'c', 'e'] {
        NamedKey::Space
    } else if name == seq!['e', 's', 'c'] {
        NamedKey::Escape
    } else if name == seq!['u', 'p'] {
        NamedKey::ArrowUp
    } else if name == seq!['d', 'o', 'w', 'n'] {
        NamedKey::ArrowDown
    } else if name == seq!['l', 'e', 'f', 't'] {
        NamedKey::ArrowLeft
    } else if name == seq!['r', 'i', 'g', 'h', 't'] {
        NamedKey::ArrowRight
    } else if name == seq!['b', 'a', 'c', 'k', 's', 'p', 'a', 'c', 'e'] {
        NamedKey::Backspace
    } else if name == seq!['d', 'e', 'l'] {
        NamedKey::Delete
    } else if name == seq!['h', 'o', 'm', 'e'] {
        NamedKey::Home
    } else if name == seq!['e', 'n', 'd'] {
        NamedKey::End
    } else if name == seq!['p', 'a', 'g', 'e', 'u', 'p'] {
        NamedKey::PageUp
    } else if name == seq!['p', 'a', 'g', 'e', 'd', 'o', 'w', 'n'] {
        NamedKey::PageDown
    } else {
        NamedKey::Other
    }
}

/// The editor's name for a key means that key and no other, and only a key that
/// no name means has none.
pub proof fn law_key_names_mean_their_keys(key: NamedKey)
    ensures
        match key_name(key) {
            Some(name) => key_of_name(name) == key && key != NamedKey::Other,
            None => key == NamedKey::Other,
        },
{
    reveal_strlit("ret");
    reveal_strlit("tab");
    reveal_strlit("space");
    reveal_strlit("esc");
    reveal_strlit("up");
    reveal_strlit("down");
    reveal_strlit("left");
    reveal_strlit("right");
    reveal_strlit("backspace");
    reveal_strlit("del");
    reveal_strlit("home");
    reveal_strlit("end");
    reveal_strlit("pageup");
    reveal_strlit("pagedown");
    if let Some(name) = key_name(key) {
        match key {
            NamedKey::Enter => assert(name =~= seq!['r', 'e', 't']),
            NamedKey::Tab => assert(name =~= seq!['t', 'a', 'b']),
            NamedKey::Space => assert(name =~= seq!['s', 'p', 'a', 'c', 'e']),
            NamedKey::Escape => assert(name =~= seq!['e', 's', 'c']),
            NamedKey::ArrowUp => assert(name =~= seq!['u', 'p']),
            NamedKey::ArrowDown => assert(name =~= seq!['d', 'o', 'w', 'n']),
            NamedKey::ArrowLeft => assert(name =~= seq!['l', 'e', 'f', 't']),
            NamedKey::ArrowRight => assert(name =~= seq!['r', 'i', 'g', 'h', 't']),
            NamedKey::Backspace => assert(name =~= seq![
                'b',
                'a',
                'c',
                'k',
                's',
                'p',
                'a',
                'c',
                'e',
            ]),
            NamedKey::Delete => assert(name =~= seq!['d', 'e', 'l']),
            NamedKey::Home => assert(name =~= seq!['h', 'o', 'm', 'e']),
            NamedKey::End => assert(name =~= seq!['e', 'n', 'd']),
            NamedKey::PageUp => assert(name =~= seq!['p', 'a', 'g', 'e', 'u', 'p']),
            NamedKey::PageDown => assert(name =~= seq!['p', 'a', 'g', 'e', 'd', 'o', 'w', 'n']),
            NamedKey::Other => {},
        }
        assert(name[0] == name[0]);
    }
}

/// A pressed key with a name reaches the editor with all its modifiers: what is
/// sent reads back as the shift, alt and control that are held down, and as a name
/// that means the key. A key without a name sends nothing.
pub proof fn law_named_keys_keep_their_modifiers(
    event: KeyEvent,
    modifiers: Modifiers,
    key: NamedKey,
)
    requires
        event.logical_key == Key::Named(key),
    ensures
        match key_event_text(event, modifiers) {
            Some(sent) => {
                let (shift, alt, control, name) = read_key(sent);
                &&& shift == modifiers.shift
                &&& alt == modifiers.alt
                &&& control == modifiers.control
                &&& key_of_name(name) == key
                &&& key_name(key) == Some(name)
                &&& key != NamedKey::Other
                &&& sent.first() == '<'
                &&& sent.last() == '>'
            },
            None => key == NamedKey::Other,
        },
{
    law_editor_keys_can_be_read_back(key, modifiers, 'x');
    law_key_names_mean_their_keys(key);
    reveal_strlit("<");
    reveal_strlit(">");
}

/// A pressed character reaches the editor: as it was typed, where neither control
/// nor alt is held down, and otherwise with its modifiers, as the key would be
/// without them, a capital letter as the small one. Only a key that is not one
/// character without its modifiers sends nothing.
pub proof fn law_characters_keep_their_modifiers(
    event: KeyEvent,
    modifiers: Modifiers,
    typed: String,
)
    requires
        event.logical_key == Key::Character(typed),
    ensures
        !modifiers.control && !modifiers.alt ==> key_event_text(event, modifiers) == Some(typed@),
        modifiers.control || modifiers.alt ==> match key_event_text(event, modifiers) {
            Some(sent) => {
                let (shift, alt, control, base) = read_key(sent);
                &&& shift == modifiers.shift
                &&& alt == modifiers.alt
                &&& control == modifiers.control
                &&& base.len() == 1
                &&& sent.first() == '<'
                &&& sent.last() == '>'
                &&& event.key_without_modifiers matches Key::Character(plain) && plain@.len() == 1
                    && base[0] as u32 == plain@[0] as u32 + if 65 <= plain@[0] as u32 <= 90 {
                    32int
                } else {
                    0int
                }
            },
            None => !(event.key_without_modifiers matches Key::Character(plain) && plain@.len()
                == 1),
        },
{
    reveal_strlit("<");
    reveal_strlit(">");
    if modifiers.control || modifiers.alt {
        if let Key::Character(plain) = event.key_without_modifiers {
            if plain@.len() == 1 {
                law_editor_keys_can_be_read_back(NamedKey::Other, modifiers, ascii_lower(plain@[0]));
            }
        }
    }
}

/// A key that the window system does not know sends nothing.
pub proof fn law_unknown_keys_send_nothing(event: KeyEvent, modifiers: Modifiers)
    requires
        event.logical_key is Unidentified,
    ensures
        key_event_text(event, modifiers) is None,
{
}

/// The editor knows the left, the right and the middle button by their own names,
/// and no other button.
pub proof fn law_buttons_keep_their_sides(button: MouseButton)
    ensures
        button_name(button) == Some(MouseButtonName::Left) <==> button is Left,
        button_name(button) == Some(MouseButtonName::Right) <==> button is Right,
        button_name(button) == Some(MouseButtonName::Middle) <==> button is Middle,
{
}

/// A pointer is in the cell whose edges lie round it, and in the first row or
/// column where it is above or left of the grid.
pub proof fn law_pointer_lies_in_its_cell(
    x: usize,
    y: usize,
    metrics: CellMetrics,
    top_padding: usize,
)
    requires
        metrics.cell_width > 0,
        metrics.cell_height > 0,
    ensures
        ({
            let coord = cell_at(x, y, metrics, top_padding);
            &&& x >= 12 ==> 12 + coord.column * metrics.cell_width <= x < 12 + (coord.column + 1)
                * metrics.cell_width
            &&& x < 12 ==> coord.column == 0
            &&& y >= top_padding ==> top_padding + coord.line * metrics.cell_height <= y
                < top_padding + (coord.line + 1) * metrics.cell_height
            &&& y < top_padding ==> coord.line == 0
        }),
{
    lemma_cell_of_pixel(less(x as int, PADDING as int) as int, metrics.cell_width as int);
    lemma_cell_of_pixel(less(y as int, top_padding as int) as int, metrics.cell_height as int);
}

/// A pixel lies between the edges of the cell that division gives.
proof fn lemma_cell_of_pixel(pixel: int, side: int)
    requires
        0 <= pixel,
        0 < side,
    ensures
        (pixel / side) * side <= pixel < (pixel / side + 1) * side,
        0 <= pixel / side <= pixel,
        pixel == 0 ==> pixel / side == 0,
{
    vstd::arithmetic::div_mod::lemma_fundamental_div_mod(pixel, side);
    let cell = pixel / side;
    assert(cell * side <= pixel < (cell + 1) * side && 0 <= cell <= pixel && (pixel == 0 ==> cell
        == 0)) by (nonlinear_arith)
        requires
            pixel == side * cell + pixel % side,
            0 <= pixel % side < side,
            0 < side,
            0 <= pixel,
            cell == pixel / side,
    ;
}

} // verus!
