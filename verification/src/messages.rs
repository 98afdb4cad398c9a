//! The values that the editor and its front end exchange.

use vstd::prelude::*;

verus! {

/// A cell of the editor's grid.
#[derive(Debug, Clone, Copy, PartialEq, Eq, Structural)]
pub struct Coord {
    pub line: usize,
    pub column: usize,
}

/// How a piece of text is to look: colour names and attribute names.
#[derive(Debug, PartialEq, Eq)]
pub struct Face {
    pub fg: String,
    pub bg: String,
    pub underline: String,
    pub attributes: Vec<String>,
}

/// What a face says, as sequences of characters.
pub struct FaceView {
    pub fg: Seq<char>,
    pub bg: Seq<char>,
    pub underline: Seq<char>,
    pub attributes: Seq<Seq<char>>,
}

impl DeepView for Face {
    type V = FaceView;

    open spec fn deep_view(&self) -> FaceView {
        FaceView {
            fg: self.fg@,
            bg: self.bg@,
            underline: self.underline@,
            attributes: self.attributes.deep_view(),
        }
    }
}

impl Clone for Face {
    fn clone(&self) -> (copy: Self)
        ensures
            copy.deep_view() == self.deep_view(),
    {
        let copy = Face {
            fg: self.fg.clone(),
            bg: self.bg.clone(),
            underline: self.underline.clone(),
            attributes: self.attributes.clone(),
        };
        assert(copy.attributes.deep_view() =~= self.attributes.deep_view());
        copy
    }
}

/// The face that leaves every choice to the display.
pub open spec fn plain_face() -> FaceView {
    FaceView {
        fg: "default"@,
        bg: "default"@,
        underline: "default"@,
        attributes: Seq::empty(),
    }
}

impl Default for Face {
    fn default() -> (face: Self)
        ensures
            face.deep_view() == plain_face(),
    {
        let face = Face {
            fg: "default".to_string(),
            bg: "default".to_string(),
            underline: "default".to_string(),
            attributes: Vec::new(),
        };
        assert(face.attributes.deep_view() =~= Seq::<Seq<char>>::empty());
        face
    }
}

/// A run of text in one face.
#[derive(Debug, PartialEq, Eq)]
pub struct Atom {
    pub face: Face,
    pub contents: String,
}

/// What an atom holds, as sequences of characters.
pub struct AtomView {
    pub face: FaceView,
    pub contents: Seq<char>,
}

impl DeepView for Atom {
    type V = AtomView;

    open spec fn deep_view(&self) -> AtomView {
        AtomView { face: self.face.deep_view(), contents: self.contents@ }
    }
}

impl Clone for Atom {
    fn clone(&self) -> (copy: Self)
        ensures
            copy.deep_view() == self.deep_view(),
    {
        Atom { face: self.face.clone(), contents: self.contents.clone() }
    }
}

/// Where a menu stands.
#[derive(Debug, Clone, Copy, PartialEq, Eq, Structural)]
pub enum MenuStyle {
    Prompt,
    Search,
    Inline,
}

/// Where an information box stands.
#[derive(Debug, Clone, Copy, PartialEq, Eq, Structural)]
pub enum InfoStyle {
    Prompt,
    Inline,
    InlineAbove,
    InlineBelow,
    MenuDoc,
    Modal,
}

/// What the status line is used for.
#[derive(Debug, Clone, Copy, PartialEq, Eq, Structural)]
pub enum StatusStyle {
    Status,
    Command,
    Search,
    Prompt,
}

/// A mouse button that the editor knows.
#[derive(Debug, Clone, Copy, PartialEq, Eq, Structural)]
pub enum MouseButtonName {
    Left,
    Right,
    Middle,
}

/// `serde_json::Map`, the options of a user interface by name.
#[verifier::external_type_specification]
#[verifier::external_body]
#[verifier::reject_recursive_types(K)]
#[verifier::reject_recursive_types(V)]
pub struct ExJsonMap<K, V>(serde_json::Map<K, V>);

/// `serde_json::Value`, a JSON value.
#[verifier::external_type_specification]
#[verifier::external_body]
pub struct ExJsonValue(serde_json::Value);

/// What the editor tells its front end.
#[derive(Debug)]
#[allow(inconsistent_fields)]
pub enum KakouneNotification {
    Draw {
        lines: Vec<Vec<Atom>>,
        cursor_pos: Coord,
        default_face: Face,
        padding_face: Face,
        widget_columns: usize,
    },
    DrawStatus {
        prompt: Vec<Atom>,
        content: Vec<Atom>,
        cursor_pos: isize,
        mode_line: Vec<Atom>,
        default_face: Face,
        style: StatusStyle,
    },
    Refresh { force: bool },
    SetUiOptions { options: serde_json::Map<String, serde_json::Value> },
    MenuShow {
        items: Vec<Vec<Atom>>,
        anchor: Coord,
        selected_face: Face,
        menu_face: Face,
        style: MenuStyle,
    },
    MenuSelect { selected: isize },
    MenuHide,
    InfoShow {
        title: Vec<Atom>,
        content: Vec<Vec<Atom>>,
        anchor: Coord,
        face: Face,
        style: InfoStyle,
    },
    InfoHide,
}

/// What the front end asks of the editor.
#[derive(Debug, PartialEq, Eq)]
pub enum KakouneRequest {
    Resize { rows: usize, columns: usize },
    Keys { keys: Vec<String> },
    MouseMove { coord: Coord },
    MousePress { button: MouseButtonName, coord: Coord },
    MouseRelease { button: MouseButtonName, coord: Coord },
    Scroll { amount: i32, coord: Coord },
}

/// A request with its texts as sequences of characters.
pub enum RequestView {
    Resize { rows: usize, columns: usize },
    Keys { keys: Seq<Seq<char>> },
    MouseMove { coord: Coord },
    MousePress { button: MouseButtonName, coord: Coord },
    MouseRelease { button: MouseButtonName, coord: Coord },
    Scroll { amount: i32, coord: Coord },
}

impl DeepView for KakouneRequest {
    type V = RequestView;

    open spec fn deep_view(&self) -> RequestView {
        match self {
            KakouneRequest::Resize { rows, columns } => RequestView::Resize {
                rows: *rows,
                columns: *columns,
            },
            KakouneRequest::Keys { keys } => RequestView::Keys { keys: keys.deep_view() },
            KakouneRequest::MouseMove { coord } => RequestView::MouseMove { coord: *coord },
            KakouneRequest::MousePress { button, coord } => RequestView::MousePress {
                button: *button,
                coord: *coord,
            },
            KakouneRequest::MouseRelease { button, coord } => RequestView::MouseRelease {
                button: *button,
                coord: *coord,
            },
            KakouneRequest::Scroll { amount, coord } => RequestView::Scroll {
                amount: *amount,
                coord: *coord,
            },
        }
    }
}

/// The text under each name of a set of options; `None` where the value is no text.
pub uninterp spec fn option_texts(
    options: serde_json::Map<String, serde_json::Value>,
) -> Map<Seq<char>, Option<Seq<char>>>;

/// The text under a name: none where the name is missing or its value is no text.
pub open spec fn option_text(
    options: serde_json::Map<String, serde_json::Value>,
    name: Seq<char>,
) -> Option<Seq<char>> {
    if option_texts(options).contains_key(name) {
        option_texts(options)[name]
    } else {
        None
    }
}

/// `serde_json::Map::get`, with the value taken as text by `Value::as_str`.
///
/// Trusted: the result is the text under `name`, if the map holds a text there.
#[verifier::external_body]
pub(crate) fn ui_option_text(
    options: &serde_json::Map<String, serde_json::Value>,
    name: &str,
) -> (text: Option<String>)
    ensures
        match text {
            Some(found) => option_texts(*options).contains_key(name@) && option_texts(
                *options,
            )[name@] == Some(found@),
            None => option_texts(*options).contains_key(name@) ==> option_texts(
                *options,
            )[name@] is None,
        },
{
    options.get(name).and_then(serde_json::Value::as_str).map(str::to_string)
}

} // verus!
