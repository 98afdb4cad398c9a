//! What a window shows, and how the editor's notifications change it.

use vstd::prelude::*;

use crate::messages::{
    option_text, plain_face, ui_option_text, Atom, AtomView, Coord, Face, FaceView, InfoStyle,
    KakouneNotification, MenuStyle, StatusStyle,
};
use crate::strings::{same_text, trim_text, trimmed};
use crate::title::{decode_title_update, title_in, DEFAULT_WINDOW_TITLE};

verus! {

/// The user interface option that holds the editing mode.
pub const CURSOR_MODE_UI_OPTION: &'static str = "kakvide_cursor_mode";

/// The editing mode that the cursor stands for.
#[derive(Debug, Clone, Copy, PartialEq, Eq, Structural)]
pub enum CursorMode {
    Normal,
    Insert,
    Replace,
    Unknown,
}

impl Default for CursorMode {
    fn default() -> (mode: Self)
        ensures
            mode == CursorMode::Unknown,
    {
        CursorMode::Unknown
    }
}

/// The mode that a text names.
pub open spec fn named_mode(text: Seq<char>) -> CursorMode {
    let name = trimmed(text);
    if name == "normal"@ {
        CursorMode::Normal
    } else if name == "insert"@ {
        CursorMode::Insert
    } else if name == "replace"@ {
        CursorMode::Replace
    } else {
        CursorMode::Unknown
    }
}

impl CursorMode {
    /// The mode that an option's value names, white space aside.
    pub fn from_ui_option(value: &str) -> (mode: Self)
        ensures
            mode == named_mode(value@),
    {
        let name = trim_text(value);
        if same_text(name, "normal") {
            CursorMode::Normal
        } else if same_text(name, "insert") {
            CursorMode::Insert
        } else if same_text(name, "replace") {
            CursorMode::Replace
        } else {
            CursorMode::Unknown
        }
    }
}

/// The text of the window.
#[derive(Debug, Clone, PartialEq, Eq)]
pub struct GridState {
    pub lines: Vec<Vec<Atom>>,
    pub cursor_pos: Coord,
    pub default_face: Face,
    pub padding_face: Face,
    pub widget_columns: usize,
}

/// The text of the window, as sequences.
pub struct GridView {
    pub lines: Seq<Seq<AtomView>>,
    pub cursor_pos: Coord,
    pub default_face: FaceView,
    pub padding_face: FaceView,
    pub widget_columns: usize,
}

impl DeepView for GridState {
    type V = GridView;

    open spec fn deep_view(&self) -> GridView {
        GridView {
            lines: self.lines.deep_view(),
            cursor_pos: self.cursor_pos,
            default_face: self.default_face.deep_view(),
            padding_face: self.padding_face.deep_view(),
            widget_columns: self.widget_columns,
        }
    }
}

/// The grid before the first drawing.
pub open spec fn empty_grid() -> GridView {
    GridView {
        lines: Seq::empty(),
        cursor_pos: Coord { line: 0, column: 0 },
        default_face: plain_face(),
        padding_face: plain_face(),
        widget_columns: 0,
    }
}

impl Default for GridState {
    fn default() -> (grid: Self)
        ensures
            grid.deep_view() == empty_grid(),
    {
        let grid = GridState {
            lines: Vec::new(),
            cursor_pos: Coord { line: 0, column: 0 },
            default_face: Face::default(),
            padding_face: Face::default(),
            widget_columns: 0,
        };
        assert(grid.lines.deep_view() =~= Seq::empty());
        grid
    }
}

/// The line below the text.
#[derive(Debug, Clone, PartialEq, Eq)]
pub struct StatusState {
    pub prompt: Vec<Atom>,
    pub content: Vec<Atom>,
    pub cursor_pos: isize,
    pub mode_line: Vec<Atom>,
    pub default_face: Face,
    pub style: StatusStyle,
}

/// The line below the text, as sequences.
pub struct StatusView {
    pub prompt: Seq<AtomView>,
    pub content: Seq<AtomView>,
    pub cursor_pos: isize,
    pub mode_line: Seq<AtomView>,
    pub default_face: FaceView,
    pub style: StatusStyle,
}

impl DeepView for StatusState {
    type V = StatusView;

    open spec fn deep_view(&self) -> StatusView {
        StatusView {
            prompt: self.prompt.deep_view(),
            content: self.content.deep_view(),
            cursor_pos: self.cursor_pos,
            mode_line: self.mode_line.deep_view(),
            default_face: self.default_face.deep_view(),
            style: self.style,
        }
    }
}

/// A status line that says nothing.
pub open spec fn empty_status() -> StatusView {
    StatusView {
        prompt: Seq::empty(),
        content: Seq::empty(),
        cursor_pos: 0,
        mode_line: Seq::empty(),
        default_face: plain_face(),
        style: StatusStyle::Status,
    }
}

impl Default for StatusState {
    fn default() -> (status: Self)
        ensures
            status.deep_view() == empty_status(),
    {
        let status = StatusState {
            prompt: Vec::new(),
            content: Vec::new(),
            cursor_pos: 0,
            mode_line: Vec::new(),
            default_face: Face::default(),
            style: StatusStyle::Status,
        };
        assert(status.prompt.deep_view() =~= Seq::empty());
        assert(status.content.deep_view() =~= Seq::empty());
        assert(status.mode_line.deep_view() =~= Seq::empty());
        status
    }
}

/// A menu of choices.
#[derive(Debug, Clone, PartialEq, Eq)]
pub struct MenuState {
    pub items: Vec<Vec<Atom>>,
    pub anchor: Coord,
    pub selected: Option<usize>,
    pub selected_face: Face,
    pub menu_face: Face,
    pub style: MenuStyle,
}

/// A menu of choices, as sequences.
pub struct MenuView {
    pub items: Seq<Seq<AtomView>>,
    pub anchor: Coord,
    pub selected: Option<usize>,
    pub selected_face: FaceView,
    pub menu_face: FaceView,
    pub style: MenuStyle,
}

impl DeepView for MenuState {
    type V = MenuView;

    open spec fn deep_view(&self) -> MenuView {
        MenuView {
            items: self.items.deep_view(),
            anchor: self.anchor,
            selected: self.selected,
            selected_face: self.selected_face.deep_view(),
            menu_face: self.menu_face.deep_view(),
            style: self.style,
        }
    }
}

/// A box of information.
#[derive(Debug, Clone, PartialEq, Eq)]
pub struct InfoState {
    pub title: Vec<Atom>,
    pub content: Vec<Vec<Atom>>,
    pub anchor: Coord,
    pub face: Face,
    pub style: InfoStyle,
}

/// A box of information, as sequences.
pub struct InfoView {
    pub title: Seq<AtomView>,
    pub content: Seq<Seq<AtomView>>,
    pub anchor: Coord,
    pub face: FaceView,
    pub style: InfoStyle,
}

impl DeepView for InfoState {
    type V = InfoView;

    open spec fn deep_view(&self) -> InfoView {
        InfoView {
            title: self.title.deep_view(),
            content: self.content.deep_view(),
            anchor: self.anchor,
            face: self.face.deep_view(),
            style: self.style,
        }
    }
}

/// What a window shows.
#[derive(Debug, Clone, PartialEq, Eq)]
pub struct AppState {
    pub grid: GridState,
    pub status: Option<StatusState>,
    pub menu: Option<MenuState>,
    pub info: Option<InfoState>,
    pub window_title: String,
    pub cursor_mode: CursorMode,
}

/// What a window shows, as sequences.
pub struct AppView {
    pub grid: GridView,
    pub status: Option<StatusView>,
    pub menu: Option<MenuView>,
    pub info: Option<InfoView>,
    pub window_title: Seq<char>,
    pub cursor_mode: CursorMode,
}

impl DeepView for AppState {
    type V = AppView;

    open spec fn deep_view(&self) -> AppView {
        AppView {
            grid: self.grid.deep_view(),
            status: self.status.deep_view(),
            menu: self.menu.deep_view(),
            info: self.info.deep_view(),
            window_title: self.window_title@,
            cursor_mode: self.cursor_mode,
        }
    }
}

/// What a window shows before the editor has said anything.
pub open spec fn initial_app() -> AppView {
    AppView {
        grid: empty_grid(),
        status: None,
        menu: None,
        info: None,
        window_title: DEFAULT_WINDOW_TITLE@,
        cursor_mode: CursorMode::Unknown,
    }
}

impl Default for AppState {
    fn default() -> (state: Self)
        ensures
            state.deep_view() == initial_app(),
    {
        AppState {
            grid: GridState::default(),
            status: None,
            menu: None,
            info: None,
            window_title: DEFAULT_WINDOW_TITLE.to_string(),
            cursor_mode: CursorMode::default(),
        }
    }
}

/// The mode that a set of options names.
pub open spec fn mode_in(
    options: serde_json::Map<String, serde_json::Value>,
) -> Option<CursorMode> {
    match option_text(options, CURSOR_MODE_UI_OPTION@) {
        Some(text) => Some(named_mode(text)),
        None => None,
    }
}

/// What a window shows after a notification.
pub open spec fn notified(before: AppView, notification: KakouneNotification) -> AppView {
    match notification {
        KakouneNotification::Draw {
            lines,
            cursor_pos,
            default_face,
            padding_face,
            widget_columns,
        } => AppView {
            grid: GridView {
                lines: lines.deep_view(),
                cursor_pos,
                default_face: default_face.deep_view(),
                padding_face: padding_face.deep_view(),
                widget_columns,
            },
            ..before
        },
        KakouneNotification::DrawStatus {
            prompt,
            content,
            cursor_pos,
            mode_line,
            default_face,
            style,
        } => AppView {
            status: Some(
                StatusView {
                    prompt: prompt.deep_view(),
                    content: content.deep_view(),
                    cursor_pos,
                    mode_line: mode_line.deep_view(),
                    default_face: default_face.deep_view(),
                    style,
                },
            ),
            ..before
        },
        KakouneNotification::Refresh { force } => before,
        KakouneNotification::SetUiOptions { options } => AppView {
            window_title: match title_in(options) {
                Some(update) => update.window_title,
                None => before.window_title,
            },
            cursor_mode: match mode_in(options) {
                Some(mode) => mode,
                None => before.cursor_mode,
            },
            ..before
        },
        KakouneNotification::MenuShow { items, anchor, selected_face, menu_face, style } => AppView {
            menu: Some(
                MenuView {
                    items: items.deep_view(),
                    anchor,
                    selected: None,
                    selected_face: selected_face.deep_view(),
                    menu_face: menu_face.deep_view(),
                    style,
                },
            ),
            ..before
        },
        KakouneNotification::MenuSelect { selected } => AppView {
            menu: match before.menu {
                Some(menu) => Some(
                    MenuView {
                        selected: if selected >= 0 {
                            Some(selected as usize)
                        } else {
                            None
                        },
                        ..menu
                    },
                ),
                None => None,
            },
            ..before
        },
        KakouneNotification::MenuHide => AppView { menu: None, ..before },
        KakouneNotification::InfoShow { title, content, anchor, face, style } => AppView {
            info: Some(
                InfoView {
                    title: title.deep_view(),
                    content: content.deep_view(),
                    anchor,
                    face: face.deep_view(),
                    style,
                },
            ),
            ..before
        },
        KakouneNotification::InfoHide => AppView { info: None, ..before },
    }
}

/// The mode that a set of options names.
fn cursor_mode_from_ui_options(
    options: &serde_json::Map<String, serde_json::Value>,
) -> (mode: Option<CursorMode>)
    ensures
        mode == mode_in(*options),
{
    match ui_option_text(options, CURSOR_MODE_UI_OPTION) {
        Some(text) => Some(CursorMode::from_ui_option(text.as_str())),
        None => None,
    }
}

/// Change what a window shows as a notification says.
pub fn apply_notification(state: &mut AppState, notification: KakouneNotification)
    ensures
        final(state).deep_view() == notified(old(state).deep_view(), notification),
        match notification {
            KakouneNotification::Draw {
                lines,
                cursor_pos,
                default_face,
                padding_face,
                widget_columns,
            } => {
                &&& final(state).grid.lines == lines
                &&& final(state).grid.cursor_pos == cursor_pos
                &&& final(state).grid.default_face == default_face
                &&& final(state).grid.padding_face == padding_face
                &&& final(state).grid.widget_columns == widget_columns
            },
            KakouneNotification::DrawStatus {
                prompt,
                content,
                cursor_pos,
                mode_line,
                default_face,
                style,
            } => {
                &&& final(state).status is Some
                &&& final(state).status->0.prompt == prompt
                &&& final(state).status->0.content == content
                &&& final(state).status->0.cursor_pos == cursor_pos
                &&& final(state).status->0.mode_line == mode_line
                &&& final(state).status->0.default_face == default_face
                &&& final(state).status->0.style == style
            },
            KakouneNotification::MenuShow { items, anchor, selected_face, menu_face, style } => {
                &&& final(state).menu is Some
                &&& final(state).menu->0.items == items
                &&& final(state).menu->0.anchor == anchor
                &&& final(state).menu->0.selected is None
                &&& final(state).menu->0.selected_face == selected_face
                &&& final(state).menu->0.menu_face == menu_face
                &&& final(state).menu->0.style == style
            },
            KakouneNotification::MenuSelect { selected } => old(state).menu is Some ==> {
                &&& final(state).menu is Some
                &&& match final(state).menu->0.selected {
                    Some(item) => item == selected,
                    None => selected < 0,
                }
            },
            KakouneNotification::InfoShow { title, content, anchor, face, style } => {
                &&& final(state).info is Some
                &&& final(state).info->0.title == title
                &&& final(state).info->0.content == content
                &&& final(state).info->0.anchor == anchor
                &&& final(state).info->0.face == face
                &&& final(state).info->0.style == style
            },
            KakouneNotification::MenuHide => final(state).menu is None,
            KakouneNotification::InfoHide => final(state).info is None,
            _ => true,
        },
{
    match notification {
        KakouneNotification::Draw {
            lines,
            cursor_pos,
            default_face,
            padding_face,
            widget_columns,
        } => {
            state.grid =
            GridState { lines, cursor_pos, default_face, padding_face, widget_columns };
        },
        KakouneNotification::DrawStatus {
            prompt,
            content,
            cursor_pos,
            mode_line,
            default_face,
            style,
        } => {
            state.status =
            Some(
                StatusState { prompt, content, cursor_pos, mode_line, default_face, style },
            );
        },
        KakouneNotification::Refresh { force: _ } => {},
        KakouneNotification::SetUiOptions { options } => {
            if let Some(update) = decode_title_update(&options) {
                state.window_title = update.window_title;
            }
            if let Some(mode) = cursor_mode_from_ui_options(&options) {
                state.cursor_mode = mode;
            }
        },
        KakouneNotification::MenuShow { items, anchor, selected_face, menu_face, style } => {
            state.menu =
            Some(MenuState { items, anchor, selected: None, selected_face, menu_face, style });
        },
        KakouneNotification::MenuSelect { selected } => {
            if let Some(menu) = &mut state.menu {
                menu.selected =
                if selected >= 0 {
                    Some(selected as usize)
                } else {
                    None
                };
            }
        },
        KakouneNotification::MenuHide => {
            state.menu = None;
        },
        KakouneNotification::InfoShow { title, content, anchor, face, style } => {
            state.info = Some(InfoState { title, content, anchor, face, style });
        },
        KakouneNotification::InfoHide => {
            state.info = None;
        },
    }
}

/// The part of the window that a notification is about.
pub enum Part {
    Grid,
    Status,
    Menu,
    Info,
    Options,
    Nothing,
}

/// The part of the window that a notification is about.
pub open spec fn part_of(notification: KakouneNotification) -> Part {
    match notification {
        KakouneNotification::Draw { .. } => Part::Grid,
        KakouneNotification::DrawStatus { .. } => Part::Status,
        KakouneNotification::Refresh { .. } => Part::Nothing,
        KakouneNotification::SetUiOptions { .. } => Part::Options,
        KakouneNotification::MenuShow { .. } => Part::Menu,
        KakouneNotification::MenuSelect { .. } => Part::Menu,
        KakouneNotification::MenuHide => Part::Menu,
        KakouneNotification::InfoShow { .. } => Part::Info,
        KakouneNotification::InfoHide => Part::Info,
    }
}

/// A notification changes no part of the window but its own.
pub proof fn law_notifications_keep_to_their_part(
    before: AppView,
    notification: KakouneNotification,
)
    ensures
        ({
            let after = notified(before, notification);
            let part = part_of(notification);
            &&& part != Part::Grid ==> after.grid == before.grid
            &&& part != Part::Status ==> after.status == before.status
            &&& part != Part::Menu ==> after.menu == before.menu
            &&& part != Part::Info ==> after.info == before.info
            &&& part != Part::Options ==> after.window_title == before.window_title
                && after.cursor_mode == before.cursor_mode
        }),
{
}

/// A drawing is shown as the editor sent it: each field of the grid is the field
/// of the same name in the notification.
pub proof fn law_drawing_is_shown_as_sent(before: AppView, notification: KakouneNotification)
    requires
        notification is Draw,
    ensures
        notification matches KakouneNotification::Draw {
            lines,
            cursor_pos,
            default_face,
            padding_face,
            widget_columns,
        } ==> {
            let grid = notified(before, notification).grid;
            &&& grid.lines.len() == lines@.len()
            &&& forall|i: int, j: int|
                0 <= i < lines@.len() && 0 <= j < lines@[i]@.len() ==> (
                #[trigger] grid.lines[i][j]).contents == lines@[i]@[j].contents@
                    && grid.lines[i][j].face.fg == lines@[i]@[j].face.fg@
                    && grid.lines[i][j].face.bg == lines@[i]@[j].face.bg@
            &&& forall|i: int|
                0 <= i < lines@.len() ==> (#[trigger] grid.lines[i]).len() == lines@[i]@.len()
            &&& grid.cursor_pos.line == cursor_pos.line
            &&& grid.cursor_pos.column == cursor_pos.column
            &&& grid.default_face.fg == default_face.fg@
            &&& grid.default_face.bg == default_face.bg@
            &&& grid.default_face.underline == default_face.underline@
            &&& grid.default_face.attributes == default_face.attributes.deep_view()
            &&& grid.padding_face.fg == padding_face.fg@
            &&& grid.padding_face.bg == padding_face.bg@
            &&& grid.padding_face.underline == padding_face.underline@
            &&& grid.padding_face.attributes == padding_face.attributes.deep_view()
            &&& grid.widget_columns == widget_columns
        },
{
}

/// A status line is shown as the editor sent it, part by part.
pub proof fn law_status_is_shown_as_sent(before: AppView, notification: KakouneNotification)
    requires
        notification is DrawStatus,
    ensures
        notification matches KakouneNotification::DrawStatus {
            prompt,
            content,
            cursor_pos,
            mode_line,
            default_face,
            style,
        } ==> {
            let status = notified(before, notification).status;
            &&& status is Some
            &&& status->0.prompt == prompt.deep_view()
            &&& status->0.content == content.deep_view()
            &&& status->0.cursor_pos == cursor_pos
            &&& status->0.mode_line == mode_line.deep_view()
            &&& status->0.default_face == default_face.deep_view()
            &&& status->0.style == style
        },
{
}

/// A menu is shown as the editor sent it, part by part, and a hidden one is gone.
pub proof fn law_menu_is_shown_as_sent(before: AppView, notification: KakouneNotification)
    ensures
        notification matches KakouneNotification::MenuShow {
            items,
            anchor,
            selected_face,
            menu_face,
            style,
        } ==> {
            let menu = notified(before, notification).menu;
            &&& menu is Some
            &&& menu->0.items == items.deep_view()
            &&& menu->0.anchor == anchor
            &&& menu->0.selected is None
            &&& menu->0.selected_face == selected_face.deep_view()
            &&& menu->0.menu_face == menu_face.deep_view()
            &&& menu->0.style == style
        },
        notification is MenuHide ==> notified(before, notification).menu is None,
{
}

/// Information is shown as the editor sent it, part by part, and is gone once it
/// is hidden.
pub proof fn law_information_is_shown_as_sent(
    before: AppView,
    notification: KakouneNotification,
)
    ensures
        notification matches KakouneNotification::InfoShow {
            title,
            content,
            anchor,
            face,
            style,
        } ==> {
            let info = notified(before, notification).info;
            &&& info is Some
            &&& info->0.title == title.deep_view()
            &&& info->0.content == content.deep_view()
            &&& info->0.anchor == anchor
            &&& info->0.face == face.deep_view()
            &&& info->0.style == style
        },
        notification is InfoHide ==> notified(before, notification).info is None,
{
}

/// The name under which the editor announces a mode.
pub open spec fn mode_name(mode: CursorMode) -> Option<Seq<char>> {
    match mode {
        CursorMode::Normal => Some("normal"@),
        CursorMode::Insert => Some("insert"@),
        CursorMode::Replace => Some("replace"@),
        CursorMode::Unknown => None,
    }
}

/// An announced mode is the mode of the window, whatever white space stands
/// around its name; any other announcement leaves the mode unknown; and options
/// that announce none keep the mode that there was.
pub proof fn law_announced_mode_is_shown(
    before: AppView,
    options: serde_json::Map<String, serde_json::Value>,
    mode: CursorMode,
)
    ensures
        ({
            let after = notified(before, KakouneNotification::SetUiOptions { options });
            match option_text(options, "kakvide_cursor_mode"@) {
                Some(text) => {
                    &&& mode_name(mode) == Some(trimmed(text)) ==> after.cursor_mode == mode
                    &&& mode_name(after.cursor_mode) is Some ==> mode_name(after.cursor_mode)
                        == Some(trimmed(text))
                },
                None => after.cursor_mode == before.cursor_mode,
            }
        }),
{
    reveal_strlit("normal");
    reveal_strlit("insert");
    reveal_strlit("replace");
    assert("normal"@[0] != "insert"@[0]);
    assert("normal"@[0] != "replace"@[0]);
    assert("insert"@[0] != "replace"@[0]);
}

/// An announced title is the title of the window, behind the program's name; a
/// blank one leaves the program's name alone; and options that announce none
/// keep the title that there was.
pub proof fn law_announced_title_is_shown(
    before: AppView,
    options: serde_json::Map<String, serde_json::Value>,
)
    ensures
        ({
            let after = notified(before, KakouneNotification::SetUiOptions { options });
            match option_text(options, "kakvide_title"@) {
                Some(text) => if trimmed(text).len() == 0 {
                    after.window_title == "kakvide"@
                } else {
                    after.window_title == "kakvide - "@ + trimmed(text)
                },
                None => after.window_title == before.window_title,
            }
        }),
{
    reveal_strlit("kakvide");
    reveal_strlit(" - ");
    reveal_strlit("kakvide - ");
    assert("kakvide - "@ =~= "kakvide"@ + " - "@);
}

/// Notifications about different parts may come in either order.
pub proof fn law_notifications_about_different_parts_commute(
    before: AppView,
    first: KakouneNotification,
    second: KakouneNotification,
)
    requires
        part_of(first) != part_of(second),
    ensures
        notified(notified(before, first), second) == notified(notified(before, second), first),
{
}

/// Of two drawings only the last is seen; so it is with status lines, and with
/// the showing and hiding of menus and of information.
pub proof fn law_last_notification_wins(
    before: AppView,
    first: KakouneNotification,
    last: KakouneNotification,
)
    requires
        part_of(first) == part_of(last),
        !(last is MenuSelect),
        !(last is SetUiOptions),
    ensures
        notified(notified(before, first), last) == notified(before, last),
{
}

/// A refresh changes nothing.
pub proof fn law_refresh_changes_nothing(before: AppView, force: bool)
    ensures
        notified(before, KakouneNotification::Refresh { force }) == before,
{
}

/// A menu shows no selection until one is made; selecting keeps everything else
/// of the menu, a negative number takes the selection back, and without a menu
/// there is nothing to select.
pub proof fn law_selection_belongs_to_the_menu(
    before: AppView,
    show: KakouneNotification,
    selected: isize,
)
    requires
        show is MenuShow,
    ensures
        ({
            let shown = notified(before, show);
            let chosen = notified(shown, KakouneNotification::MenuSelect { selected });
            &&& shown.menu is Some
            &&& shown.menu->0.selected is None
            &&& chosen.menu is Some
            &&& chosen.menu->0 == (MenuView { selected: chosen.menu->0.selected, ..shown.menu->0 })
            &&& selected >= 0 ==> chosen.menu->0.selected == Some(selected as usize)
            &&& selected < 0 ==> chosen == shown
        }),
        before.menu is None ==> notified(before, KakouneNotification::MenuSelect { selected })
            == before,
{
}

/// Options that hold neither a title nor a mode change nothing, and the same
/// options change nothing a second time.
pub proof fn law_options_settle(
    before: AppView,
    options: serde_json::Map<String, serde_json::Value>,
)
    ensures
        ({
            let once = notified(before, KakouneNotification::SetUiOptions { options });
            &&& notified(once, KakouneNotification::SetUiOptions { options }) == once
            &&& title_in(options) is None && mode_in(options) is None ==> once == before
        }),
{
}

/// A window shows nothing before the editor has said anything: no text, no status
/// line, no menu and no information, the cursor in the first cell, plain faces, and
/// the program's own name for a title.
pub proof fn law_window_begins_blank()
    ensures
        ({
            let state = initial_app();
            &&& state.grid.lines.len() == 0
            &&& state.grid.cursor_pos.line == 0 && state.grid.cursor_pos.column == 0
            &&& state.grid.default_face == plain_face()
            &&& state.grid.padding_face == plain_face()
            &&& state.grid.widget_columns == 0
            &&& state.status is None && state.menu is None && state.info is None
            &&& state.window_title == seq!['k', 'a', 'k', 'v', 'i', 'd', 'e']
            &&& state.cursor_mode is Unknown
            &&& plain_face().attributes.len() == 0
            &&& plain_face().fg == "default"@ && plain_face().bg == "default"@
            &&& plain_face().underline == "default"@
        }),
{
    reveal_strlit("kakvide");
    assert("kakvide"@ =~= seq!['k', 'a', 'k', 'v', 'i', 'd', 'e']);
}

/// The last selection counts: a menu shows the item that was last selected, and
/// none where a negative number was, whatever was selected before.
pub proof fn law_last_selection_counts(before: AppView, selected: isize)
    requires
        before.menu is Some,
    ensures
        notified(before, KakouneNotification::MenuSelect { selected }).menu == Some(
            MenuView {
                selected: if selected >= 0 {
                    Some(selected as usize)
                } else {
                    None
                },
                ..before.menu->0
            },
        ),
{
}

} // verus!
