//! The settings of the front end.

use vstd::prelude::*;

use crate::config_value::{
    distinct_keys, law_merge_goes_key_by_key, lemma_own_value, lemma_table_view,
    lemma_value_is_distinct, lookup, merge_toml_value, merged, parse_config, toml_document,
    unlike_keys, ConfigEntry, ConfigError, ConfigValue, ConfigView, EntryView,
};
use crate::paths::{copied_bytes, join_path, joined_path, text_bytes};
use crate::strings::same_text;

verus! {

/// A number with a fraction, by the bits of its double-precision form.
#[derive(Debug, Clone, Copy, PartialEq, Eq, Structural)]
pub struct Double {
    pub bits: u64,
}

/// The keys of the front end's own commands.
#[derive(Debug, Clone, PartialEq, Eq)]
pub struct UserKeysConfig {
    pub font_scale_up: String,
    pub font_scale_down: String,
    pub font_scale_reset: String,
    pub window_new: String,
    pub window_close: String,
}

/// How cells are drawn.
#[derive(Debug, Clone, Copy, PartialEq, Eq, Structural)]
pub struct CellConfig {
    pub underline_offset: Double,
}

/// The shape of a cursor.
#[derive(Debug, Clone, Copy, PartialEq, Eq, Structural)]
pub enum CursorShape {
    Block,
    Beam,
    Underline,
}

/// The shape of the cursor in each mode, where one is set.
#[derive(Debug, Clone, Copy, PartialEq, Eq, Structural)]
pub struct CursorShapeConfig {
    pub normal: Option<CursorShape>,
    pub insert: Option<CursorShape>,
    pub replace: Option<CursorShape>,
}

/// How the text is shown.
#[derive(Debug, Clone, Copy, PartialEq, Eq, Structural)]
pub struct DisplayConfig {
    pub cursor_shape: CursorShapeConfig,
}

/// The colours that a window on macOS can show.
#[derive(Debug, Clone, Copy, PartialEq, Eq, Structural)]
pub enum MacosColorSpace {
    P3,
    Srgb,
}

impl Default for MacosColorSpace {
    fn default() -> (space: Self)
        ensures
            space == MacosColorSpace::P3,
    {
        MacosColorSpace::P3
    }
}

/// What matters on macOS alone.
#[derive(Debug, Clone, Copy, PartialEq, Eq, Structural)]
pub struct MacosConfig {
    pub color_space: MacosColorSpace,
}

/// All settings.
#[derive(Debug, Clone, PartialEq, Eq)]
pub struct AppConfig {
    pub font_family: String,
    pub font_size: Double,
    pub mouse_scroll_rate: Double,
    pub transparent_menubar: bool,
    pub single_session: bool,
    pub session_name: String,
    pub cell: CellConfig,
    pub display: DisplayConfig,
    pub macos: MacosConfig,
    pub keys: UserKeysConfig,
}

/// The keys of the front end's own commands, as sequences of characters.
pub struct KeysView {
    pub font_scale_up: Seq<char>,
    pub font_scale_down: Seq<char>,
    pub font_scale_reset: Seq<char>,
    pub window_new: Seq<char>,
    pub window_close: Seq<char>,
}

impl DeepView for UserKeysConfig {
    type V = KeysView;

    open spec fn deep_view(&self) -> KeysView {
        KeysView {
            font_scale_up: self.font_scale_up@,
            font_scale_down: self.font_scale_down@,
            font_scale_reset: self.font_scale_reset@,
            window_new: self.window_new@,
            window_close: self.window_close@,
        }
    }
}

/// All settings, with their texts as sequences of characters.
pub struct AppConfigView {
    pub font_family: Seq<char>,
    pub font_size: Double,
    pub mouse_scroll_rate: Double,
    pub transparent_menubar: bool,
    pub single_session: bool,
    pub session_name: Seq<char>,
    pub cell: CellConfig,
    pub display: DisplayConfig,
    pub macos: MacosConfig,
    pub keys: KeysView,
}

impl DeepView for AppConfig {
    type V = AppConfigView;

    open spec fn deep_view(&self) -> AppConfigView {
        AppConfigView {
            font_family: self.font_family@,
            font_size: self.font_size,
            mouse_scroll_rate: self.mouse_scroll_rate,
            transparent_menubar: self.transparent_menubar,
            single_session: self.single_session,
            session_name: self.session_name@,
            cell: self.cell,
            display: self.display,
            macos: self.macos,
            keys: self.keys.deep_view(),
        }
    }
}

/// The text under a key.
pub open spec fn text_under(value: ConfigView, key: Seq<char>) -> Option<Seq<char>> {
    match lookup(value, key) {
        Some(ConfigView::Text(text)) => Some(text),
        _ => None,
    }
}

/// The number with a fraction under a key.
pub open spec fn double_under(value: ConfigView, key: Seq<char>) -> Option<Double> {
    match lookup(value, key) {
        Some(ConfigView::Float(bits)) => Some(Double { bits }),
        _ => None,
    }
}

/// The flag under a key.
pub open spec fn flag_under(value: ConfigView, key: Seq<char>) -> Option<bool> {
    match lookup(value, key) {
        Some(ConfigView::Boolean(flag)) => Some(flag),
        _ => None,
    }
}

/// The table under a key.
pub open spec fn section_under(value: ConfigView, key: Seq<char>) -> Option<ConfigView> {
    match lookup(value, key) {
        Some(ConfigView::Table(entries)) => Some(ConfigView::Table(entries)),
        _ => None,
    }
}

/// The text under a key.
fn text_setting(value: &ConfigValue, key: &str) -> (text: Option<String>)
    ensures
        match text {
            Some(found) => text_under(value.deep_view(), key@) == Some(found@),
            None => text_under(value.deep_view(), key@) is None,
        },
{
    match value.get(key) {
        Some(found) => match found.as_str() {
            Some(text) => Some(text.to_string()),
            None => None,
        },
        None => None,
    }
}

/// The number with a fraction under a key.
fn double_setting(value: &ConfigValue, key: &str) -> (number: Option<Double>)
    ensures
        number == double_under(value.deep_view(), key@),
{
    match value.get(key) {
        Some(found) => match found.as_float() {
            Some(bits) => Some(Double { bits }),
            None => None,
        },
        None => None,
    }
}

/// The flag under a key.
fn flag_setting(value: &ConfigValue, key: &str) -> (flag: Option<bool>)
    ensures
        flag == flag_under(value.deep_view(), key@),
{
    match value.get(key) {
        Some(found) => found.as_bool(),
        None => None,
    }
}

/// The table under a key.
fn section<'a>(value: &'a ConfigValue, key: &str) -> (table: Option<&'a ConfigValue>)
    ensures
        match table {
            Some(found) => section_under(value.deep_view(), key@) == Some(found.deep_view()),
            None => section_under(value.deep_view(), key@) is None,
        },
{
    match value.get(key) {
        Some(found) => match found {
            ConfigValue::Table(_) => Some(found),
            _ => None,
        },
        None => None,
    }
}

/// The shape that a text names.
pub open spec fn named_shape(text: Seq<char>) -> Option<CursorShape> {
    if text == "block"@ {
        Some(CursorShape::Block)
    } else if text == "beam"@ {
        Some(CursorShape::Beam)
    } else if text == "underline"@ {
        Some(CursorShape::Underline)
    } else {
        None
    }
}

/// The shape that a text names.
fn cursor_shape_named(text: &str) -> (shape: Option<CursorShape>)
    ensures
        shape == named_shape(text@),
{
    if same_text(text, "block") {
        Some(CursorShape::Block)
    } else if same_text(text, "beam") {
        Some(CursorShape::Beam)
    } else if same_text(text, "underline") {
        Some(CursorShape::Underline)
    } else {
        None
    }
}

/// The colours that a text names.
pub open spec fn named_color_space(text: Seq<char>) -> Option<MacosColorSpace> {
    if text == "p3"@ {
        Some(MacosColorSpace::P3)
    } else if text == "srgb"@ {
        Some(MacosColorSpace::Srgb)
    } else {
        None
    }
}

/// The colours that a text names.
fn color_space_named(text: &str) -> (space: Option<MacosColorSpace>)
    ensures
        space == named_color_space(text@),
{
    if same_text(text, "p3") {
        Some(MacosColorSpace::P3)
    } else if same_text(text, "srgb") {
        Some(MacosColorSpace::Srgb)
    } else {
        None
    }
}

/// The settings of cells that a complete configuration writes out. There are none
/// where one is missing or is no number with a fraction.
pub open spec fn cell_in(value: ConfigView) -> Option<CellConfig> {
    match section_under(value, "cell"@) {
        Some(cell) => match double_under(cell, "underline-offset"@) {
            Some(underline_offset) => Some(CellConfig { underline_offset }),
            None => None,
        },
        None => None,
    }
}

/// The settings of cells that a complete configuration, such as the bundled one,
/// writes out: nothing is filled in.
pub fn complete_cell(value: &ConfigValue) -> (config: Option<CellConfig>)
    ensures
        config == cell_in(value.deep_view()),
{
    match section(value, "cell") {
        Some(cell) => match double_setting(cell, "underline-offset") {
            Some(underline_offset) => Some(CellConfig { underline_offset }),
            None => None,
        },
        None => None,
    }
}

/// A cursor shape under a key: one that is not set is no fault, one that no
/// shape is named by is.
pub open spec fn shape_under(value: ConfigView, key: Seq<char>) -> Option<Option<CursorShape>> {
    match text_under(value, key) {
        Some(text) => match named_shape(text) {
            Some(shape) => Some(Some(shape)),
            None => None,
        },
        None => Some(None),
    }
}

/// A cursor shape under a key.
fn shape_setting(value: &ConfigValue, key: &str) -> (shape: Option<Option<CursorShape>>)
    ensures
        shape == shape_under(value.deep_view(), key@),
{
    match text_setting(value, key) {
        Some(text) => match cursor_shape_named(text.as_str()) {
            Some(shape) => Some(Some(shape)),
            None => None,
        },
        None => Some(None),
    }
}

/// The cursor shapes that a complete configuration writes out. There are none
/// where the section is missing or names no shape.
pub open spec fn cursor_shapes_in(value: ConfigView) -> Option<CursorShapeConfig> {
    match section_under(value, "display"@) {
        Some(display) => match section_under(display, "cursor-shape"@) {
            Some(shapes) => match (
                shape_under(shapes, "normal"@),
                shape_under(shapes, "insert"@),
                shape_under(shapes, "replace"@),
            ) {
                (Some(normal), Some(insert), Some(replace)) => Some(
                    CursorShapeConfig { normal, insert, replace },
                ),
                _ => None,
            },
            None => None,
        },
        None => None,
    }
}

/// The cursor shapes that a complete configuration, such as the bundled one,
/// writes out: a missing section is not filled in.
pub fn complete_cursor_shapes(value: &ConfigValue) -> (config: Option<CursorShapeConfig>)
    ensures
        config == cursor_shapes_in(value.deep_view()),
{
    match section(value, "display") {
        Some(display) => match section(display, "cursor-shape") {
            Some(shapes) => match (
                shape_setting(shapes, "normal"),
                shape_setting(shapes, "insert"),
                shape_setting(shapes, "replace"),
            ) {
                (Some(normal), Some(insert), Some(replace)) => Some(
                    CursorShapeConfig { normal, insert, replace },
                ),
                _ => None,
            },
            None => None,
        },
        None => None,
    }
}

/// The settings for macOS that a complete configuration writes out. There are none
/// where one is missing or names nothing.
pub open spec fn macos_in(value: ConfigView) -> Option<MacosConfig> {
    match section_under(value, "macos"@) {
        Some(macos) => match text_under(macos, "color-space"@) {
            Some(text) => match named_color_space(text) {
                Some(color_space) => Some(MacosConfig { color_space }),
                None => None,
            },
            None => None,
        },
        None => None,
    }
}

/// The settings for macOS that a complete configuration, such as the bundled one,
/// writes out: nothing is filled in.
pub fn complete_macos(value: &ConfigValue) -> (config: Option<MacosConfig>)
    ensures
        config == macos_in(value.deep_view()),
{
    match section(value, "macos") {
        Some(macos) => match text_setting(macos, "color-space") {
            Some(text) => match color_space_named(text.as_str()) {
                Some(color_space) => Some(MacosConfig { color_space }),
                None => None,
            },
            None => None,
        },
        None => None,
    }
}

/// The keys that a complete configuration writes out. There are none where one is
/// missing or is no text.
pub open spec fn keys_in(value: ConfigView) -> Option<KeysView> {
    match section_under(value, "keys"@) {
        Some(keys) => match (
            text_under(keys, "font-scale-up"@),
            text_under(keys, "font-scale-down"@),
            text_under(keys, "font-scale-reset"@),
            text_under(keys, "window-new"@),
            text_under(keys, "window-close"@),
        ) {
            (
                Some(font_scale_up),
                Some(font_scale_down),
                Some(font_scale_reset),
                Some(window_new),
                Some(window_close),
            ) => Some(
                KeysView {
                    font_scale_up,
                    font_scale_down,
                    font_scale_reset,
                    window_new,
                    window_close,
                },
            ),
            _ => None,
        },
        None => None,
    }
}

/// The keys that a complete configuration, such as the bundled one, writes out:
/// nothing is filled in.
pub fn complete_keys(value: &ConfigValue) -> (config: Option<UserKeysConfig>)
    ensures
        match config {
            Some(found) => keys_in(value.deep_view()) == Some(found.deep_view()),
            None => keys_in(value.deep_view()) is None,
        },
{
    match section(value, "keys") {
        Some(keys) => match (
            text_setting(keys, "font-scale-up"),
            text_setting(keys, "font-scale-down"),
            text_setting(keys, "font-scale-reset"),
            text_setting(keys, "window-new"),
            text_setting(keys, "window-close"),
        ) {
            (
                Some(font_scale_up),
                Some(font_scale_down),
                Some(font_scale_reset),
                Some(window_new),
                Some(window_close),
            ) => Some(
                UserKeysConfig {
                    font_scale_up,
                    font_scale_down,
                    font_scale_reset,
                    window_new,
                    window_close,
                },
            ),
            _ => None,
        },
        None => None,
    }
}

/// The settings that a complete configuration writes out. There are none where one
/// is missing or is of another kind: a whole number is no number with a fraction
/// here.
pub open spec fn settings_in(value: ConfigView) -> Option<AppConfigView> {
    match (
        (
            text_under(value, "font-family"@),
            double_under(value, "font-size"@),
            double_under(value, "mouse-scroll-rate"@),
            flag_under(value, "transparent-menubar"@),
            flag_under(value, "single-session"@),
            text_under(value, "session-name"@),
        ),
        (cell_in(value), cursor_shapes_in(value), macos_in(value), keys_in(value)),
    ) {
        (
            (
                Some(font_family),
                Some(font_size),
                Some(mouse_scroll_rate),
                Some(transparent_menubar),
                Some(single_session),
                Some(session_name),
            ),
            (Some(cell), Some(cursor_shape), Some(macos), Some(keys)),
        ) => Some(
            AppConfigView {
                font_family,
                font_size,
                mouse_scroll_rate,
                transparent_menubar,
                single_session,
                session_name,
                cell,
                display: DisplayConfig { cursor_shape },
                macos,
                keys,
            },
        ),
        _ => None,
    }
}

/// The settings that a complete configuration, such as the bundled one, writes
/// out.
///
/// This reads every setting in the form that the bundled configuration has it in
/// and fills nothing in. It is not how a user's file is read: that may leave
/// settings out and write whole numbers, and is laid over the bundled
/// configuration first (`effective_config_value`).
pub fn complete_config(value: &ConfigValue) -> (config: Option<AppConfig>)
    ensures
        match config {
            Some(found) => settings_in(value.deep_view()) == Some(found.deep_view()),
            None => settings_in(value.deep_view()) is None,
        },
{
    let general = (
        text_setting(value, "font-family"),
        double_setting(value, "font-size"),
        double_setting(value, "mouse-scroll-rate"),
        flag_setting(value, "transparent-menubar"),
        flag_setting(value, "single-session"),
        text_setting(value, "session-name"),
    );
    let sections = (
        complete_cell(value),
        complete_cursor_shapes(value),
        complete_macos(value),
        complete_keys(value),
    );
    match (general, sections) {
        (
            (
                Some(font_family),
                Some(font_size),
                Some(mouse_scroll_rate),
                Some(transparent_menubar),
                Some(single_session),
                Some(session_name),
            ),
            (Some(cell), Some(cursor_shape), Some(macos), Some(keys)),
        ) => Some(
            AppConfig {
                font_family,
                font_size,
                mouse_scroll_rate,
                transparent_menubar,
                single_session,
                session_name,
                cell,
                display: DisplayConfig { cursor_shape },
                macos,
                keys,
            },
        ),
        _ => None,
    }
}

/// The bits of twelve.
pub const TWELVE: u64 = 0x4028_0000_0000_0000;

/// The bits of a quarter.
pub const QUARTER: u64 = 0x3fd0_0000_0000_0000;

/// The entries of the bundled configuration that name keys.
pub open spec fn bundled_key_entries() -> Seq<EntryView> {
    seq![
        EntryView { key: "font-scale-up"@, value: ConfigView::Text("Cmd-="@) },
        EntryView { key: "font-scale-down"@, value: ConfigView::Text("Cmd--"@) },
        EntryView { key: "font-scale-reset"@, value: ConfigView::Text("Cmd-0"@) },
        EntryView { key: "window-new"@, value: ConfigView::Text("Cmd-N"@) },
        EntryView { key: "window-close"@, value: ConfigView::Text("Cmd-W"@) },
    ]
}

/// The entries of the bundled configuration.
pub open spec fn bundled_entries() -> Seq<EntryView> {
    seq![
        EntryView { key: "font-family"@, value: ConfigView::Text("SF Mono"@) },
        EntryView { key: "font-size"@, value: ConfigView::Float(TWELVE) },
        EntryView { key: "mouse-scroll-rate"@, value: ConfigView::Float(QUARTER) },
        EntryView { key: "transparent-menubar"@, value: ConfigView::Boolean(true) },
        EntryView { key: "single-session"@, value: ConfigView::Boolean(false) },
        EntryView { key: "session-name"@, value: ConfigView::Text("kakvide"@) },
        EntryView {
            key: "cell"@,
            value: ConfigView::Table(
                seq![EntryView { key: "underline-offset"@, value: ConfigView::Float(0) }],
            ),
        },
        EntryView {
            key: "display"@,
            value: ConfigView::Table(
                seq![
                    EntryView {
                        key: "cursor-shape"@,
                        value: ConfigView::Table(Seq::empty()),
                    },
                ],
            ),
        },
        EntryView {
            key: "macos"@,
            value: ConfigView::Table(
                seq![EntryView { key: "color-space"@, value: ConfigView::Text("p3"@) }],
            ),
        },
        EntryView { key: "keys"@, value: ConfigView::Table(bundled_key_entries()) },
    ]
}

/// The bundled configuration.
pub open spec fn bundled_view() -> ConfigView {
    ConfigView::Table(bundled_entries())
}

/// An entry that holds a text.
fn text_entry(key: &str, text: &str) -> (entry: ConfigEntry)
    ensures
        entry.deep_view() == (EntryView { key: key@, value: ConfigView::Text(text@) }),
{
    ConfigEntry { key: key.to_string(), value: ConfigValue::Text(text.to_string()) }
}

/// An entry that holds a number with a fraction.
fn float_entry(key: &str, bits: u64) -> (entry: ConfigEntry)
    ensures
        entry.deep_view() == (EntryView { key: key@, value: ConfigView::Float(bits) }),
{
    ConfigEntry { key: key.to_string(), value: ConfigValue::Float(bits) }
}

/// An entry that holds a flag.
fn flag_entry(key: &str, flag: bool) -> (entry: ConfigEntry)
    ensures
        entry.deep_view() == (EntryView { key: key@, value: ConfigView::Boolean(flag) }),
{
    ConfigEntry { key: key.to_string(), value: ConfigValue::Boolean(flag) }
}

/// An entry that holds a table.
fn table_entry(key: &str, entries: Vec<ConfigEntry>) -> (entry: ConfigEntry)
    ensures
        entry.deep_view() == (EntryView {
            key: key@,
            value: ConfigView::Table(entries.deep_view()),
        }),
{
    proof {
        lemma_table_view(entries);
    }
    ConfigEntry { key: key.to_string(), value: ConfigValue::Table(entries) }
}

/// Add an entry.
fn push_entry(entries: &mut Vec<ConfigEntry>, entry: ConfigEntry)
    ensures
        final(entries).deep_view() == old(entries).deep_view().push(entry.deep_view()),
{
    entries.push(entry);
    assert(entries.deep_view() =~= old(entries).deep_view().push(entry.deep_view()));
}

/// The bundled configuration.
pub fn bundled_default_value() -> (value: ConfigValue)
    ensures
        value.deep_view() == bundled_view(),
{
    let mut cell: Vec<ConfigEntry> = Vec::new();
    push_entry(&mut cell, float_entry("underline-offset", 0));
    assert(cell.deep_view() =~= seq![
        EntryView { key: "underline-offset"@, value: ConfigView::Float(0) },
    ]);
    let shapes: Vec<ConfigEntry> = Vec::new();
    assert(shapes.deep_view() =~= Seq::empty());
    let mut display: Vec<ConfigEntry> = Vec::new();
    push_entry(&mut display, table_entry("cursor-shape", shapes));
    assert(display.deep_view() =~= seq![
        EntryView { key: "cursor-shape"@, value: ConfigView::Table(Seq::empty()) },
    ]);
    let mut macos: Vec<ConfigEntry> = Vec::new();
    push_entry(&mut macos, text_entry("color-space", "p3"));
    assert(macos.deep_view() =~= seq![
        EntryView { key: "color-space"@, value: ConfigView::Text("p3"@) },
    ]);
    let mut keys: Vec<ConfigEntry> = Vec::new();
    push_entry(&mut keys, text_entry("font-scale-up", "Cmd-="));
    push_entry(&mut keys, text_entry("font-scale-down", "Cmd--"));
    push_entry(&mut keys, text_entry("font-scale-reset", "Cmd-0"));
    push_entry(&mut keys, text_entry("window-new", "Cmd-N"));
    push_entry(&mut keys, text_entry("window-close", "Cmd-W"));
    assert(keys.deep_view() =~= bundled_key_entries());
    let mut entries: Vec<ConfigEntry> = Vec::new();
    push_entry(&mut entries, text_entry("font-family", "SF Mono"));
    push_entry(&mut entries, float_entry("font-size", TWELVE));
    push_entry(&mut entries, float_entry("mouse-scroll-rate", QUARTER));
    push_entry(&mut entries, flag_entry("transparent-menubar", true));
    push_entry(&mut entries, flag_entry("single-session", false));
    push_entry(&mut entries, text_entry("session-name", "kakvide"));
    push_entry(&mut entries, table_entry("cell", cell));
    push_entry(&mut entries, table_entry("display", display));
    push_entry(&mut entries, table_entry("macos", macos));
    push_entry(&mut entries, table_entry("keys", keys));
    assert(entries.deep_view() =~= bundled_entries());
    proof {
        lemma_table_view(entries);
    }
    ConfigValue::Table(entries)
}

/// The bundled settings.
pub open spec fn bundled_settings() -> AppConfigView {
    AppConfigView {
        font_family: "SF Mono"@,
        font_size: Double { bits: TWELVE },
        mouse_scroll_rate: Double { bits: QUARTER },
        transparent_menubar: true,
        single_session: false,
        session_name: "kakvide"@,
        cell: CellConfig { underline_offset: Double { bits: 0 } },
        display: DisplayConfig {
            cursor_shape: CursorShapeConfig { normal: None, insert: None, replace: None },
        },
        macos: MacosConfig { color_space: MacosColorSpace::P3 },
        keys: KeysView {
            font_scale_up: "Cmd-="@,
            font_scale_down: "Cmd--"@,
            font_scale_reset: "Cmd-0"@,
            window_new: "Cmd-N"@,
            window_close: "Cmd-W"@,
        },
    }
}

/// The length of a key of the bundled configuration.
spec fn bundled_key_length(i: int) -> nat {
    if i == 0 {
        11
    } else if i == 1 {
        9
    } else if i == 2 {
        17
    } else if i == 3 {
        19
    } else if i == 4 {
        14
    } else if i == 5 {
        12
    } else if i == 6 {
        4
    } else if i == 7 {
        7
    } else if i == 8 {
        5
    } else {
        4
    }
}

/// No key stands twice in the bundled configuration.
proof fn lemma_bundled_keys()
    ensures
        unlike_keys(bundled_entries()),
        unlike_keys(bundled_key_entries()),
{
    reveal_strlit("font-scale-up");
    reveal_strlit("font-scale-down");
    reveal_strlit("font-scale-reset");
    reveal_strlit("window-new");
    reveal_strlit("window-close");
    reveal_strlit("font-family");
    reveal_strlit("font-size");
    reveal_strlit("mouse-scroll-rate");
    reveal_strlit("transparent-menubar");
    reveal_strlit("single-session");
    reveal_strlit("session-name");
    reveal_strlit("cell");
    reveal_strlit("display");
    reveal_strlit("macos");
    reveal_strlit("keys");
    let entries = bundled_entries();
    assert forall|i: int| 0 <= i < 10 implies (#[trigger] entries[i]).key.len()
        == bundled_key_length(i) by {
        if i < 5 {
            assert(i == 0 || i == 1 || i == 2 || i == 3 || i == 4);
        } else {
            assert(i == 5 || i == 6 || i == 7 || i == 8 || i == 9);
        }
    }
    assert("cell"@[0] != "keys"@[0]);
    assert forall|i: int, j: int| 0 <= i < j < 10 implies (#[trigger] entries[i]).key != (
    #[trigger] entries[j]).key by {
        if i == 6 && j == 9 {
            assert(entries[i].key[0] != entries[j].key[0]);
        } else {
            assert(bundled_key_length(i) != bundled_key_length(j));
        }
    }
    let keys = bundled_key_entries();
    assert(keys[0].key.len() == 13);
    assert(keys[1].key.len() == 15);
    assert(keys[2].key.len() == 16);
    assert(keys[3].key.len() == 10);
    assert(keys[4].key.len() == 12);
    assert forall|i: int, j: int| 0 <= i < j < 5 implies (#[trigger] keys[i]).key != (
    #[trigger] keys[j]).key by {
        assert(i == 0 || i == 1 || i == 2 || i == 3);
        assert(j == 1 || j == 2 || j == 3 || j == 4);
    }
}

/// The bundled configuration holds every setting.
proof fn lemma_bundled_settings()
    ensures
        settings_in(bundled_view()) == Some(bundled_settings()),
{
    lemma_bundled_keys();
    let entries = bundled_entries();
    assert forall|i: int| 0 <= i < 10 implies lookup(
        bundled_view(),
        (#[trigger] entries[i]).key,
    ) == Some(entries[i].value) by {
        lemma_own_value(entries, i);
    }
    assert(entries[0].key == "font-family"@);
    assert(entries[1].key == "font-size"@);
    assert(entries[2].key == "mouse-scroll-rate"@);
    assert(entries[3].key == "transparent-menubar"@);
    assert(entries[4].key == "single-session"@);
    assert(entries[5].key == "session-name"@);
    assert(entries[6].key == "cell"@);
    assert(entries[7].key == "display"@);
    assert(entries[8].key == "macos"@);
    assert(entries[9].key == "keys"@);
    let keys = bundled_key_entries();
    assert forall|i: int| 0 <= i < 5 implies lookup(
        ConfigView::Table(keys),
        (#[trigger] keys[i]).key,
    ) == Some(keys[i].value) by {
        lemma_own_value(keys, i);
    }
    assert(keys[0].key == "font-scale-up"@);
    assert(keys[1].key == "font-scale-down"@);
    assert(keys[2].key == "font-scale-reset"@);
    assert(keys[3].key == "window-new"@);
    assert(keys[4].key == "window-close"@);
    lemma_own_value(entries[6].value->Table_0, 0);
    lemma_own_value(entries[7].value->Table_0, 0);
    lemma_own_value(entries[8].value->Table_0, 0);
}

/// The bundled settings: those that the bundled configuration holds.
pub fn bundled_default_config() -> (config: AppConfig)
    ensures
        settings_in(bundled_view()) == Some(config.deep_view()),
        config.deep_view() == bundled_settings(),
{
    proof {
        lemma_bundled_settings();
    }
    complete_config(&bundled_default_value()).unwrap()
}

/// The bundled settings of cells: those that the bundled configuration holds.
pub fn bundled_default_cell_config() -> (config: CellConfig)
    ensures
        cell_in(bundled_view()) == Some(config),
        config == bundled_settings().cell,
{
    proof {
        lemma_bundled_settings();
    }
    complete_cell(&bundled_default_value()).unwrap()
}

/// The bundled settings of the display: those that the bundled configuration
/// holds.
pub fn bundled_default_display_config() -> (config: DisplayConfig)
    ensures
        cursor_shapes_in(bundled_view()) == Some(config.cursor_shape),
        config == bundled_settings().display,
{
    DisplayConfig { cursor_shape: bundled_default_cursor_shape_config() }
}

/// The bundled cursor shapes: those that the bundled configuration holds.
pub fn bundled_default_cursor_shape_config() -> (config: CursorShapeConfig)
    ensures
        cursor_shapes_in(bundled_view()) == Some(config),
        config == bundled_settings().display.cursor_shape,
{
    proof {
        lemma_bundled_settings();
    }
    complete_cursor_shapes(&bundled_default_value()).unwrap()
}

/// The bundled settings for macOS: those that the bundled configuration holds.
pub fn bundled_default_macos_config() -> (config: MacosConfig)
    ensures
        macos_in(bundled_view()) == Some(config),
        config == bundled_settings().macos,
{
    proof {
        lemma_bundled_settings();
    }
    complete_macos(&bundled_default_value()).unwrap()
}

/// The bundled keys: those that the bundled configuration holds.
pub fn bundled_default_keys() -> (config: UserKeysConfig)
    ensures
        keys_in(bundled_view()) == Some(config.deep_view()),
        config.deep_view() == bundled_settings().keys,
{
    proof {
        lemma_bundled_settings();
    }
    complete_keys(&bundled_default_value()).unwrap()
}

impl Default for AppConfig {
    fn default() -> (config: Self)
        ensures
            config.deep_view() == bundled_settings(),
    {
        bundled_default_config()
    }
}

impl Default for CellConfig {
    fn default() -> (config: Self)
        ensures
            config == bundled_settings().cell,
    {
        bundled_default_cell_config()
    }
}

impl Default for DisplayConfig {
    fn default() -> (config: Self)
        ensures
            config == bundled_settings().display,
    {
        bundled_default_display_config()
    }
}

impl Default for CursorShapeConfig {
    fn default() -> (config: Self)
        ensures
            config == bundled_settings().display.cursor_shape,
    {
        bundled_default_cursor_shape_config()
    }
}

impl Default for MacosConfig {
    fn default() -> (config: Self)
        ensures
            config == bundled_settings().macos,
    {
        bundled_default_macos_config()
    }
}

impl Default for UserKeysConfig {
    fn default() -> (config: Self)
        ensures
            config.deep_view() == bundled_settings().keys,
    {
        bundled_default_keys()
    }
}

/// The configuration that the bundled one and a user's file make: the user's
/// values laid over the bundled ones, if there is a file and it can be parsed.
pub fn effective_config_value(user_file: Option<&str>) -> (value: Result<ConfigValue, ConfigError>)
    ensures
        match user_file {
            None => value is Ok && value->Ok_0.deep_view() == bundled_view(),
            Some(text) => match toml_document(text@) {
                Some(user) => value is Ok && value->Ok_0.deep_view() == merged(
                    bundled_view(),
                    user,
                ),
                None => value is Err,
            },
        },
        value is Ok && user_file is Some ==> forall|key: Seq<char>|
            #![trigger lookup(value->Ok_0.deep_view(), key)]
            {
                let own = lookup(toml_document(user_file->0@)->0, key);
                &&& own is Some && !(own->0 is Table) ==> lookup(value->Ok_0.deep_view(), key)
                    == own
                &&& own is None && toml_document(user_file->0@)->0 is Table ==> lookup(
                    value->Ok_0.deep_view(),
                    key,
                ) == lookup(bundled_view(), key)
            },
{
    let mut value = bundled_default_value();
    match user_file {
        None => Ok(value),
        Some(text) => match parse_config(text) {
            Ok(user) => {
                let ghost over = user.deep_view();
                merge_toml_value(&mut value, user);
                assert forall|key: Seq<char>| #![trigger lookup(value.deep_view(), key)] {
                    let own = lookup(over, key);
                    &&& own is Some && !(own->0 is Table) ==> lookup(value.deep_view(), key) == own
                    &&& own is None && over is Table ==> lookup(value.deep_view(), key) == lookup(
                        bundled_view(),
                        key,
                    )
                } by {
                    if over is Table {
                        law_user_settings_override_bundled_ones(over, key);
                    }
                }
                Ok(value)
            },
            Err(error) => Err(error),
        },
    }
}

/// The file of the bundled configuration, in the directory of the program's
/// manifest.
pub fn bundled_config_path(manifest_dir: &[u8]) -> (path: Vec<u8>)
    ensures
        path@ == joined_path(manifest_dir@, text_bytes("kakvide.toml"@)),
{
    join_path(manifest_dir, "kakvide.toml".as_bytes())
}

/// The user's configuration file in a directory of configurations.
pub open spec fn config_file_in(directory: Seq<u8>) -> Seq<u8> {
    joined_path(
        joined_path(directory, text_bytes("kakvide"@)),
        text_bytes("config.toml"@),
    )
}

/// The user's configuration file: below the configuration directory, or else
/// below the home directory, whichever is set and not empty.
pub open spec fn user_config_file(
    xdg_config_home: Option<Seq<u8>>,
    home: Option<Seq<u8>>,
) -> Option<Seq<u8>> {
    if xdg_config_home is Some && xdg_config_home->0.len() > 0 {
        Some(config_file_in(xdg_config_home->0))
    } else if home is Some && home->0.len() > 0 {
        Some(config_file_in(joined_path(home->0, text_bytes(".config"@))))
    } else {
        None
    }
}

/// A run of bytes that may be missing.
pub open spec fn optional_bytes(bytes: Option<&[u8]>) -> Option<Seq<u8>> {
    match bytes {
        Some(found) => Some(found@),
        None => None,
    }
}

/// The user's configuration file, by the values of `XDG_CONFIG_HOME` and `HOME`.
pub fn user_config_path(xdg_config_home: Option<&[u8]>, home: Option<&[u8]>) -> (path: Option<
    Vec<u8>,
>)
    ensures
        match path {
            Some(found) => user_config_file(
                optional_bytes(xdg_config_home),
                optional_bytes(home),
            ) == Some(found@),
            None => user_config_file(
                optional_bytes(xdg_config_home),
                optional_bytes(home),
            ) is None,
        },
{
    if let Some(directory) = xdg_config_home {
        if directory.len() > 0 {
            let own = join_path(directory, "kakvide".as_bytes());
            return Some(join_path(own.as_slice(), "config.toml".as_bytes()));
        }
    }
    if let Some(directory) = home {
        if directory.len() > 0 {
            let configs = join_path(directory, ".config".as_bytes());
            let own = join_path(configs.as_slice(), "kakvide".as_bytes());
            return Some(join_path(own.as_slice(), "config.toml".as_bytes()));
        }
    }
    None
}

/// The files that settings are looked for in: the bundled one, then the user's.
pub fn checked_config_paths(
    bundled: &[u8],
    xdg_config_home: Option<&[u8]>,
    home: Option<&[u8]>,
) -> (paths: Vec<Vec<u8>>)
    ensures
        paths.deep_view() == match user_config_file(
            optional_bytes(xdg_config_home),
            optional_bytes(home),
        ) {
            Some(file) => seq![bundled@, file],
            None => seq![bundled@],
        },
{
    let mut paths: Vec<Vec<u8>> = Vec::new();
    let first = copied_bytes(bundled);
    assert(first.deep_view() =~= bundled@);
    paths.push(first);
    assert(paths.deep_view() =~= seq![bundled@]);
    if let Some(path) = user_config_path(xdg_config_home, home) {
        let ghost file = path@;
        assert(path.deep_view() =~= file);
        paths.push(path);
        assert(paths.deep_view() =~= seq![bundled@, file]);
    }
    paths
}

/// What a user sets for one of the bundled settings holds, and the bundled value
/// of what the user does not set.
pub proof fn law_user_settings_override_bundled_ones(user: ConfigView, key: Seq<char>)
    requires
        user is Table,
        distinct_keys(user),
    ensures
        lookup(user, key) is None ==> lookup(merged(bundled_view(), user), key) == lookup(
            bundled_view(),
            key,
        ),
        lookup(user, key) is Some && !(lookup(user, key)->0 is Table) ==> lookup(
            merged(bundled_view(), user),
            key,
        ) == lookup(user, key),
{
    law_merge_goes_key_by_key(bundled_view(), user, key);
}

/// The same within a section: what a user sets there holds, and the rest of the
/// section stays as bundled.
pub proof fn law_user_sections_override_key_by_key(
    user: ConfigView,
    name: Seq<char>,
    key: Seq<char>,
)
    requires
        user is Table,
        distinct_keys(user),
        section_under(bundled_view(), name) is Some,
        section_under(user, name) is Some,
    ensures
        ({
            let bundled = section_under(bundled_view(), name)->0;
            let own = section_under(user, name)->0;
            let both = merged(bundled_view(), user);
            &&& section_under(both, name) is Some
            &&& lookup(own, key) is None ==> lookup(section_under(both, name)->0, key) == lookup(
                bundled,
                key,
            )
            &&& lookup(own, key) is Some && !(lookup(own, key)->0 is Table) ==> lookup(
                section_under(both, name)->0,
                key,
            ) == lookup(own, key)
        }),
{
    let bundled = section_under(bundled_view(), name)->0;
    let own = section_under(user, name)->0;
    law_merge_goes_key_by_key(bundled_view(), user, name);
    lemma_value_is_distinct(user, name);
    law_merge_goes_key_by_key(bundled, own, key);
}

/// The configuration directory goes before the home directory, and an empty one
/// counts as not set.
pub proof fn law_configuration_directory_goes_first(directory: Seq<u8>, home: Option<Seq<u8>>)
    ensures
        directory.len() > 0 ==> user_config_file(Some(directory), home) == user_config_file(
            Some(directory),
            None,
        ),
        directory.len() == 0 ==> user_config_file(Some(directory), home) == user_config_file(
            None,
            home,
        ),
{
}

/// The settings that a complete configuration is read as are those that stand
/// under their names in it.
pub proof fn law_settings_are_read_by_their_names(value: ConfigView)
    requires
        settings_in(value) is Some,
    ensures
        ({
            let settings = settings_in(value)->0;
            let cell = lookup(value, "cell"@)->0;
            let shapes = lookup(lookup(value, "display"@)->0, "cursor-shape"@)->0;
            let macos = lookup(value, "macos"@)->0;
            let keys = lookup(value, "keys"@)->0;
            &&& lookup(value, "font-family"@) == Some(ConfigView::Text(settings.font_family))
            &&& lookup(value, "font-size"@) == Some(ConfigView::Float(settings.font_size.bits))
            &&& lookup(value, "mouse-scroll-rate"@) == Some(
                ConfigView::Float(settings.mouse_scroll_rate.bits),
            )
            &&& lookup(value, "transparent-menubar"@) == Some(
                ConfigView::Boolean(settings.transparent_menubar),
            )
            &&& lookup(value, "single-session"@) == Some(
                ConfigView::Boolean(settings.single_session),
            )
            &&& lookup(value, "session-name"@) == Some(ConfigView::Text(settings.session_name))
            &&& lookup(cell, "underline-offset"@) == Some(
                ConfigView::Float(settings.cell.underline_offset.bits),
            )
            &&& names_shape(lookup(shapes, "normal"@), settings.display.cursor_shape.normal)
            &&& names_shape(lookup(shapes, "insert"@), settings.display.cursor_shape.insert)
            &&& names_shape(lookup(shapes, "replace"@), settings.display.cursor_shape.replace)
            &&& lookup(macos, "color-space"@) == Some(
                ConfigView::Text(
                    match settings.macos.color_space {
                        MacosColorSpace::P3 => seq!['p', '3'],
                        MacosColorSpace::Srgb => seq!['s', 'r', 'g', 'b'],
                    },
                ),
            )
            &&& lookup(keys, "font-scale-up"@) == Some(
                ConfigView::Text(settings.keys.font_scale_up),
            )
            &&& lookup(keys, "font-scale-down"@) == Some(
                ConfigView::Text(settings.keys.font_scale_down),
            )
            &&& lookup(keys, "font-scale-reset"@) == Some(
                ConfigView::Text(settings.keys.font_scale_reset),
            )
            &&& lookup(keys, "window-new"@) == Some(ConfigView::Text(settings.keys.window_new))
            &&& lookup(keys, "window-close"@) == Some(
                ConfigView::Text(settings.keys.window_close),
            )
        }),
{
    reveal_strlit("p3");
    reveal_strlit("srgb");
    assert("p3"@ =~= seq!['p', '3']);
    assert("srgb"@ =~= seq!['s', 'r', 'g', 'b']);
    let shapes = lookup(lookup(value, "display"@)->0, "cursor-shape"@)->0;
    let set = settings_in(value)->0.display.cursor_shape;
    lemma_shape(shapes, "normal"@);
    lemma_shape(shapes, "insert"@);
    lemma_shape(shapes, "replace"@);
}

/// Whether a value names the cursor shape that is set, if one is.
pub open spec fn names_shape(value: Option<ConfigView>, shape: Option<CursorShape>) -> bool {
    match shape {
        Some(CursorShape::Block) => value == Some(
            ConfigView::Text(seq!['b', 'l', 'o', 'c', 'k']),
        ),
        Some(CursorShape::Beam) => value == Some(ConfigView::Text(seq!['b', 'e', 'a', 'm'])),
        Some(CursorShape::Underline) => value == Some(
            ConfigView::Text(seq!['u', 'n', 'd', 'e', 'r', 'l', 'i', 'n', 'e']),
        ),
        None => !(value matches Some(ConfigView::Text(_))),
    }
}

/// Whether a value names a cursor shape, or sets none.
pub open spec fn is_known_shape(value: Option<ConfigView>) -> bool {
    ||| names_shape(value, Some(CursorShape::Block))
    ||| names_shape(value, Some(CursorShape::Beam))
    ||| names_shape(value, Some(CursorShape::Underline))
    ||| names_shape(value, None)
}

/// A cursor shape is read from the name under its key.
proof fn lemma_shape(shapes: ConfigView, key: Seq<char>)
    ensures
        shape_under(shapes, key) matches Some(shape) ==> names_shape(lookup(shapes, key), shape),
{
    reveal_strlit("block");
    reveal_strlit("beam");
    reveal_strlit("underline");
    assert("block"@ =~= seq!['b', 'l', 'o', 'c', 'k']);
    assert("beam"@ =~= seq!['b', 'e', 'a', 'm']);
    assert("underline"@ =~= seq!['u', 'n', 'd', 'e', 'r', 'l', 'i', 'n', 'e']);
}

/// A configuration is complete where every setting stands under its name in its
/// own kind, and every cursor shape and colour space that is written is a known
/// one.
pub proof fn law_complete_settings_are_read(value: ConfigView)
    requires
        lookup(value, "font-family"@) matches Some(ConfigView::Text(_)),
        lookup(value, "font-size"@) matches Some(ConfigView::Float(_)),
        lookup(value, "mouse-scroll-rate"@) matches Some(ConfigView::Float(_)),
        lookup(value, "transparent-menubar"@) matches Some(ConfigView::Boolean(_)),
        lookup(value, "single-session"@) matches Some(ConfigView::Boolean(_)),
        lookup(value, "session-name"@) matches Some(ConfigView::Text(_)),
        lookup(value, "cell"@) matches Some(ConfigView::Table(_)),
        lookup(lookup(value, "cell"@)->0, "underline-offset"@) matches Some(ConfigView::Float(_)),
        lookup(value, "display"@) matches Some(ConfigView::Table(_)),
        lookup(lookup(value, "display"@)->0, "cursor-shape"@) matches Some(ConfigView::Table(_)),
        is_known_shape(lookup(lookup(lookup(value, "display"@)->0, "cursor-shape"@)->0, "normal"@)),
        is_known_shape(lookup(lookup(lookup(value, "display"@)->0, "cursor-shape"@)->0, "insert"@)),
        is_known_shape(
            lookup(lookup(lookup(value, "display"@)->0, "cursor-shape"@)->0, "replace"@),
        ),
        lookup(value, "macos"@) matches Some(ConfigView::Table(_)),
        lookup(lookup(value, "macos"@)->0, "color-space"@) == Some(
            ConfigView::Text(seq!['p', '3']),
        ) || lookup(lookup(value, "macos"@)->0, "color-space"@) == Some(
            ConfigView::Text(seq!['s', 'r', 'g', 'b']),
        ),
        lookup(value, "keys"@) matches Some(ConfigView::Table(_)),
        lookup(lookup(value, "keys"@)->0, "font-scale-up"@) matches Some(ConfigView::Text(_)),
        lookup(lookup(value, "keys"@)->0, "font-scale-down"@) matches Some(ConfigView::Text(_)),
        lookup(lookup(value, "keys"@)->0, "font-scale-reset"@) matches Some(ConfigView::Text(_)),
        lookup(lookup(value, "keys"@)->0, "window-new"@) matches Some(ConfigView::Text(_)),
        lookup(lookup(value, "keys"@)->0, "window-close"@) matches Some(ConfigView::Text(_)),
    ensures
        settings_in(value) is Some,
{
    reveal_strlit("p3");
    reveal_strlit("srgb");
    assert("p3"@ =~= seq!['p', '3']);
    assert("srgb"@ =~= seq!['s', 'r', 'g', 'b']);
    let shapes = lookup(lookup(value, "display"@)->0, "cursor-shape"@)->0;
    lemma_named_shape_is_read(shapes, "normal"@);
    lemma_named_shape_is_read(shapes, "insert"@);
    lemma_named_shape_is_read(shapes, "replace"@);
}

/// A name that a cursor shape has is read.
proof fn lemma_named_shape_is_read(shapes: ConfigView, key: Seq<char>)
    requires
        is_known_shape(lookup(shapes, key)),
    ensures
        shape_under(shapes, key) is Some,
{
    reveal_strlit("block");
    reveal_strlit("beam");
    reveal_strlit("underline");
    assert("block"@ =~= seq!['b', 'l', 'o', 'c', 'k']);
    assert("beam"@ =~= seq!['b', 'e', 'a', 'm']);
    assert("underline"@ =~= seq!['u', 'n', 'd', 'e', 'r', 'l', 'i', 'n', 'e']);
}

/// The user's file is `kakvide/config.toml` in the configuration directory, or in
/// `.config` in the home directory where no configuration directory is set; and
/// there is none where neither is.
pub proof fn law_user_file_has_its_place(directory: Seq<u8>, home: Seq<u8>)
    requires
        directory.len() > 0,
        directory.last() != 0x2f,
        home.len() > 0,
        home.last() != 0x2f,
    ensures
        user_config_file(Some(directory), Some(home)) == Some(
            directory + text_bytes("/kakvide/config.toml"@),
        ),
        user_config_file(None, Some(home)) == Some(
            home + text_bytes("/.config/kakvide/config.toml"@),
        ),
        user_config_file(Some(Seq::empty()), Some(home)) == user_config_file(None, Some(home)),
        user_config_file(None, None) is None,
        user_config_file(None, Some(Seq::empty())) is None,
{
    reveal_strlit("kakvide");
    reveal_strlit("config.toml");
    reveal_strlit(".config");
    reveal_strlit("/kakvide/config.toml");
    reveal_strlit("/.config/kakvide/config.toml");
    vstd::utf8::is_ascii_chars_encode_utf8("kakvide"@);
    vstd::utf8::is_ascii_chars_encode_utf8("config.toml"@);
    vstd::utf8::is_ascii_chars_encode_utf8(".config"@);
    vstd::utf8::is_ascii_chars_encode_utf8("/kakvide/config.toml"@);
    vstd::utf8::is_ascii_chars_encode_utf8("/.config/kakvide/config.toml"@);
    let own = directory.push(0x2f) + text_bytes("kakvide"@);
    assert(joined_path(directory, text_bytes("kakvide"@)) =~= own);
    assert(joined_path(own, text_bytes("config.toml"@)) =~= own.push(0x2f) + text_bytes(
        "config.toml"@,
    ));
    assert(own.push(0x2f) + text_bytes("config.toml"@) =~= directory + text_bytes(
        "/kakvide/config.toml"@,
    ));
    let configs = home.push(0x2f) + text_bytes(".config"@);
    assert(joined_path(home, text_bytes(".config"@)) =~= configs);
    let below = configs.push(0x2f) + text_bytes("kakvide"@);
    assert(joined_path(configs, text_bytes("kakvide"@)) =~= below);
    assert(joined_path(below, text_bytes("config.toml"@)) =~= below.push(0x2f) + text_bytes(
        "config.toml"@,
    ));
    assert(below.push(0x2f) + text_bytes("config.toml"@) =~= home + text_bytes(
        "/.config/kakvide/config.toml"@,
    ));
}

} // verus!
