use kakvide::app::{apply_notification, AppState, CursorMode, CURSOR_MODE_UI_OPTION};
use kakvide::messages::{Atom, Coord, Face, InfoStyle, KakouneNotification, MenuStyle, StatusStyle};
use kakvide::title::{
    decode_title_update, title_update, DEFAULT_WINDOW_TITLE, WINDOW_TITLE_UI_OPTION,
};

fn options(name: &str, value: &str) -> serde_json::Map<String, serde_json::Value> {
    let mut options = serde_json::Map::new();
    options.insert(name.to_string(), serde_json::Value::String(value.to_string()));
    options
}

fn line(text: &str) -> Vec<Atom> {
    vec![Atom { face: Face::default(), contents: text.into() }]
}

fn menu(items: &[&str]) -> KakouneNotification {
    KakouneNotification::MenuShow {
        items: items.iter().map(|item| line(item)).collect(),
        anchor: Coord { line: 1, column: 2 },
        selected_face: Face::default(),
        menu_face: Face::default(),
        style: MenuStyle::Inline,
    }
}

fn draw(text: &str) -> KakouneNotification {
    KakouneNotification::Draw {
        lines: vec![line(text)],
        cursor_pos: Coord { line: 0, column: 3 },
        default_face: Face::default(),
        padding_face: Face::default(),
        widget_columns: 4,
    }
}

#[test]
fn set_ui_options_preserves_window_title_for_missing_title() {
    let mut state = AppState {
        window_title: "kakvide - /tmp/project - Client 0".to_string(),
        ..AppState::default()
    };

    apply_notification(
        &mut state,
        KakouneNotification::SetUiOptions {
            options: serde_json::Map::new(),
        },
    );

    assert_eq!(state.window_title, "kakvide - /tmp/project - Client 0");
}

#[test]
fn set_ui_options_uses_default_window_title_for_empty_title() {
    let mut state = AppState {
        window_title: "kakvide - /tmp/project - Client 0".to_string(),
        ..AppState::default()
    };
    let mut options = serde_json::Map::new();
    options.insert(
        WINDOW_TITLE_UI_OPTION.to_string(),
        serde_json::Value::String("  ".to_string()),
    );

    apply_notification(&mut state, KakouneNotification::SetUiOptions { options });

    assert_eq!(state.window_title, DEFAULT_WINDOW_TITLE);
}

#[test]
fn set_ui_options_updates_cursor_mode() {
    let mut state = AppState::default();
    let mut options = serde_json::Map::new();
    options.insert(
        CURSOR_MODE_UI_OPTION.to_string(),
        serde_json::Value::String("insert".to_string()),
    );

    apply_notification(&mut state, KakouneNotification::SetUiOptions { options });

    assert_eq!(state.cursor_mode, CursorMode::Insert);
}

#[test]
fn set_ui_options_falls_back_to_unknown_for_unrecognized_cursor_mode() {
    let mut state = AppState {
        cursor_mode: CursorMode::Insert,
        ..AppState::default()
    };
    let mut options = serde_json::Map::new();
    options.insert(
        CURSOR_MODE_UI_OPTION.to_string(),
        serde_json::Value::String("prompt".to_string()),
    );

    apply_notification(&mut state, KakouneNotification::SetUiOptions { options });

    assert_eq!(state.cursor_mode, CursorMode::Unknown);
}

#[test]
fn options_that_are_no_text_are_passed_over() {
    let mut state = AppState { cursor_mode: CursorMode::Replace, ..AppState::default() };
    let mut options = serde_json::Map::new();
    options.insert(CURSOR_MODE_UI_OPTION.to_string(), serde_json::Value::Bool(true));
    options.insert(WINDOW_TITLE_UI_OPTION.to_string(), serde_json::Value::Null);
    apply_notification(&mut state, KakouneNotification::SetUiOptions { options });

    assert_eq!(state.cursor_mode, CursorMode::Replace);
    assert_eq!(state.window_title, DEFAULT_WINDOW_TITLE);
}

#[test]
fn modes_are_known_by_their_names() {
    assert_eq!(CursorMode::from_ui_option(" normal\n"), CursorMode::Normal);
    assert_eq!(CursorMode::from_ui_option("insert"), CursorMode::Insert);
    assert_eq!(CursorMode::from_ui_option("\u{a0}replace\u{3000}"), CursorMode::Replace);
    assert_eq!(CursorMode::from_ui_option("Normal"), CursorMode::Unknown);
    assert_eq!(CursorMode::default(), CursorMode::Unknown);
}

#[test]
fn titles_name_their_client() {
    let update = decode_title_update(&options(WINDOW_TITLE_UI_OPTION, " /tmp/a - b - client0 "))
        .expect("there should be a title");
    assert_eq!(update.window_title, "kakvide - /tmp/a - b - client0");
    assert_eq!(update.client_name, Some("client0".to_string()));
    assert!(decode_title_update(&options("other", "x")).is_none());
    assert_eq!(title_update("plain").client_name, None);
    assert_eq!(title_update(" \t").window_title, DEFAULT_WINDOW_TITLE);
}

#[test]
fn last_drawing_is_shown() {
    let mut state = AppState::default();
    apply_notification(&mut state, draw("first"));
    apply_notification(&mut state, draw("second"));

    assert_eq!(state.grid.lines[0][0].contents, "second");
    assert_eq!(state.grid.cursor_pos, Coord { line: 0, column: 3 });
    assert_eq!(state.grid.widget_columns, 4);
}

#[test]
fn status_lines_are_shown() {
    let mut state = AppState::default();
    apply_notification(
        &mut state,
        KakouneNotification::DrawStatus {
            prompt: line(":"),
            content: line("w"),
            cursor_pos: 1,
            mode_line: line("mode"),
            default_face: Face::default(),
            style: StatusStyle::Command,
        },
    );

    let status = state.status.expect("there should be a status line");
    assert_eq!(status.prompt[0].contents, ":");
    assert_eq!(status.content[0].contents, "w");
    assert_eq!(status.mode_line[0].contents, "mode");
    assert_eq!(status.style, StatusStyle::Command);
}

#[test]
fn menus_are_shown_selected_and_hidden() {
    let mut state = AppState::default();
    apply_notification(&mut state, KakouneNotification::MenuSelect { selected: 1 });
    assert!(state.menu.is_none());
    apply_notification(&mut state, menu(&["a", "b"]));
    assert_eq!(state.menu.as_ref().and_then(|menu| menu.selected), None);
    apply_notification(&mut state, KakouneNotification::MenuSelect { selected: 1 });
    assert_eq!(state.menu.as_ref().and_then(|menu| menu.selected), Some(1));
    apply_notification(&mut state, KakouneNotification::MenuSelect { selected: -1 });
    assert_eq!(state.menu.as_ref().and_then(|menu| menu.selected), None);
    assert_eq!(state.menu.as_ref().map(|menu| menu.items.len()), Some(2));
    apply_notification(&mut state, KakouneNotification::MenuHide);
    assert!(state.menu.is_none());
}

#[test]
fn information_is_shown_and_hidden() {
    let mut state = AppState::default();
    apply_notification(
        &mut state,
        KakouneNotification::InfoShow {
            title: line("t"),
            content: vec![line("c")],
            anchor: Coord { line: 0, column: 0 },
            face: Face::default(),
            style: InfoStyle::Modal,
        },
    );
    assert_eq!(state.info.as_ref().map(|info| info.style), Some(InfoStyle::Modal));
    apply_notification(&mut state, KakouneNotification::Refresh { force: true });
    assert!(state.info.is_some());
    apply_notification(&mut state, KakouneNotification::InfoHide);
    assert!(state.info.is_none());
}

#[test]
fn notifications_about_different_parts_commute() {
    let mut one = AppState::default();
    apply_notification(&mut one, draw("text"));
    apply_notification(&mut one, menu(&["a"]));
    let mut other = AppState::default();
    apply_notification(&mut other, menu(&["a"]));
    apply_notification(&mut other, draw("text"));

    assert_eq!(one, other);
}
