use kakvide::app::{AppState, GridState, InfoState, MenuState, StatusState};
use kakvide::canvas::render_canvas;
use kakvide::draw::{render_line_at_top, render_string_line_at_top, DrawStep, Paint};
use kakvide::info::{render_framed_info, render_info};
use kakvide::layout::{CellMetrics, LayoutMetrics};
use kakvide::menu::{render_menu, render_multi_column_menu, render_single_row_menu};
use kakvide::messages::{Atom, Coord, Face, InfoStyle, MenuStyle, StatusStyle};
use kakvide::popup::{menu_layout, CellRect, InfoLayout, MenuLayout, PopupRect};
use kakvide::render::{render_grid_cursor, render_status, render_window_title};

const METRICS: CellMetrics = CellMetrics { cell_width: 10, cell_height: 20 };

fn face(fg: &str) -> Face {
    Face { fg: fg.into(), ..Face::default() }
}

fn atom(fg: &str, contents: &str) -> Atom {
    Atom { face: face(fg), contents: contents.into() }
}

fn plain(contents: &str) -> Vec<Atom> {
    vec![Atom { face: Face::default(), contents: contents.into() }]
}

fn over(base: &str, own: &str) -> Paint {
    Paint::Derived { base: face(base), face: face(own) }
}

fn fill(left: usize, top: usize, width: usize, paint: Paint) -> DrawStep {
    DrawStep::Fill { left, top, width, height: 20, paint }
}

fn text(left: usize, top: usize, text: &str, paint: Paint) -> DrawStep {
    DrawStep::Text { left, top, text: text.into(), paint }
}

fn decorate(left: usize, top: usize, width: usize, paint: Paint) -> DrawStep {
    DrawStep::Decorate { left, top, width, paint }
}

/// What the steps write, with the column and the upper edge of each text.
fn written(steps: &[DrawStep]) -> Vec<(usize, usize, String)> {
    steps
        .iter()
        .filter_map(|step| match step {
            DrawStep::Text { left, top, text, .. } => Some(((left - 12) / 10, *top, text.clone())),
            _ => None,
        })
        .collect()
}

/// What the steps write on the row at `top`, from the left.
fn row(steps: &[DrawStep], top: usize) -> String {
    let mut texts: Vec<(usize, String)> = written(steps)
        .into_iter()
        .filter(|(_, edge, _)| *edge == top)
        .map(|(column, _, text)| (column, text))
        .collect();
    texts.sort();
    texts.into_iter().map(|(_, text)| text).collect()
}

fn menu(items: &[&str], selected: Option<usize>, style: MenuStyle) -> MenuState {
    MenuState {
        items: items.iter().map(|item| plain(item)).collect(),
        anchor: Coord { line: 0, column: 0 },
        selected,
        selected_face: face("selected"),
        menu_face: face("menu"),
        style,
    }
}

#[test]
fn lines_are_painted_atom_by_atom() {
    let line = vec![atom("red", "a😀"), atom("none", ""), atom("blue", "bc")];
    let mut steps = Vec::new();
    render_line_at_top(&mut steps, 1, 5, &line, &face("base"), &METRICS, 40);

    assert_eq!(
        steps,
        vec![
            fill(22, 40, 30, over("base", "red")),
            text(22, 40, "a", over("base", "red")),
            text(32, 40, "😀", over("base", "red")),
            decorate(22, 40, 30, over("base", "red")),
            fill(52, 40, 10, over("base", "blue")),
            text(52, 40, "b", over("base", "blue")),
            decorate(52, 40, 10, over("base", "blue")),
        ]
    );
}

#[test]
fn lines_end_at_their_limit() {
    let mut steps = Vec::new();
    render_line_at_top(&mut steps, 0, 2, &[atom("red", "abc")], &face("base"), &METRICS, 0);
    assert_eq!(row(&steps, 0), "ab");
    let mut none = Vec::new();
    render_line_at_top(&mut none, 3, 3, &[atom("red", "abc")], &face("base"), &METRICS, 0);
    assert!(none.is_empty());
}

#[test]
fn control_characters_leave_a_cell_without_text() {
    let mut steps = Vec::new();
    render_line_at_top(&mut steps, 0, 9, &[atom("red", "a\u{7}b\n")], &face("base"), &METRICS, 0);
    assert_eq!(
        written(&steps),
        vec![(0, 0, "a".to_string()), (2, 0, "b".to_string())]
    );
}

#[test]
fn strings_are_as_wide_as_they_are() {
    let mut steps = Vec::new();
    render_string_line_at_top(&mut steps, 2, "ab", &face("base"), &METRICS, 60);
    let paint = Paint::Derived { base: face("base"), face: Face::default() };
    assert_eq!(
        steps,
        vec![
            fill(32, 60, 20, paint.clone()),
            text(32, 60, "a", paint.clone()),
            text(42, 60, "b", paint.clone()),
            decorate(32, 60, 20, paint),
        ]
    );
    let mut none = Vec::new();
    render_string_line_at_top(&mut none, 2, "", &face("base"), &METRICS, 60);
    assert!(none.is_empty());
}

#[test]
fn cursor_shows_the_cell_that_it_stands_on() {
    let grid = GridState {
        lines: vec![vec![atom("red", "ab")]],
        cursor_pos: Coord { line: 0, column: 1 },
        default_face: face("base"),
        padding_face: Face::default(),
        widget_columns: 0,
    };
    let mut steps = Vec::new();
    render_grid_cursor(&mut steps, &grid, 10, 4, &METRICS, 12);
    assert_eq!(
        steps,
        vec![
            fill(22, 12, 10, over("base", "red")),
            text(22, 12, "b", over("base", "red")),
            decorate(22, 12, 10, over("base", "red")),
        ]
    );
}

#[test]
fn cursor_outside_the_text_is_a_blank_in_the_default_face() {
    let grid = GridState {
        cursor_pos: Coord { line: 2, column: 3 },
        default_face: face("base"),
        ..GridState::default()
    };
    let mut steps = Vec::new();
    render_grid_cursor(&mut steps, &grid, 10, 4, &METRICS, 12);
    assert_eq!(steps[1], text(42, 52, " ", over("base", "base")));
    let mut none = Vec::new();
    render_grid_cursor(&mut none, &grid, 10, 2, &METRICS, 12);
    render_grid_cursor(&mut none, &grid, 3, 4, &METRICS, 12);
    assert!(none.is_empty());
}

#[test]
fn prompt_ends_where_the_mode_line_begins() {
    let status = StatusState {
        prompt: plain(":"),
        content: plain("write everything"),
        cursor_pos: 0,
        mode_line: plain("mode"),
        default_face: face("base"),
        style: StatusStyle::Command,
    };
    let mut steps = Vec::new();
    render_status(&mut steps, 10, &status, &METRICS, 200);

    assert_eq!(steps[0], fill(12, 168, 100, Paint::Root { face: face("base") }));
    assert_eq!(row(&steps, 168), ":writemode");
}

#[test]
fn title_stands_in_a_transparent_menu_bar() {
    let layout = LayoutMetrics { top_padding: 36, cols: 10, rows: 4 };
    let mut steps = Vec::new();
    render_window_title(&mut steps, "kakvide - x", &face("base"), &METRICS, layout, 64, true);
    assert_eq!(
        steps,
        vec![DrawStep::Title {
            top: 8,
            text: "kakv".into(),
            paint: Paint::Root { face: face("base") },
        }]
    );
    let mut none = Vec::new();
    render_window_title(&mut none, "kakvide", &face("base"), &METRICS, layout, 64, false);
    render_window_title(&mut none, "", &face("base"), &METRICS, layout, 64, true);
    render_window_title(&mut none, "kakvide", &face("base"), &METRICS, layout, 24, true);
    let low = LayoutMetrics { top_padding: 12, ..layout };
    render_window_title(&mut none, "kakvide", &face("base"), &METRICS, low, 64, true);
    assert!(none.is_empty());
}

#[test]
fn single_row_menu_marks_what_is_left_out() {
    let menu = menu(&["one", "two", "three", "four"], Some(1), MenuStyle::Search);
    let layout = MenuLayout {
        rect: CellRect { row: 3, column: 0, width: 14, height: 1 },
        top: 100,
        visible_columns: 0,
        total_columns: 4,
        rows_per_column: 1,
        column_width: 11,
        first_visible_item: 1,
        is_single_row: true,
    };
    let mut steps = Vec::new();
    render_single_row_menu(&mut steps, &menu, layout, &METRICS, 12);

    assert_eq!(row(&steps, 100), "< two three >");
    assert!(steps.contains(&text(
        32,
        100,
        "t",
        Paint::Derived { base: face("selected"), face: Face::default() }
    )));
}

#[test]
fn single_row_menu_cuts_the_last_item_short() {
    let menu = menu(&["alphabet"], None, MenuStyle::Search);
    let layout = MenuLayout {
        rect: CellRect { row: 3, column: 0, width: 9, height: 1 },
        top: 0,
        visible_columns: 0,
        total_columns: 1,
        rows_per_column: 1,
        column_width: 6,
        first_visible_item: 0,
        is_single_row: true,
    };
    let mut steps = Vec::new();
    render_single_row_menu(&mut steps, &menu, layout, &METRICS, 12);

    assert_eq!(
        written(&steps),
        vec![
            (2, 72, "a".to_string()),
            (3, 72, "l".to_string()),
            (4, 72, "p".to_string()),
            (5, 72, "h".to_string()),
            (7, 72, "…".to_string()),
            (8, 72, ">".to_string()),
        ]
    );
}

#[test]
fn multi_column_menu_fills_columns_from_the_top() {
    let menu = menu(&["a", "b", "c", "d", "e"], Some(2), MenuStyle::Prompt);
    let layout = MenuLayout {
        rect: CellRect { row: 0, column: 0, width: 9, height: 2 },
        top: 100,
        visible_columns: 2,
        total_columns: 3,
        rows_per_column: 2,
        column_width: 4,
        first_visible_item: 1,
        is_single_row: false,
    };
    let mut steps = Vec::new();
    render_multi_column_menu(&mut steps, &menu, layout, &METRICS, 12);

    assert_eq!(
        written(&steps),
        vec![
            (0, 100, "c".to_string()),
            (4, 100, "e".to_string()),
            (8, 100, "█".to_string()),
            (0, 120, "d".to_string()),
            (8, 120, "█".to_string()),
        ]
    );
    assert_eq!(steps[0], fill(12, 100, 40, Paint::Root { face: face("selected") }));
}

#[test]
fn scroll_bar_shows_how_far_the_columns_are() {
    let items: Vec<String> = (0..40).map(|i| format!("item {i}")).collect();
    let names: Vec<&str> = items.iter().map(|item| item.as_str()).collect();
    for (first, marks) in [(0, "██░░"), (3, "██░░"), (5, "░██░"), (9, "░░██")] {
        let menu = menu(&names, None, MenuStyle::Prompt);
        let layout = MenuLayout {
            rect: CellRect { row: 0, column: 0, width: 9, height: 4 },
            top: 100,
            visible_columns: 1,
            total_columns: 10,
            rows_per_column: 4,
            column_width: 8,
            first_visible_item: first,
            is_single_row: false,
        };
        let mut steps = Vec::new();
        render_multi_column_menu(&mut steps, &menu, layout, &METRICS, 12);
        let bar: String = written(&steps)
            .into_iter()
            .filter(|(column, _, _)| *column == 8)
            .map(|(_, _, text)| text)
            .collect();
        assert_eq!(bar, marks);
    }
}

#[test]
fn inline_menu_is_painted_in_the_rows_of_the_grid() {
    let menu = menu(&["one", "two"], Some(1), MenuStyle::Inline);
    let mut steps = Vec::new();
    let place = render_menu(&mut steps, &menu, 20, 8, &METRICS, 12, 300);

    assert_eq!(
        place,
        Some(PopupRect { rect: CellRect { row: 1, column: 0, width: 4, height: 2 }, top: 0 })
    );
    assert_eq!(steps[0], fill(12, 32, 40, Paint::Root { face: face("menu") }));
    assert_eq!(steps[1], fill(12, 52, 40, Paint::Root { face: face("menu") }));
    assert_eq!(row(&steps, 32), "one");
    assert_eq!(row(&steps, 52), "two");
    assert!(steps.contains(&fill(12, 52, 40, Paint::Root { face: face("selected") })));
}

#[test]
fn menus_without_items_are_not_painted() {
    let mut steps = Vec::new();
    assert_eq!(
        render_menu(&mut steps, &menu(&[], Some(0), MenuStyle::Search), 20, 8, &METRICS, 12, 300),
        None
    );
    assert_eq!(
        render_menu(&mut steps, &menu(&["a"], None, MenuStyle::Prompt), 0, 8, &METRICS, 12, 300),
        None
    );
    assert!(steps.is_empty());
}

#[test]
fn prompt_menu_is_painted_where_it_is_laid_out() {
    let menu = menu(&["one", "two", "three"], None, MenuStyle::Prompt);
    let layout = menu_layout(&menu, 20, 8, 300, 20).expect("prompt layout");
    let mut steps = Vec::new();
    let place = render_menu(&mut steps, &menu, 20, 8, &METRICS, 12, 300);

    assert_eq!(place, Some(PopupRect { rect: layout.rect, top: layout.top }));
    assert_eq!(row(&steps, layout.top), "onetwothree█");
}

fn info(title: &str, content: &[&str], style: InfoStyle) -> InfoState {
    InfoState {
        title: if title.is_empty() { Vec::new() } else { plain(title) },
        content: content.iter().map(|line| plain(line)).collect(),
        anchor: Coord { line: 1, column: 0 },
        face: face("info"),
        style,
    }
}

#[test]
fn framed_information_has_its_title_in_the_frame() {
    let info = info("T", &["first", "second"], InfoStyle::Modal);
    let layout = InfoLayout {
        rect: CellRect { row: 0, column: 0, width: 10, height: 5 },
        top: 0,
    };
    let mut steps = Vec::new();
    render_framed_info(&mut steps, &info, layout, &METRICS, 0);

    assert_eq!(row(&steps, 0), "╭──┤T├───╮");
    assert_eq!(row(&steps, 20), "│ first │");
    assert_eq!(row(&steps, 40), "│ second │");
    assert_eq!(row(&steps, 60), "│        │");
    assert_eq!(row(&steps, 80), "╰────────╯");
}

#[test]
fn frames_without_a_title_are_plain() {
    let info = info("", &["x"], InfoStyle::Prompt);
    let layout = InfoLayout {
        rect: CellRect { row: 9, column: 1, width: 5, height: 3 },
        top: 100,
    };
    let mut steps = Vec::new();
    render_framed_info(&mut steps, &info, layout, &METRICS, 0);

    assert_eq!(row(&steps, 100), "╭───╮");
    assert_eq!(row(&steps, 120), "│ x │");
    assert_eq!(row(&steps, 140), "╰───╯");
    let small = InfoLayout { rect: CellRect { row: 9, column: 1, width: 1, height: 3 }, top: 100 };
    let mut none = Vec::new();
    render_framed_info(&mut none, &info, small, &METRICS, 0);
    assert!(none.is_empty());
}

#[test]
fn bare_information_is_as_large_as_its_content() {
    let info = info("", &["ab", "abcd"], InfoStyle::InlineBelow);
    let mut steps = Vec::new();
    render_info(&mut steps, &info, None, 20, 8, &METRICS, 12, 300);

    assert_eq!(steps[0], fill(12, 52, 40, Paint::Root { face: face("info") }));
    assert_eq!(steps[1], fill(12, 72, 40, Paint::Root { face: face("info") }));
    assert_eq!(row(&steps, 52), "ab");
    assert_eq!(row(&steps, 72), "abcd");
    let mut none = Vec::new();
    render_info(&mut none, &info, None, 0, 8, &METRICS, 12, 300);
    assert!(none.is_empty());
}

#[test]
fn windows_are_painted_from_back_to_front() {
    let mut state = AppState::default();
    state.grid.default_face = face("base");
    state.grid.lines = vec![plain("text"), plain("hidden")];
    state.status = Some(StatusState { mode_line: plain("mode"), ..StatusState::default() });
    let layout = LayoutMetrics { top_padding: 36, cols: 8, rows: 2 };
    let steps = render_canvas(&state, &METRICS, &METRICS, layout, 104, 100, true);

    assert_eq!(steps[0], DrawStep::Clear { paint: Paint::Root { face: face("base") } });
    assert!(matches!(&steps[1], DrawStep::Title { text, .. } if text == "kakvide"));
    assert_eq!(row(&steps, 36), "ttext");
    assert_eq!(row(&steps, 68), "mode");
    assert!(!written(&steps).iter().any(|(_, _, text)| text == "h"));
}

#[test]
fn information_stands_beside_the_menu_that_is_painted() {
    let mut state = AppState::default();
    state.menu = Some(menu(&["one"], None, MenuStyle::Inline));
    state.info = Some(info("", &["doc"], InfoStyle::MenuDoc));
    let layout = LayoutMetrics { top_padding: 12, cols: 20, rows: 6 };
    let steps = render_canvas(&state, &METRICS, &METRICS, layout, 224, 200, false);

    assert_eq!(row(&steps, 32), "onedoc");
}

/// What the steps write in the face of the selection.
fn selected_text(steps: &[DrawStep]) -> String {
    steps
        .iter()
        .filter_map(|step| match step {
            DrawStep::Text { text, paint: Paint::Derived { base, .. }, .. }
                if *base == face("selected") =>
            {
                Some(text.as_str())
            }
            _ => None,
        })
        .collect()
}

#[test]
fn prompt_menu_draws_the_selected_item() {
    let names: Vec<String> = (0..40).map(|number| format!("item{number}")).collect();
    let names: Vec<&str> = names.iter().map(String::as_str).collect();
    for selected in 0..names.len() {
        let menu = menu(&names, Some(selected), MenuStyle::Prompt);
        let mut steps = Vec::new();
        render_menu(&mut steps, &menu, 20, 6, &METRICS, 12, 300).expect("menu should be drawn");
        assert_eq!(selected_text(&steps), names[selected]);
    }
}

#[test]
fn prompt_menu_of_one_column_draws_its_first_items() {
    let names = ["a long item", "b long item", "c long item", "d long item"];
    for (selected, expected) in [(0, "a long item"), (1, "b long item"), (2, ""), (3, "")] {
        let menu = menu(&names, Some(selected), MenuStyle::Prompt);
        let mut steps = Vec::new();
        render_menu(&mut steps, &menu, 16, 2, &METRICS, 12, 300).expect("menu should be drawn");
        assert_eq!(selected_text(&steps), expected);
    }
}

#[test]
fn search_menu_draws_the_selected_item() {
    let names = ["one", "two", "a very long item", "three", "four"];
    for (selected, expected) in [
        (0, "one"),
        (1, "two"),
        (2, "a ver"),
        (3, "three"),
        (4, "four"),
    ] {
        let menu = menu(&names, Some(selected), MenuStyle::Search);
        let mut steps = Vec::new();
        render_menu(&mut steps, &menu, 20, 6, &METRICS, 12, 300).expect("menu should be drawn");
        assert_eq!(selected_text(&steps), expected);
    }
}
