use kakvide::app::{InfoState, MenuState};
use kakvide::layout::bottom_overlay_top;
use kakvide::messages::{Atom, Coord, Face, InfoStyle, MenuStyle};
use kakvide::popup::{
    centered_rect, info_rect_with_window, inline_popup_row, menu_first_search_item,
    menu_first_visible_column, menu_layout, CellRect, PopupRect,
};

fn menu_item(text: &str) -> Vec<Atom> {
    vec![Atom { face: Face::default(), contents: text.into() }]
}

fn menu(items: Vec<Vec<Atom>>, anchor: Coord, selected: Option<usize>, style: MenuStyle) -> MenuState {
    MenuState {
        items,
        anchor,
        selected,
        selected_face: Face::default(),
        menu_face: Face::default(),
        style,
    }
}

fn info(style: InfoStyle, anchor: Coord) -> InfoState {
    InfoState {
        title: Vec::new(),
        content: vec![menu_item("help")],
        anchor,
        face: Face::default(),
        style,
    }
}

#[test]
fn prompt_menu_layout_uses_multiple_columns() {
    let menu = menu(
        vec![menu_item("alpha"); 12],
        Coord { line: 0, column: 0 },
        Some(0),
        MenuStyle::Prompt,
    );

    let layout = menu_layout(&menu, 40, 12, 240, 18).expect("prompt layout");
    assert_eq!(layout.rect.width, 40);
    assert_eq!(layout.rect.height, 2);
    assert_eq!(layout.visible_columns, 6);
    assert_eq!(layout.total_columns, 6);
    assert_eq!(layout.column_width, 6);
    assert_eq!(layout.top, bottom_overlay_top(240, 18, 3));
}

#[test]
fn inline_menu_height_is_limited_by_space_around_anchor() {
    let menu = menu(
        vec![menu_item("alpha"); 10],
        Coord { line: 1, column: 3 },
        Some(0),
        MenuStyle::Inline,
    );

    let layout = menu_layout(&menu, 40, 8, 240, 18).expect("inline layout");
    assert_eq!(layout.rect.height, 6);
    assert_eq!(layout.rect.row, 2);
    assert_eq!(layout.rect.column, 3);
}

#[test]
fn inline_menu_near_bottom_opens_above_anchor() {
    let menu = menu(
        vec![menu_item("alpha"); 10],
        Coord { line: 6, column: 4 },
        Some(0),
        MenuStyle::Inline,
    );

    let layout = menu_layout(&menu, 40, 8, 240, 18).expect("inline layout");
    assert_eq!(layout.rect.height, 6);
    assert_eq!(layout.rect.row, 0);
    assert_eq!(layout.rect.column, 4);
}

#[test]
fn prompt_menu_scrolls_columns_to_selected_item() {
    let menu = menu(
        vec![menu_item("abcdefghij"); 40],
        Coord { line: 0, column: 0 },
        Some(39),
        MenuStyle::Prompt,
    );

    let layout = menu_layout(&menu, 30, 10, 240, 18).expect("prompt layout");
    assert_eq!(layout.visible_columns, 2);
    assert_eq!(layout.total_columns, 4);
    assert_eq!(layout.first_visible_item, 2);
}

#[test]
fn search_menu_tracks_first_visible_item_from_selection() {
    let menu = menu(
        vec![menu_item("aaaa"), menu_item("bbbb"), menu_item("cccc"), menu_item("dddd")],
        Coord { line: 0, column: 0 },
        Some(2),
        MenuStyle::Search,
    );

    let layout = menu_layout(&menu, 20, 8, 240, 18).expect("search layout");
    assert!(layout.is_single_row);
    assert_eq!(layout.first_visible_item, 2);
    assert_eq!(layout.top, bottom_overlay_top(240, 18, 1));
}

#[test]
fn prompt_info_is_placed_above_prompt_menu() {
    let info = info(InfoStyle::Prompt, Coord { line: 0, column: 0 });
    let menu = PopupRect {
        rect: CellRect { row: 8, column: 0, width: 30, height: 2 },
        top: bottom_overlay_top(240, 18, 3),
    };

    let rect = info_rect_with_window(&info, Some(menu), 30, 10, 8, 3, 240, 18);
    assert_eq!(rect.rect.row, 5);
    assert_eq!(rect.rect.column, 22);
    assert_eq!(rect.top, bottom_overlay_top(240, 18, 6));
}

#[test]
fn prompt_menu_bottom_edge_stays_fixed_when_cell_height_changes() {
    let menu = menu(
        vec![menu_item("alpha"); 6],
        Coord { line: 0, column: 0 },
        Some(0),
        MenuStyle::Prompt,
    );

    let layout_small = menu_layout(&menu, 40, 12, 240, 18).expect("prompt layout");
    let layout_large = menu_layout(&menu, 40, 9, 240, 24).expect("prompt layout");

    assert_eq!(layout_small.top + layout_small.rect.height * 18, 210);
    assert_eq!(layout_large.top + layout_large.rect.height * 24, 204);
}

#[test]
fn menus_without_room_are_not_laid_out() {
    let anchor = Coord { line: 0, column: 0 };
    let prompt = menu(vec![menu_item("a")], anchor, None, MenuStyle::Prompt);
    let search = menu(vec![menu_item("a")], anchor, None, MenuStyle::Search);
    let inline = menu(vec![menu_item("a")], anchor, None, MenuStyle::Inline);

    assert!(menu_layout(&prompt, 1, 10, 240, 18).is_none());
    assert!(menu_layout(&prompt, 10, 0, 240, 18).is_none());
    assert!(menu_layout(&search, 6, 10, 240, 18).is_none());
    assert!(menu_layout(&inline, 0, 10, 240, 18).is_none());
    assert!(menu_layout(&inline, 10, 1, 240, 18).is_none());
}

#[test]
fn selected_column_of_a_prompt_menu_is_shown() {
    for selected in 0..40 {
        let menu = menu(
            vec![menu_item("abcdefghij"); 40],
            Coord { line: 0, column: 0 },
            Some(selected),
            MenuStyle::Prompt,
        );
        let layout = menu_layout(&menu, 30, 10, 240, 18).expect("prompt layout");
        let column = selected / layout.rows_per_column;
        assert!(layout.first_visible_item <= column);
        assert!(column < layout.first_visible_item + layout.visible_columns);
    }
}

#[test]
fn visible_column_starts_at_the_first_without_a_selection() {
    let menu = menu(
        vec![menu_item("a"); 9],
        Coord { line: 0, column: 0 },
        None,
        MenuStyle::Prompt,
    );
    assert_eq!(menu_first_visible_column(&menu, 3, 1, 3), 0);
    assert_eq!(menu_first_search_item(&menu, 4), 0);
}

#[test]
fn search_row_begins_where_the_row_before_was_full() {
    let items = vec![menu_item("aa"), menu_item("bb"), menu_item("cc"), menu_item("dddddddd")];
    let first = |selected| {
        menu_first_search_item(
            &menu(
                vec![items[0].clone(), items[1].clone(), items[2].clone(), items[3].clone()],
                Coord { line: 0, column: 0 },
                Some(selected),
                MenuStyle::Search,
            ),
            6,
        )
    };

    assert_eq!(first(0), 0);
    assert_eq!(first(1), 0);
    assert_eq!(first(2), 2);
    assert_eq!(first(3), 3);
    assert_eq!(first(17), 3);
}

#[test]
fn popups_open_below_their_line_if_they_fit() {
    assert_eq!(inline_popup_row(2, 3, 6), 3);
    assert_eq!(inline_popup_row(3, 3, 6), 0);
    assert_eq!(inline_popup_row(usize::MAX, 1, 6), usize::MAX - 1);
}

#[test]
fn modal_info_stands_in_the_middle() {
    let layout = centered_rect(30, 10, 8, 3);
    assert_eq!(layout.rect, CellRect { row: 3, column: 11, width: 8, height: 3 });
    assert_eq!(layout.top, 0);
    let modal = info(InfoStyle::Modal, Coord { line: 0, column: 0 });
    assert_eq!(info_rect_with_window(&modal, None, 30, 10, 8, 3, 240, 18), layout);
}

#[test]
fn info_stands_where_its_style_says() {
    let anchor = Coord { line: 5, column: 28 };
    let menu = PopupRect { rect: CellRect { row: 6, column: 4, width: 10, height: 2 }, top: 0 };
    let above = info_rect_with_window(
        &info(InfoStyle::InlineAbove, anchor),
        None,
        30,
        10,
        8,
        3,
        240,
        18,
    );
    assert_eq!(above.rect, CellRect { row: 2, column: 22, width: 8, height: 3 });
    let below = info_rect_with_window(&info(InfoStyle::Inline, anchor), None, 30, 10, 8, 3, 240, 18);
    assert_eq!(below.rect, CellRect { row: 6, column: 22, width: 8, height: 3 });
    let doc = info_rect_with_window(
        &info(InfoStyle::MenuDoc, anchor),
        Some(menu),
        30,
        10,
        8,
        3,
        240,
        18,
    );
    assert_eq!(doc.rect, CellRect { row: 6, column: 14, width: 8, height: 3 });
    let prompt = info_rect_with_window(&info(InfoStyle::Prompt, anchor), None, 30, 10, 8, 3, 240, 18);
    assert_eq!(prompt.rect, CellRect { row: 7, column: 22, width: 8, height: 3 });
    assert_eq!(prompt.top, bottom_overlay_top(240, 18, 4));
}
