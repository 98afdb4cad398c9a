//! The steps that paint a menu.

use vstd::prelude::*;

use crate::app::{MenuState, MenuView};
use crate::draw::{
    block_steps, cell_left, column_pixel, fill_line_segment_at_top, fill_rect_at_top, has_ground,
    is_visible, law_line_shows_its_text, leaves, lemma_line_ends, lemma_line_leaves_before,
    lemma_narrow_line_leaves, lemma_segment, lemma_segment_leaves, lemma_shown_after,
    lemma_shown_before, line_steps, lower_row, render_line_at_top, render_string_line_at_top,
    row_below, segment_step, shows, string_steps, DrawStep, DrawStepView, PaintView,
};
use crate::layout::{capped_mul, less, row_pixel, row_top, CellMetrics};
use crate::messages::{AtomView, Face, FaceView, MenuStyle};
use crate::popup::{
    ceil_quotient, div_up, item_cells, items_span, larger,
    law_prompt_menu_chooses_the_selected_column, law_search_menu_begins_by_the_selected_item,
    max_of, menu_layout, menu_place, min_of, smaller, MenuLayout, PopupRect,
};
use crate::text::{
    capped, clusters_width, grapheme_clusters, line_display_width, line_width, plain_line,
    text_width, truncate_atoms, truncated,
};

verus! {

/// The upper edge of a row of a menu: of a row of the grid, unless the menu
/// has an edge of its own.
pub open spec fn menu_row_top(
    layout: MenuLayout,
    offset: nat,
    metrics: CellMetrics,
    top_padding: usize,
) -> usize {
    if layout.top == 0 {
        row_pixel((layout.rect.row + offset) as nat, metrics, top_padding)
    } else {
        lower_row(layout.top, offset, metrics)
    }
}

/// A row that is too far down to count is as far down as the last.
pub(crate) proof fn lemma_capped_row(row: nat, metrics: CellMetrics, top_padding: usize)
    ensures
        row_pixel(capped(row) as nat, metrics, top_padding) == row_pixel(
            row,
            metrics,
            top_padding,
        ),
{
    let height = metrics.cell_height as int;
    if row > usize::MAX {
        if height > 0 {
            assert(usize::MAX * height >= usize::MAX) by (nonlinear_arith)
                requires
                    height >= 1,
            ;
            assert(row * height >= usize::MAX) by (nonlinear_arith)
                requires
                    height >= 1,
                    row >= usize::MAX,
            ;
        } else {
            assert(usize::MAX * height == 0) by (nonlinear_arith)
                requires
                    height == 0,
            ;
            assert(row * height == 0) by (nonlinear_arith)
                requires
                    height == 0,
            ;
        }
    }
}

/// The upper edge of the row `offset` rows below `row` of the grid.
pub(crate) fn grid_row_top(
    row: usize,
    offset: usize,
    metrics: &CellMetrics,
    top_padding: usize,
) -> (edge: usize)
    ensures
        edge == row_pixel((row + offset) as nat, *metrics, top_padding),
{
    proof {
        lemma_capped_row((row + offset) as nat, *metrics, top_padding);
    }
    row_top(row.saturating_add(offset), metrics, top_padding)
}

/// The upper edge of a row of a menu.
fn menu_row_edge(
    layout: &MenuLayout,
    offset: usize,
    metrics: &CellMetrics,
    top_padding: usize,
) -> (edge: usize)
    ensures
        edge == menu_row_top(*layout, offset as nat, *metrics, top_padding),
{
    if layout.top == 0 {
        grid_row_top(layout.rect.row, offset, metrics, top_padding)
    } else {
        row_below(layout.top, offset, metrics)
    }
}

/// The face of an item.
pub open spec fn item_face(menu: MenuView, index: nat) -> FaceView {
    match menu.selected {
        Some(selected) => if selected == index {
            menu.selected_face
        } else {
            menu.menu_face
        },
        None => menu.menu_face,
    }
}

/// The face of an item.
fn face_of_item(menu: &MenuState, index: usize) -> (face: &Face)
    ensures
        face.deep_view() == item_face(menu.deep_view(), index as nat),
{
    match menu.selected {
        Some(selected) => if selected == index {
            &menu.selected_face
        } else {
            &menu.menu_face
        },
        None => &menu.menu_face,
    }
}

/// The column right behind a menu.
pub open spec fn menu_end(layout: MenuLayout) -> nat {
    capped((layout.rect.column + layout.rect.width) as nat) as nat
}

/// The last column of a menu.
pub open spec fn menu_edge(layout: MenuLayout) -> nat {
    capped((layout.rect.column + less(layout.rect.width as int, 1)) as nat) as nat
}

/// The steps that paint the first `n` items of a menu, one below the other.
pub open spec fn single_column_steps(
    menu: MenuView,
    layout: MenuLayout,
    metrics: CellMetrics,
    top_padding: usize,
    n: nat,
) -> Seq<DrawStepView>
    decreases n,
{
    if n == 0 {
        Seq::empty()
    } else {
        let index = (n - 1) as nat;
        let face = item_face(menu, index);
        let top = menu_row_top(layout, index, metrics, top_padding);
        let column = layout.rect.column as nat;
        single_column_steps(menu, layout, metrics, top_padding, index) + seq![
            segment_step(column, layout.rect.width as nat, face, metrics, top),
        ] + line_steps(menu.items[index as int], face, column, menu_end(layout), top, metrics)
    }
}

/// Paint a menu whose items stand one below the other.
pub fn render_single_column_menu(
    steps: &mut Vec<DrawStep>,
    menu: &MenuState,
    layout: MenuLayout,
    metrics: &CellMetrics,
    top_padding: usize,
)
    ensures
        final(steps).deep_view() == old(steps).deep_view() + single_column_steps(
            menu.deep_view(),
            layout,
            *metrics,
            top_padding,
            smaller(menu.items@.len() as int, layout.rect.height as int) as nat,
        ),
{
    let shown = min_of(menu.items.len(), layout.rect.height);
    let end = layout.rect.column.saturating_add(layout.rect.width);
    let ghost view = menu.deep_view();
    assert(steps.deep_view() + Seq::empty() =~= steps.deep_view());
    for index in 0..shown
        invariant
            shown <= menu.items@.len(),
            view == menu.deep_view(),
            end == menu_end(layout),
            steps.deep_view() == old(steps).deep_view() + single_column_steps(
                view,
                layout,
                *metrics,
                top_padding,
                index as nat,
            ),
    {
        let face = face_of_item(menu, index);
        let top = menu_row_edge(&layout, index, metrics, top_padding);
        fill_line_segment_at_top(
            steps,
            layout.rect.column,
            layout.rect.width,
            face,
            metrics,
            top,
        );
        assert(view.items[index as int] == menu.items@[index as int].deep_view());
        render_line_at_top(
            steps,
            layout.rect.column,
            end,
            menu.items[index].as_slice(),
            face,
            metrics,
            top,
        );
        assert(steps.deep_view() =~= old(steps).deep_view() + single_column_steps(
            view,
            layout,
            *metrics,
            top_padding,
            (index + 1) as nat,
        ));
    }
}

/// The column where the items of a single row end: two columns are kept for
/// the marks.
pub open spec fn row_end(layout: MenuLayout) -> nat {
    capped((layout.rect.column + less(layout.rect.width as int, 2)) as nat) as nat
}

/// The cells of an item, up to the largest `usize`.
pub open spec fn shown_width(item: Seq<AtomView>) -> nat {
    capped(line_width(item)) as nat
}

/// The steps that paint the items of a single row from `index` on, from
/// `column` on: as many as fit, the last of them cut short where it does not
/// fit whole, and a mark where items are left.
pub open spec fn row_items_steps(
    menu: MenuView,
    layout: MenuLayout,
    metrics: CellMetrics,
    top: usize,
    index: nat,
    column: nat,
) -> Seq<DrawStepView>
    decreases menu.items.len() - index,
{
    let more = string_steps(menu_edge(layout), ">"@, menu.menu_face, metrics, top);
    let end = row_end(layout);
    if index >= menu.items.len() {
        Seq::empty()
    } else if column >= end {
        more
    } else {
        let item = menu.items[index as int];
        let face = item_face(menu, index);
        let room = (end - column) as nat;
        let width = shown_width(item);
        if width > room {
            line_steps(truncated(item, (room - 1) as nat), face, column, end, top, metrics)
                + string_steps(end, "…"@, menu.menu_face, metrics, top) + more
        } else {
            let own = line_steps(item, face, column, end, top, metrics);
            let after = column + width;
            if after < end {
                own + string_steps(after, " "@, menu.menu_face, metrics, top) + row_items_steps(
                    menu,
                    layout,
                    metrics,
                    top,
                    index + 1,
                    after + 1,
                )
            } else {
                own + row_items_steps(menu, layout, metrics, top, index + 1, after)
            }
        }
    }
}

/// The steps that paint a menu in a single row.
pub open spec fn single_row_steps(
    menu: MenuView,
    layout: MenuLayout,
    metrics: CellMetrics,
    top_padding: usize,
) -> Seq<DrawStepView> {
    let top = menu_row_top(layout, 0, metrics, top_padding);
    let start = capped((layout.rect.column + 2) as nat) as nat;
    let items = row_items_steps(
        menu,
        layout,
        metrics,
        top,
        layout.first_visible_item as nat,
        start,
    );
    if layout.first_visible_item > 0 {
        string_steps(layout.rect.column as nat, "< "@, menu.menu_face, metrics, top) + items
    } else {
        items
    }
}

/// Paint a menu in a single row.
pub fn render_single_row_menu(
    steps: &mut Vec<DrawStep>,
    menu: &MenuState,
    layout: MenuLayout,
    metrics: &CellMetrics,
    top_padding: usize,
)
    ensures
        final(steps).deep_view() == old(steps).deep_view() + single_row_steps(
            menu.deep_view(),
            layout,
            *metrics,
            top_padding,
        ),
{
    let ghost view = menu.deep_view();
    let top = menu_row_edge(&layout, 0, metrics, top_padding);
    if layout.first_visible_item > 0 {
        render_string_line_at_top(
            steps,
            layout.rect.column,
            "< ",
            &menu.menu_face,
            metrics,
            top,
        );
    }
    let mut column = layout.rect.column.saturating_add(2);
    let end = layout.rect.column.saturating_add(layout.rect.width.saturating_sub(2));
    let edge = layout.rect.column.saturating_add(layout.rect.width.saturating_sub(1));
    let mut index: usize = layout.first_visible_item;
    let ghost goal = old(steps).deep_view() + single_row_steps(view, layout, *metrics, top_padding);
    assert(steps.deep_view() + row_items_steps(
        view,
        layout,
        *metrics,
        top,
        index as nat,
        column as nat,
    ) =~= goal);
    while index < menu.items.len() && column < end
        invariant_except_break
            steps.deep_view() + row_items_steps(
                view,
                layout,
                *metrics,
                top,
                index as nat,
                column as nat,
            ) == goal,
        invariant
            view == menu.deep_view(),
            end == row_end(layout),
            edge == menu_edge(layout),
        ensures
            index < menu.items@.len() ==> steps.deep_view() + string_steps(
                edge as nat,
                ">"@,
                view.menu_face,
                *metrics,
                top,
            ) == goal,
            index >= menu.items@.len() ==> steps.deep_view() == goal,
        decreases menu.items@.len() - index,
    {
        let item = &menu.items[index];
        assert(view.items[index as int] == item.deep_view());
        let ghost start = steps.deep_view();
        let face = face_of_item(menu, index);
        let room: usize = end - column;
        let width = line_display_width(item.as_slice());
        if width > room {
            let cut = truncate_atoms(item.as_slice(), room - 1);
            render_line_at_top(steps, column, end, cut.as_slice(), face, metrics, top);
            render_string_line_at_top(steps, end, "…", &menu.menu_face, metrics, top);
            assert(steps.deep_view() + string_steps(
                edge as nat,
                ">"@,
                view.menu_face,
                *metrics,
                top,
            ) =~= start + row_items_steps(
                view,
                layout,
                *metrics,
                top,
                index as nat,
                column as nat,
            ));
            break ;
        }
        render_line_at_top(steps, column, end, item.as_slice(), face, metrics, top);
        let ghost before = column as nat;
        column = column + width;
        if column < end {
            render_string_line_at_top(steps, column, " ", &menu.menu_face, metrics, top);
            column = column + 1;
        }
        index = index + 1;
        assert(steps.deep_view() + row_items_steps(
            view,
            layout,
            *metrics,
            top,
            index as nat,
            column as nat,
        ) =~= start + row_items_steps(
            view,
            layout,
            *metrics,
            top,
            (index - 1) as nat,
            before,
        ));
    }
    if index < menu.items.len() {
        render_string_line_at_top(steps, edge, ">", &menu.menu_face, metrics, top);
    }
}

/// The rows that the mark of the scroll bar takes: fewer, the more columns there
/// are for the height of the menu, and at least one.
pub open spec fn mark_rows(layout: MenuLayout) -> nat {
    let height = layout.rect.height as int;
    larger(
        smaller(
            ceil_quotient(
                capped((height * height) as nat) as nat,
                larger(layout.total_columns as int, layout.visible_columns as int) as nat,
            ) as int,
            height,
        ),
        1,
    ) as nat
}

/// The row where the mark of the scroll bar begins.
pub open spec fn mark_start(layout: MenuLayout) -> nat {
    if layout.total_columns > layout.visible_columns {
        let free = less(layout.rect.height as int, mark_rows(layout) as int);
        capped((free * layout.first_visible_item) as nat) as nat / ((layout.total_columns
            - layout.visible_columns) as nat)
    } else {
        0
    }
}

/// What the scroll bar shows in a row.
pub open spec fn scroll_mark(layout: MenuLayout, row: nat) -> Seq<char> {
    if mark_start(layout) <= row < mark_start(layout) + mark_rows(layout) {
        "█"@
    } else {
        "░"@
    }
}

/// The columns that a menu of several columns shows.
pub open spec fn columns_shown(layout: MenuLayout) -> nat {
    smaller(
        layout.visible_columns as int,
        less(layout.total_columns as int, layout.first_visible_item as int) as int,
    ) as nat
}

/// The item that stands in a row of a shown column: columns are filled one
/// after the other.
pub open spec fn item_at(layout: MenuLayout, row: nat, column: nat) -> nat {
    ((layout.first_visible_item + column) * layout.rows_per_column + row) as nat
}

/// The steps that paint one place of a menu of several columns. Every place
/// has a background; the last places may hold no item.
pub open spec fn place_steps(
    menu: MenuView,
    layout: MenuLayout,
    metrics: CellMetrics,
    top: usize,
    row: nat,
    column: nat,
) -> Seq<DrawStepView> {
    let index = item_at(layout, row, column);
    let face = item_face(menu, index);
    let start = capped((layout.rect.column + column * layout.column_width) as nat) as nat;
    let background = seq![segment_step(start, layout.column_width as nat, face, metrics, top)];
    if index < menu.items.len() {
        background + line_steps(
            truncated(menu.items[index as int], less(layout.column_width as int, 1)),
            face,
            start,
            capped((start + layout.column_width) as nat) as nat,
            top,
            metrics,
        )
    } else {
        background
    }
}

/// The steps that paint the first `n` places of a row.
pub open spec fn places_steps(
    menu: MenuView,
    layout: MenuLayout,
    metrics: CellMetrics,
    top: usize,
    row: nat,
    n: nat,
) -> Seq<DrawStepView>
    decreases n,
{
    if n == 0 {
        Seq::empty()
    } else {
        let column = (n - 1) as nat;
        places_steps(menu, layout, metrics, top, row, column) + place_steps(
            menu,
            layout,
            metrics,
            top,
            row,
            column,
        )
    }
}

/// The steps that paint the first `n` rows of a menu of several columns, each
/// with its piece of the scroll bar.
pub open spec fn multi_column_steps(
    menu: MenuView,
    layout: MenuLayout,
    metrics: CellMetrics,
    top_padding: usize,
    n: nat,
) -> Seq<DrawStepView>
    decreases n,
{
    if n == 0 {
        Seq::empty()
    } else {
        let row = (n - 1) as nat;
        let top = menu_row_top(layout, row, metrics, top_padding);
        multi_column_steps(menu, layout, metrics, top_padding, row) + places_steps(
            menu,
            layout,
            metrics,
            top,
            row,
            columns_shown(layout),
        ) + string_steps(
            menu_edge(layout),
            scroll_mark(layout, row),
            menu.menu_face,
            metrics,
            top,
        )
    }
}

/// The item that stands in a row of a shown column, if its number fits in a
/// `usize`.
fn item_number(layout: &MenuLayout, row: usize, column: usize) -> (index: Option<usize>)
    ensures
        match index {
            Some(number) => number == item_at(*layout, row as nat, column as nat),
            None => item_at(*layout, row as nat, column as nat) > usize::MAX,
        },
{
    proof {
        let behind = layout.first_visible_item + column;
        let per = layout.rows_per_column as int;
        assert(behind * per >= 0) by (nonlinear_arith)
            requires
                behind >= 0,
                per >= 0,
        ;
        if behind > usize::MAX && per > 0 {
            assert(behind * per > usize::MAX) by (nonlinear_arith)
                requires
                    behind > usize::MAX,
                    per >= 1,
            ;
        }
        if per == 0 {
            assert(behind * per == 0) by (nonlinear_arith)
                requires
                    per == 0,
            ;
        }
    }
    if layout.rows_per_column == 0 {
        return Some(row);
    }
    match layout.first_visible_item.checked_add(column) {
        Some(behind) => match behind.checked_mul(layout.rows_per_column) {
            Some(before) => before.checked_add(row),
            None => None,
        },
        None => None,
    }
}

/// Paint one place of a menu of several columns.
fn render_menu_place(
    steps: &mut Vec<DrawStep>,
    menu: &MenuState,
    layout: &MenuLayout,
    metrics: &CellMetrics,
    top: usize,
    row: usize,
    column: usize,
)
    ensures
        final(steps).deep_view() == old(steps).deep_view() + place_steps(
            menu.deep_view(),
            *layout,
            *metrics,
            top,
            row as nat,
            column as nat,
        ),
{
    let count = menu.items.len();
    let index = item_number(layout, row, column);
    let face = match index {
        Some(number) => face_of_item(menu, number),
        None => &menu.menu_face,
    };
    let start = layout.rect.column.saturating_add(capped_mul(column, layout.column_width));
    fill_line_segment_at_top(steps, start, layout.column_width, face, metrics, top);
    if let Some(number) = index {
        if number < count {
            assert(menu.deep_view().items[number as int] == menu.items@[number as int].deep_view());
            let cut = truncate_atoms(
                menu.items[number].as_slice(),
                layout.column_width.saturating_sub(1),
            );
            let end = start.saturating_add(layout.column_width);
            render_line_at_top(steps, start, end, cut.as_slice(), face, metrics, top);
        }
    }
    assert(steps.deep_view() =~= old(steps).deep_view() + place_steps(
        menu.deep_view(),
        *layout,
        *metrics,
        top,
        row as nat,
        column as nat,
    ));
}

/// Paint a menu of several columns with a scroll bar.
pub fn render_multi_column_menu(
    steps: &mut Vec<DrawStep>,
    menu: &MenuState,
    layout: MenuLayout,
    metrics: &CellMetrics,
    top_padding: usize,
)
    requires
        layout.total_columns > 0 || layout.visible_columns > 0,
    ensures
        final(steps).deep_view() == old(steps).deep_view() + multi_column_steps(
            menu.deep_view(),
            layout,
            *metrics,
            top_padding,
            layout.rect.height as nat,
        ),
{
    let height = layout.rect.height;
    let mark_height = max_of(
        min_of(
            div_up(
                capped_mul(height, height),
                max_of(layout.total_columns, layout.visible_columns),
            ),
            height,
        ),
        1,
    );
    let mark_row: usize = if layout.total_columns > layout.visible_columns {
        capped_mul(height.saturating_sub(mark_height), layout.first_visible_item) / (
        layout.total_columns - layout.visible_columns)
    } else {
        0
    };
    let shown = min_of(
        layout.visible_columns,
        layout.total_columns.saturating_sub(layout.first_visible_item),
    );
    let edge = layout.rect.column.saturating_add(layout.rect.width.saturating_sub(1));
    let ghost view = menu.deep_view();
    assert(steps.deep_view() + Seq::empty() =~= steps.deep_view());
    for row in 0..height
        invariant
            view == menu.deep_view(),
            mark_height == mark_rows(layout),
            mark_row == mark_start(layout),
            shown == columns_shown(layout),
            edge == menu_edge(layout),
            steps.deep_view() == old(steps).deep_view() + multi_column_steps(
                view,
                layout,
                *metrics,
                top_padding,
                row as nat,
            ),
    {
        let top = menu_row_edge(&layout, row, metrics, top_padding);
        let ghost start = steps.deep_view();
        assert(start + Seq::empty() =~= start);
        for column in 0..shown
            invariant
                view == menu.deep_view(),
                steps.deep_view() == start + places_steps(
                    view,
                    layout,
                    *metrics,
                    top,
                    row as nat,
                    column as nat,
                ),
        {
            render_menu_place(steps, menu, &layout, metrics, top, row, column);
            assert(steps.deep_view() =~= start + places_steps(
                view,
                layout,
                *metrics,
                top,
                row as nat,
                (column + 1) as nat,
            ));
        }
        let marker = if row >= mark_row && row - mark_row < mark_height {
            "█"
        } else {
            "░"
        };
        render_string_line_at_top(steps, edge, marker, &menu.menu_face, metrics, top);
        assert(steps.deep_view() =~= old(steps).deep_view() + multi_column_steps(
            view,
            layout,
            *metrics,
            top_padding,
            (row + 1) as nat,
        ));
    }
}

/// The steps that paint a menu of a given layout.
pub open spec fn menu_steps(
    menu: MenuView,
    layout: MenuLayout,
    metrics: CellMetrics,
    top_padding: usize,
) -> Seq<DrawStepView> {
    let top = if menu.style == MenuStyle::Inline {
        row_pixel(layout.rect.row as nat, metrics, top_padding)
    } else {
        layout.top
    };
    block_steps(
        layout.rect.column as nat,
        layout.rect.width as nat,
        layout.rect.height as nat,
        menu.menu_face,
        metrics,
        top,
    ) + if layout.is_single_row {
        single_row_steps(menu, layout, metrics, top_padding)
    } else if layout.visible_columns == 1 {
        single_column_steps(
            menu,
            layout,
            metrics,
            top_padding,
            smaller(menu.items.len() as int, layout.rect.height as int) as nat,
        )
    } else {
        multi_column_steps(menu, layout, metrics, top_padding, layout.rect.height as nat)
    }
}

/// Paint a menu of a given layout.
fn render_menu_at(
    steps: &mut Vec<DrawStep>,
    menu: &MenuState,
    layout: MenuLayout,
    metrics: &CellMetrics,
    top_padding: usize,
)
    requires
        layout.total_columns > 0 || layout.visible_columns > 0 || layout.is_single_row,
    ensures
        final(steps).deep_view() == old(steps).deep_view() + menu_steps(
            menu.deep_view(),
            layout,
            *metrics,
            top_padding,
        ),
{
    let top = match menu.style {
        MenuStyle::Inline => row_top(layout.rect.row, metrics, top_padding),
        MenuStyle::Prompt => layout.top,
        MenuStyle::Search => layout.top,
    };
    fill_rect_at_top(
        steps,
        layout.rect.column,
        layout.rect.width,
        layout.rect.height,
        &menu.menu_face,
        metrics,
        top,
    );
    if layout.is_single_row {
        render_single_row_menu(steps, menu, layout, metrics, top_padding);
    } else if layout.visible_columns == 1 {
        render_single_column_menu(steps, menu, layout, metrics, top_padding);
    } else {
        render_multi_column_menu(steps, menu, layout, metrics, top_padding);
    }
    assert(steps.deep_view() =~= old(steps).deep_view() + menu_steps(
        menu.deep_view(),
        layout,
        *metrics,
        top_padding,
    ));
}

/// The layout of a menu that is drawn: none without items or without a grid.
pub open spec fn drawn_menu(
    menu: MenuView,
    cols: usize,
    rows: usize,
    metrics: CellMetrics,
    window_height: usize,
) -> Option<MenuLayout> {
    if cols == 0 || rows == 0 || menu.items.len() == 0 {
        None
    } else {
        menu_place(menu, cols, rows, window_height, metrics.cell_height)
    }
}

/// Paint a menu, and say where it stands.
pub fn render_menu(
    steps: &mut Vec<DrawStep>,
    menu: &MenuState,
    cols: usize,
    rows: usize,
    metrics: &CellMetrics,
    top_padding: usize,
    window_height: usize,
) -> (place: Option<PopupRect>)
    ensures
        match drawn_menu(menu.deep_view(), cols, rows, *metrics, window_height) {
            Some(layout) => {
                &&& place == Some(PopupRect { rect: layout.rect, top: layout.top })
                &&& final(steps).deep_view() == old(steps).deep_view() + menu_steps(
                    menu.deep_view(),
                    layout,
                    *metrics,
                    top_padding,
                )
            },
            None => place is None && final(steps).deep_view() == old(steps).deep_view(),
        },
{
    if cols == 0 || rows == 0 || menu.items.len() == 0 {
        return None;
    }
    let layout = match menu_layout(menu, cols, rows, window_height, metrics.cell_height) {
        Some(layout) => layout,
        None => return None,
    };
    render_menu_at(steps, menu, layout, metrics, top_padding);
    Some(PopupRect { rect: layout.rect, top: layout.top })
}

/// Whether some steps stand among others, one right after the other.
pub open spec fn paints(steps: Seq<DrawStepView>, part: Seq<DrawStepView>) -> bool {
    exists|before: Seq<DrawStepView>, after: Seq<DrawStepView>|
        steps == #[trigger] (before + part + after)
}

/// Steps that stand among some stand among more.
proof fn lemma_paints_within(
    steps: Seq<DrawStepView>,
    part: Seq<DrawStepView>,
    before: Seq<DrawStepView>,
    after: Seq<DrawStepView>,
)
    requires
        paints(steps, part),
    ensures
        paints(before + steps + after, part),
{
    let (front, back) = choose|front: Seq<DrawStepView>, back: Seq<DrawStepView>|
        steps == #[trigger] (front + part + back);
    assert(before + steps + after =~= (before + front) + part + (back + after));
}

/// Every shown place of a row is painted.
proof fn lemma_places_are_painted(
    menu: MenuView,
    layout: MenuLayout,
    metrics: CellMetrics,
    top: usize,
    row: nat,
    n: nat,
    column: nat,
)
    requires
        column < n,
    ensures
        paints(
            places_steps(menu, layout, metrics, top, row, n),
            place_steps(menu, layout, metrics, top, row, column),
        ),
    decreases n,
{
    let none = Seq::<DrawStepView>::empty();
    let all = places_steps(menu, layout, metrics, top, row, n);
    let before = places_steps(menu, layout, metrics, top, row, (n - 1) as nat);
    let last = place_steps(menu, layout, metrics, top, row, (n - 1) as nat);
    if column == n - 1 {
        assert(all =~= before + last + none);
    } else {
        lemma_places_are_painted(menu, layout, metrics, top, row, (n - 1) as nat, column);
        lemma_paints_within(
            before,
            place_steps(menu, layout, metrics, top, row, column),
            none,
            last,
        );
        assert(all =~= none + before + last);
    }
}

/// Every shown place of every row is painted.
proof fn lemma_rows_are_painted(
    menu: MenuView,
    layout: MenuLayout,
    metrics: CellMetrics,
    top_padding: usize,
    n: nat,
    row: nat,
    column: nat,
)
    requires
        row < n,
        column < columns_shown(layout),
    ensures
        paints(
            multi_column_steps(menu, layout, metrics, top_padding, n),
            place_steps(
                menu,
                layout,
                metrics,
                menu_row_top(layout, row, metrics, top_padding),
                row,
                column,
            ),
        ),
    decreases n,
{
    let none = Seq::<DrawStepView>::empty();
    let last = (n - 1) as nat;
    let all = multi_column_steps(menu, layout, metrics, top_padding, n);
    let before = multi_column_steps(menu, layout, metrics, top_padding, last);
    let top = menu_row_top(layout, last, metrics, top_padding);
    let places = places_steps(menu, layout, metrics, top, last, columns_shown(layout));
    let mark = string_steps(
        menu_edge(layout),
        scroll_mark(layout, last),
        menu.menu_face,
        metrics,
        top,
    );
    let part = place_steps(
        menu,
        layout,
        metrics,
        menu_row_top(layout, row, metrics, top_padding),
        row,
        column,
    );
    if row == last {
        lemma_places_are_painted(
            menu,
            layout,
            metrics,
            top,
            row,
            columns_shown(layout),
            column,
        );
        lemma_paints_within(places, part, before, mark);
    } else {
        lemma_rows_are_painted(menu, layout, metrics, top_padding, last, row, column);
        lemma_paints_within(before, part, none, places + mark);
        assert(all =~= none + before + (places + mark));
    }
}

/// The steps that paint one item of a menu whose items stand one below the other.
pub open spec fn column_item_steps(
    menu: MenuView,
    layout: MenuLayout,
    metrics: CellMetrics,
    top_padding: usize,
    index: nat,
) -> Seq<DrawStepView> {
    let face = item_face(menu, index);
    let top = menu_row_top(layout, index, metrics, top_padding);
    let column = layout.rect.column as nat;
    seq![segment_step(column, layout.rect.width as nat, face, metrics, top)] + line_steps(
        menu.items[index as int],
        face,
        column,
        menu_end(layout),
        top,
        metrics,
    )
}

/// Each of the first items of a column is painted.
proof fn lemma_column_is_painted(
    menu: MenuView,
    layout: MenuLayout,
    metrics: CellMetrics,
    top_padding: usize,
    n: nat,
    index: nat,
)
    requires
        index < n,
    ensures
        paints(
            single_column_steps(menu, layout, metrics, top_padding, n),
            column_item_steps(menu, layout, metrics, top_padding, index),
        ),
    decreases n,
{
    let none = Seq::<DrawStepView>::empty();
    let all = single_column_steps(menu, layout, metrics, top_padding, n);
    let before = single_column_steps(menu, layout, metrics, top_padding, (n - 1) as nat);
    let last = column_item_steps(menu, layout, metrics, top_padding, (n - 1) as nat);
    assert(all =~= before + last + none);
    if index < n - 1 {
        lemma_column_is_painted(menu, layout, metrics, top_padding, (n - 1) as nat, index);
        lemma_paints_within(
            before,
            column_item_steps(menu, layout, metrics, top_padding, index),
            none,
            last,
        );
        assert(all =~= none + before + last);
    }
}

/// A menu above the prompt draws the selected item in the face of the selection:
/// with several visible columns in the place of its column and row, with one
/// visible column if it is among the first items, as many as the menu has rows.
pub proof fn law_prompt_menu_draws_the_selected_item(
    menu: MenuView,
    cols: usize,
    rows: usize,
    window_height: usize,
    metrics: CellMetrics,
    top_padding: usize,
)
    requires
        menu.style == MenuStyle::Prompt,
        menu.items.len() <= usize::MAX,
        menu.selected is Some,
        menu.selected->0 < menu.items.len(),
    ensures
        match menu_place(menu, cols, rows, window_height, metrics.cell_height) {
            Some(layout) => {
                let item = menu.selected->0 as nat;
                let height = layout.rows_per_column as nat;
                let row = item % height;
                let column = (item / height - layout.first_visible_item) as nat;
                &&& item_face(menu, item) == menu.selected_face
                &&& height > 0
                &&& layout.visible_columns > 1 ==> {
                    &&& item / height >= layout.first_visible_item
                    &&& column < columns_shown(layout)
                    &&& row < layout.rect.height
                    &&& item_at(layout, row, column) == item
                    &&& paints(
                        menu_steps(menu, layout, metrics, top_padding),
                        place_steps(
                            menu,
                            layout,
                            metrics,
                            menu_row_top(layout, row, metrics, top_padding),
                            row,
                            column,
                        ),
                    )
                }
                &&& layout.visible_columns == 1 && item < layout.rect.height ==> paints(
                    menu_steps(menu, layout, metrics, top_padding),
                    column_item_steps(menu, layout, metrics, top_padding, item),
                )
            },
            None => true,
        },
{
    law_prompt_menu_chooses_the_selected_column(
        menu,
        cols,
        rows,
        window_height,
        metrics.cell_height,
    );
    if let Some(layout) = menu_place(menu, cols, rows, window_height, metrics.cell_height) {
        let none = Seq::<DrawStepView>::empty();
        let item = menu.selected->0 as nat;
        let height = layout.rows_per_column as nat;
        let all = menu_steps(menu, layout, metrics, top_padding);
        let ground = block_steps(
            layout.rect.column as nat,
            layout.rect.width as nat,
            layout.rect.height as nat,
            menu.menu_face,
            metrics,
            layout.top,
        );
        if layout.visible_columns > 1 {
            let row = item % height;
            let column = (item / height - layout.first_visible_item) as nat;
            vstd::arithmetic::div_mod::lemma_fundamental_div_mod(item as int, height as int);
            vstd::arithmetic::div_mod::lemma_mod_bound(item as int, height as int);
            vstd::arithmetic::mul::lemma_mul_is_commutative(
                height as int,
                item as int / height as int,
            );
            let places = multi_column_steps(
                menu,
                layout,
                metrics,
                top_padding,
                layout.rect.height as nat,
            );
            let part = place_steps(
                menu,
                layout,
                metrics,
                menu_row_top(layout, row, metrics, top_padding),
                row,
                column,
            );
            lemma_rows_are_painted(
                menu,
                layout,
                metrics,
                top_padding,
                layout.rect.height as nat,
                row,
                column,
            );
            lemma_paints_within(places, part, ground, none);
            assert(all =~= ground + places + none);
        } else if item < layout.rect.height {
            let count = smaller(menu.items.len() as int, layout.rect.height as int) as nat;
            let items = single_column_steps(menu, layout, metrics, top_padding, count);
            lemma_column_is_painted(menu, layout, metrics, top_padding, count, item);
            lemma_paints_within(
                items,
                column_item_steps(menu, layout, metrics, top_padding, item),
                ground,
                none,
            );
            assert(all =~= ground + items + none);
        }
    }
}

/// The steps that paint an item of a single row from `column` on: whole where it
/// fits, cut short where it does not.
pub open spec fn row_item_steps(
    menu: MenuView,
    layout: MenuLayout,
    metrics: CellMetrics,
    top: usize,
    index: nat,
    column: nat,
) -> Seq<DrawStepView> {
    let item = menu.items[index as int];
    let end = row_end(layout);
    if shown_width(item) > end - column {
        line_steps(
            truncated(item, (end - column - 1) as nat),
            item_face(menu, index),
            column,
            end,
            top,
            metrics,
        )
    } else {
        line_steps(item, item_face(menu, index), column, end, top, metrics)
    }
}

/// An item without width leaves no step.
proof fn lemma_no_width_no_steps(
    line: Seq<AtomView>,
    base: FaceView,
    column: nat,
    limit: nat,
    top: usize,
    metrics: CellMetrics,
)
    requires
        line_width(line) == 0,
    ensures
        line_steps(line, base, column, limit, top, metrics).len() == 0,
    decreases line.len(),
{
    if line.len() > 0 {
        lemma_no_width_no_steps(line.drop_last(), base, column, limit, top, metrics);
    }
}

/// An item that the items before it leave room for is painted whole.
proof fn lemma_row_item_is_painted(
    menu: MenuView,
    layout: MenuLayout,
    metrics: CellMetrics,
    top: usize,
    index: nat,
    column: nat,
    item: nat,
)
    requires
        index <= item < menu.items.len(),
        row_end(layout) + 1 < usize::MAX,
        column + items_span(menu.items, index as int, (item + 1) as int) <= row_end(layout) + 1,
    ensures
        exists|at: nat|
            column <= at && at + shown_width(menu.items[item as int]) <= row_end(layout)
                && #[trigger] paints(
                row_items_steps(menu, layout, metrics, top, index, column),
                row_item_steps(menu, layout, metrics, top, item, at),
            ),
    decreases item - index,
{
    let none = Seq::<DrawStepView>::empty();
    let end = row_end(layout);
    let own = menu.items[index as int];
    let all = row_items_steps(menu, layout, metrics, top, index, column);
    lemma_items_span_front(menu.items, index as int, (item + 1) as int);
    let width = shown_width(own);
    assert(item_cells(own) == width + 1);
    if index == item {
        assert(items_span(menu.items, (item + 1) as int, (item + 1) as int) == 0);
        let part = row_item_steps(menu, layout, metrics, top, item, column);
        assert(column + width <= end);
        if column >= end {
            lemma_no_width_no_steps(own, item_face(menu, item), column, end, top, metrics);
            assert(part =~= none);
            assert(all =~= none + part + all);
        } else {
            let rest = all.skip(part.len() as int);
            assert(all =~= none + part + rest);
        }
        assert(paints(all, row_item_steps(menu, layout, metrics, top, item, column)));
    } else {
        lemma_items_span_back(menu.items, (index + 1) as int, (item + 1) as int);
        let after = column + width;
        let next = row_items_steps(menu, layout, metrics, top, index + 1, after + 1);
        lemma_row_item_is_painted(menu, layout, metrics, top, index + 1, after + 1, item);
        let at = choose|at: nat|
            after + 1 <= at && at + shown_width(menu.items[item as int]) <= end
                && #[trigger] paints(
                next,
                row_item_steps(menu, layout, metrics, top, item, at),
            );
        let front = line_steps(own, item_face(menu, index), column, end, top, metrics)
            + string_steps(after, " "@, menu.menu_face, metrics, top);
        lemma_paints_within(
            next,
            row_item_steps(menu, layout, metrics, top, item, at),
            front,
            none,
        );
        assert(all =~= front + next + none);
        assert(paints(all, row_item_steps(menu, layout, metrics, top, item, at)));
    }
}

/// The cells of some items, counted from the first.
proof fn lemma_items_span_front(items: Seq<Seq<AtomView>>, first: int, end: int)
    requires
        first < end,
    ensures
        items_span(items, first, end) == item_cells(items[first]) + items_span(
            items,
            first + 1,
            end,
        ),
    decreases end - first,
{
    if first + 1 < end {
        lemma_items_span_front(items, first, end - 1);
    } else {
        assert(items_span(items, first, first) == 0);
    }
}

/// Some items take at least a cell.
proof fn lemma_items_span_back(items: Seq<Seq<AtomView>>, first: int, end: int)
    requires
        first < end,
    ensures
        items_span(items, first, end) >= 1,
{
}

/// A search menu with room for text between its marks draws the selected item in
/// the face of the selection: whole, unless it is too long for the row.
pub proof fn law_search_menu_draws_the_selected_item(
    menu: MenuView,
    cols: usize,
    rows: usize,
    window_height: usize,
    metrics: CellMetrics,
    top_padding: usize,
)
    requires
        menu.style == MenuStyle::Search,
        menu.selected is Some,
        menu.selected->0 < menu.items.len(),
    ensures
        match menu_place(menu, cols, rows, window_height, metrics.cell_height) {
            Some(layout) => {
                let item = menu.selected->0 as nat;
                let top = menu_row_top(layout, 0, metrics, top_padding);
                &&& item_face(menu, item) == menu.selected_face
                &&& layout.rect.width > 4 ==> exists|at: nat|
                    {
                        &&& layout.rect.column + 2 <= at <= row_end(layout)
                        &&& item_cells(menu.items[item as int]) <= layout.column_width ==> at
                            + shown_width(menu.items[item as int]) <= row_end(layout)
                        &&& #[trigger] paints(
                            menu_steps(menu, layout, metrics, top_padding),
                            row_item_steps(menu, layout, metrics, top, item, at),
                        )
                    }
            },
            None => true,
        },
{
    if let Some(layout) = menu_place(menu, cols, rows, window_height, metrics.cell_height) {
        if layout.rect.width > 4 {
            let none = Seq::<DrawStepView>::empty();
            let item = menu.selected->0 as nat;
            let room = layout.column_width;
            let first = layout.first_visible_item as nat;
            let top = menu_row_top(layout, 0, metrics, top_padding);
            let start = (layout.rect.column + 2) as nat;
            let end = row_end(layout);
            law_search_menu_begins_by_the_selected_item(menu.items, menu.selected->0, room);
            let items = row_items_steps(menu, layout, metrics, top, first, start);
            let at = if items_span(menu.items, first as int, (item + 1) as int) <= room {
                lemma_row_item_is_painted(menu, layout, metrics, top, first, start, item);
                choose|at: nat|
                    start <= at && at + shown_width(menu.items[item as int]) <= end
                        && #[trigger] paints(
                        items,
                        row_item_steps(menu, layout, metrics, top, item, at),
                    )
            } else {
                lemma_items_span_front(menu.items, item as int, (item + 1) as int);
                assert(items_span(menu.items, (item + 1) as int, (item + 1) as int) == 0);
                let part = row_item_steps(menu, layout, metrics, top, item, start);
                assert(items =~= none + part + items.skip(part.len() as int));
                start
            };
            let part = row_item_steps(menu, layout, metrics, top, item, at);
            assert(paints(items, part));
            let ground = block_steps(
                layout.rect.column as nat,
                layout.rect.width as nat,
                layout.rect.height as nat,
                menu.menu_face,
                metrics,
                layout.top,
            );
            let mark = if first > 0 {
                string_steps(layout.rect.column as nat, "< "@, menu.menu_face, metrics, top)
            } else {
                none
            };
            lemma_paints_within(items, part, ground + mark, none);
            assert(menu_steps(menu, layout, metrics, top_padding) =~= ground + mark + items + none);
        }
    }
}

/// The mark of the scroll bar stays inside the menu, and stands at its lower
/// end when the last columns are shown.
pub proof fn law_scroll_mark_stays_in_the_menu(layout: MenuLayout)
    requires
        layout.rect.height > 0,
        layout.rect.height <= 10,
        layout.total_columns > layout.visible_columns,
        layout.first_visible_item <= layout.total_columns - layout.visible_columns,
        layout.total_columns <= usize::MAX / 10,
    ensures
        1 <= mark_rows(layout) <= layout.rect.height,
        mark_start(layout) + mark_rows(layout) <= layout.rect.height,
        layout.first_visible_item == layout.total_columns - layout.visible_columns
            ==> mark_start(layout) + mark_rows(layout) == layout.rect.height,
        layout.first_visible_item == 0 ==> mark_start(layout) == 0,
{
    let free = less(layout.rect.height as int, mark_rows(layout) as int) as int;
    let first = layout.first_visible_item as int;
    let hidden = layout.total_columns - layout.visible_columns;
    assert(0 <= free * first <= 10 * first) by (nonlinear_arith)
        requires
            0 <= free <= 10,
            0 <= first,
    ;
    assert(capped((free * first) as nat) == free * first);
    assert(free * first <= free * hidden) by (nonlinear_arith)
        requires
            0 <= free,
            first <= hidden,
    ;
    vstd::arithmetic::div_mod::lemma_div_is_ordered(free * first, free * hidden, hidden);
    vstd::arithmetic::div_mod::lemma_div_by_multiple(free, hidden);
    if first == 0 {
        assert(free * first == 0) by (nonlinear_arith)
            requires
                first == 0,
        ;
        vstd::arithmetic::div_mod::lemma_basic_div(0, hidden);
    }
}

/// The selected item, and no other, has the face of the selection.
pub proof fn law_selection_has_its_face(menu: MenuView, index: nat)
    ensures
        menu.selected == Some(index as usize) && index <= usize::MAX ==> item_face(menu, index)
            == menu.selected_face,
        menu.selected is None || menu.selected->0 != index ==> item_face(menu, index)
            == menu.menu_face,
{
}

/// The upper edge of a row of a menu, where it can be counted in pixels: of an
/// inline menu by the rows of the grid, and otherwise from the edge of the menu.
pub open spec fn row_edge(
    menu: MenuView,
    layout: MenuLayout,
    row: int,
    metrics: CellMetrics,
    top_padding: usize,
) -> int {
    if menu.style is Inline {
        top_padding + (layout.rect.row + row) * metrics.cell_height
    } else {
        layout.top + row * metrics.cell_height
    }
}

/// Whether the edges of a menu can be counted in pixels, and its own edge counts
/// unless it is an inline menu.
pub open spec fn can_be_counted(
    menu: MenuView,
    layout: MenuLayout,
    metrics: CellMetrics,
    top_padding: usize,
) -> bool {
    &&& menu.style is Inline <==> layout.top == 0
    &&& layout.rect.column + layout.rect.width <= usize::MAX
    &&& 12 + (layout.rect.column + layout.rect.width) * metrics.cell_width <= usize::MAX
    &&& row_edge(menu, layout, layout.rect.height as int, metrics, top_padding) <= usize::MAX
}

/// The rows of a menu have the edges that are counted for them.
proof fn lemma_row_edges(
    menu: MenuView,
    layout: MenuLayout,
    metrics: CellMetrics,
    top_padding: usize,
    row: int,
)
    requires
        can_be_counted(menu, layout, metrics, top_padding),
        0 <= row <= layout.rect.height,
    ensures
        menu_row_top(layout, row as nat, metrics, top_padding) == row_edge(
            menu,
            layout,
            row,
            metrics,
            top_padding,
        ),
{
    let h = metrics.cell_height as int;
    let height = layout.rect.height as int;
    let r = layout.rect.row as int;
    assert(0 <= row * h <= height * h && 0 <= (r + row) * h <= (r + height) * h)
        by (nonlinear_arith)
        requires
            0 <= row <= height,
            0 <= r,
            h >= 0,
    ;
}

/// Edges of different rows are a cell apart at least.
proof fn lemma_rows_apart(
    menu: MenuView,
    layout: MenuLayout,
    metrics: CellMetrics,
    top_padding: usize,
    a: int,
    b: int,
)
    requires
        a < b,
    ensures
        row_edge(menu, layout, a, metrics, top_padding) + metrics.cell_height <= row_edge(
            menu,
            layout,
            b,
            metrics,
            top_padding,
        ),
{
    let h = metrics.cell_height as int;
    let r = layout.rect.row as int;
    assert(a * h + h <= b * h && (r + a) * h + h <= (r + b) * h) by (nonlinear_arith)
        requires
            a < b,
            h >= 0,
    ;
}

/// What a row of a single column shows is shown by the column.
proof fn lemma_column_shows(
    menu: MenuView,
    layout: MenuLayout,
    metrics: CellMetrics,
    top_padding: usize,
    count: nat,
    index: nat,
    x: int,
    text: Seq<char>,
    paint: PaintView,
)
    requires
        can_be_counted(menu, layout, metrics, top_padding),
        index < count <= layout.rect.height,
    ensures
        ({
            let y = row_edge(menu, layout, index as int, metrics, top_padding);
            let own = column_item_steps(menu, layout, metrics, top_padding, index);
            let all = single_column_steps(menu, layout, metrics, top_padding, count);
            &&& shows(own, x, y, text, paint) ==> shows(all, x, y, text, paint)
            &&& has_ground(own, x, y, paint) ==> has_ground(all, x, y, paint)
        }),
    decreases count,
{
    let y = row_edge(menu, layout, index as int, metrics, top_padding);
    let last = (count - 1) as nat;
    let before = single_column_steps(menu, layout, metrics, top_padding, last);
    let own = column_item_steps(menu, layout, metrics, top_padding, last);
    assert(single_column_steps(menu, layout, metrics, top_padding, count) =~= before + own);
    if index == last {
        lemma_shown_after(before, own, x, y, text, paint);
    } else {
        lemma_column_shows(
            menu,
            layout,
            metrics,
            top_padding,
            last,
            index,
            x,
            text,
            paint,
        );
        let face = item_face(menu, last);
        let top = menu_row_top(layout, last, metrics, top_padding);
        let column = layout.rect.column as nat;
        lemma_row_edges(menu, layout, metrics, top_padding, last as int);
        lemma_rows_apart(menu, layout, metrics, top_padding, index as int, last as int);
        lemma_segment_leaves(column, layout.rect.width as nat, face, metrics, top, x, y);
        lemma_line_leaves_before(
            menu.items[last as int],
            face,
            column,
            menu_end(layout),
            top,
            metrics,
            x,
            y,
        );
        lemma_shown_before(
            seq![segment_step(column, layout.rect.width as nat, face, metrics, top)],
            line_steps(menu.items[last as int], face, column, menu_end(layout), top, metrics),
            x,
            y,
            text,
            paint,
        );
        lemma_shown_before(before, own, x, y, text, paint);
    }
}

/// A menu of one column shows its items one below the other, from the first on, as
/// many as it has rows: each cluster of an item that begins within the menu is
/// shown in its own face over the face of the item, in the row of the item, at the
/// left side of the menu and behind the text before it. The rest of the row is left
/// in the face of the item.
#[verifier::rlimit(40)]
pub proof fn law_column_menu_shows_its_items(
    menu: MenuView,
    layout: MenuLayout,
    metrics: CellMetrics,
    top_padding: usize,
    index: nat,
    i: int,
    n: int,
    cell: nat,
)
    requires
        !layout.is_single_row,
        layout.visible_columns == 1,
        can_be_counted(menu, layout, metrics, top_padding),
        index < menu.items.len(),
        index < layout.rect.height,
    ensures
        ({
            let face = if menu.selected is Some && menu.selected->0 == index {
                menu.selected_face
            } else {
                menu.menu_face
            };
            let item = menu.items[index as int];
            let steps = menu_steps(menu, layout, metrics, top_padding);
            let y = row_edge(menu, layout, index as int, metrics, top_padding);
            &&& 0 <= i < item.len() && 0 <= n < grapheme_clusters(item[i].contents).len()
                && grapheme_clusters(item[i].contents)[n] != seq!['\n'] && is_visible(
                grapheme_clusters(item[i].contents)[n],
            ) && line_width(item.take(i)) + clusters_width(
                grapheme_clusters(item[i].contents).take(n),
            ) < layout.rect.width ==> shows(
                steps,
                12 + (layout.rect.column + line_width(item.take(i)) + clusters_width(
                    grapheme_clusters(item[i].contents).take(n),
                )) * metrics.cell_width,
                y,
                grapheme_clusters(item[i].contents)[n],
                PaintView::Derived { base: face, face: item[i].face },
            )
            &&& line_width(item) <= cell < layout.rect.width && metrics.cell_width > 0
                && metrics.cell_height > 0 ==> has_ground(
                steps,
                12 + (layout.rect.column + cell) * metrics.cell_width,
                y,
                PaintView::Root { face },
            )
        }),
{
    let face = item_face(menu, index);
    let item = menu.items[index as int];
    let column = layout.rect.column as nat;
    let end = menu_end(layout);
    let y = row_edge(menu, layout, index as int, metrics, top_padding);
    let top = menu_row_top(layout, index, metrics, top_padding);
    lemma_row_edges(menu, layout, metrics, top_padding, index as int);
    let ground = seq![segment_step(column, layout.rect.width as nat, face, metrics, top)];
    let line = line_steps(item, face, column, end, top, metrics);
    let own = column_item_steps(menu, layout, metrics, top_padding, index);
    let count = smaller(menu.items.len() as int, layout.rect.height as int) as nat;
    let column_steps = single_column_steps(menu, layout, metrics, top_padding, count);
    let block_top = if menu.style == MenuStyle::Inline {
        row_pixel(layout.rect.row as nat, metrics, top_padding)
    } else {
        layout.top
    };
    let block = block_steps(
        column,
        layout.rect.width as nat,
        layout.rect.height as nat,
        menu.menu_face,
        metrics,
        block_top,
    );
    if 0 <= i < item.len() {
        let clusters = grapheme_clusters(item[i].contents);
        let at = line_width(item.take(i)) + clusters_width(clusters.take(n));
        let paint = PaintView::Derived { base: face, face: item[i].face };
        if 0 <= n < clusters.len() && clusters[n] != seq!['\n'] && is_visible(clusters[n]) && at
            < layout.rect.width {
            let x = cell_left(column + at, metrics);
            law_line_shows_its_text(item, face, column, end, top, metrics, i, n);
            lemma_shown_after(ground, line, x, y, clusters[n], paint);
            lemma_column_shows(
                menu,
                layout,
                metrics,
                top_padding,
                count,
                index,
                x,
                clusters[n],
                paint,
            );
            lemma_shown_after(block, column_steps, x, y, clusters[n], paint);
        }
    }
    if line_width(item) <= cell < layout.rect.width && metrics.cell_width > 0 && metrics.cell_height
        > 0 {
        let at = column + cell;
        let x = cell_left(at, metrics);
        let paint = PaintView::Root { face };
        lemma_segment(column, layout.rect.width as nat, face, metrics, top, at, x, y);
        lemma_line_ends(item, face, column, end, top, metrics, at);
        lemma_shown_before(ground, line, x, y, Seq::empty(), paint);
        lemma_column_shows(
            menu,
            layout,
            metrics,
            top_padding,
            count,
            index,
            x,
            Seq::empty(),
            paint,
        );
        lemma_shown_after(block, column_steps, x, y, Seq::empty(), paint);
    }
}

/// A place of a menu of several columns paints nothing outside its row, and
/// nothing left of it.
proof fn lemma_place_leaves(
    menu: MenuView,
    layout: MenuLayout,
    metrics: CellMetrics,
    top: usize,
    row: nat,
    column: nat,
    x: int,
    y: int,
)
    requires
        ({
            let start = capped((layout.rect.column + column * layout.column_width) as nat) as nat;
            x < column_pixel(start, metrics) || !(top <= y < top + metrics.cell_height)
                || metrics.cell_width == 0
        }),
    ensures
        leaves(place_steps(menu, layout, metrics, top, row, column), x, y),
{
    let index = item_at(layout, row, column);
    let face = item_face(menu, index);
    let start = capped((layout.rect.column + column * layout.column_width) as nat) as nat;
    let end = capped((start + layout.column_width) as nat) as nat;
    let ground = seq![segment_step(start, layout.column_width as nat, face, metrics, top)];
    lemma_segment_leaves(start, layout.column_width as nat, face, metrics, top, x, y);
    if index < menu.items.len() {
        let cut = truncated(menu.items[index as int], less(layout.column_width as int, 1));
        if metrics.cell_width == 0 {
            lemma_narrow_line_leaves(cut, face, start, end, top, metrics, x, y);
        } else {
            lemma_line_leaves_before(cut, face, start, end, top, metrics, x, y);
        }
        lemma_shown_before(
            ground,
            line_steps(cut, face, start, end, top, metrics),
            x,
            y,
            Seq::empty(),
            PaintView::Root { face },
        );
    }
}

/// What a place shows is shown by the places of its row, where the places right of
/// it leave it.
proof fn lemma_places_show(
    menu: MenuView,
    layout: MenuLayout,
    metrics: CellMetrics,
    top: usize,
    row: nat,
    count: nat,
    column: nat,
    x: int,
    y: int,
    text: Seq<char>,
    paint: PaintView,
)
    requires
        column < count,
        layout.rect.column + count * layout.column_width <= usize::MAX,
        12 + (layout.rect.column + count * layout.column_width) * metrics.cell_width <= usize::MAX,
        x < 12 + (layout.rect.column + (column + 1) * layout.column_width) * metrics.cell_width
            || metrics.cell_width == 0,
    ensures
        ({
            let own = place_steps(menu, layout, metrics, top, row, column);
            let all = places_steps(menu, layout, metrics, top, row, count);
            &&& shows(own, x, y, text, paint) ==> shows(all, x, y, text, paint)
            &&& has_ground(own, x, y, paint) ==> has_ground(all, x, y, paint)
        }),
    decreases count,
{
    let last = (count - 1) as nat;
    let before = places_steps(menu, layout, metrics, top, row, last);
    let own = place_steps(menu, layout, metrics, top, row, last);
    if column == last {
        lemma_shown_after(before, own, x, y, text, paint);
    } else {
        let cw = layout.column_width as int;
        let w = metrics.cell_width as int;
        let c = layout.rect.column as int;
        assert(0 <= (column + 1) * cw <= last * cw <= count * cw) by (nonlinear_arith)
            requires
                0 <= column,
                column + 1 <= last <= count,
                cw >= 0,
        ;
        assert((c + (column + 1) * cw) * w <= (c + last * cw) * w <= (c + count * cw) * w)
            by (nonlinear_arith)
            requires
                (column + 1) * cw <= last * cw <= count * cw,
                w >= 0,
        ;
        lemma_places_show(
            menu,
            layout,
            metrics,
            top,
            row,
            last,
            column,
            x,
            y,
            text,
            paint,
        );
        lemma_place_leaves(menu, layout, metrics, top, row, last, x, y);
        lemma_shown_before(before, own, x, y, text, paint);
    }
}

/// The places of a row paint nothing outside it.
proof fn lemma_places_leave(
    menu: MenuView,
    layout: MenuLayout,
    metrics: CellMetrics,
    top: usize,
    row: nat,
    count: nat,
    x: int,
    y: int,
)
    requires
        !(top <= y < top + metrics.cell_height),
    ensures
        leaves(places_steps(menu, layout, metrics, top, row, count), x, y),
    decreases count,
{
    if count > 0 {
        let last = (count - 1) as nat;
        lemma_places_leave(menu, layout, metrics, top, row, last, x, y);
        lemma_place_leaves(menu, layout, metrics, top, row, last, x, y);
        lemma_shown_before(
            places_steps(menu, layout, metrics, top, row, last),
            place_steps(menu, layout, metrics, top, row, last),
            x,
            y,
            Seq::empty(),
            PaintView::Root { face: menu.menu_face },
        );
    }
}

/// A text in one face paints nothing outside its row, nor left of it.
proof fn lemma_mark_leaves(
    column: nat,
    text: Seq<char>,
    face: FaceView,
    metrics: CellMetrics,
    top: usize,
    x: int,
    y: int,
)
    requires
        x < column_pixel(column, metrics) || !(top <= y < top + metrics.cell_height)
            || metrics.cell_width == 0,
    ensures
        leaves(string_steps(column, text, face, metrics, top), x, y),
{
    let end = capped(column + text_width(text)) as nat;
    if metrics.cell_width == 0 {
        lemma_narrow_line_leaves(plain_line(text), face, column, end, top, metrics, x, y);
    } else {
        lemma_line_leaves_before(plain_line(text), face, column, end, top, metrics, x, y);
    }
}

/// What a place shows is shown by the rows together.
#[verifier::rlimit(40)]
proof fn lemma_rows_show(
    menu: MenuView,
    layout: MenuLayout,
    metrics: CellMetrics,
    top_padding: usize,
    count: nat,
    row: nat,
    column: nat,
    x: int,
    text: Seq<char>,
    paint: PaintView,
)
    requires
        can_be_counted(menu, layout, metrics, top_padding),
        row < count <= layout.rect.height,
        column < columns_shown(layout),
        layout.visible_columns * layout.column_width < layout.rect.width,
        x < 12 + (layout.rect.column + (column + 1) * layout.column_width) * metrics.cell_width
            || metrics.cell_width == 0,
    ensures
        ({
            let y = row_edge(menu, layout, row as int, metrics, top_padding);
            let top = menu_row_top(layout, row, metrics, top_padding);
            let own = place_steps(menu, layout, metrics, top, row, column);
            let all = multi_column_steps(menu, layout, metrics, top_padding, count);
            &&& shows(own, x, y, text, paint) ==> shows(all, x, y, text, paint)
            &&& has_ground(own, x, y, paint) ==> has_ground(all, x, y, paint)
        }),
    decreases count,
{
    let y = row_edge(menu, layout, row as int, metrics, top_padding);
    let last = (count - 1) as nat;
    let top = menu_row_top(layout, last, metrics, top_padding);
    let shown = columns_shown(layout);
    let before = multi_column_steps(menu, layout, metrics, top_padding, last);
    let places = places_steps(menu, layout, metrics, top, last, shown);
    let mark = string_steps(
        menu_edge(layout),
        scroll_mark(layout, last),
        menu.menu_face,
        metrics,
        top,
    );
    lemma_row_edges(menu, layout, metrics, top_padding, last as int);
    let cw = layout.column_width as int;
    let w = metrics.cell_width as int;
    let c = layout.rect.column as int;
    let visible = layout.visible_columns as int;
    let edge = menu_edge(layout) as int;
    assert(0 <= (column + 1) * cw <= shown * cw <= visible * cw) by (nonlinear_arith)
        requires
            0 <= column,
            column + 1 <= shown <= visible,
            cw >= 0,
    ;
    assert((c + (column + 1) * cw) * w <= edge * w && 0 <= edge * w <= (c + layout.rect.width) * w
        && (c + shown * cw) * w <= (c + layout.rect.width) * w) by (nonlinear_arith)
        requires
            c + (column + 1) * cw <= edge,
            0 <= edge <= c + layout.rect.width,
            c + shown * cw <= c + layout.rect.width,
            w >= 0,
    ;
    if row == last {
        lemma_places_show(
            menu,
            layout,
            metrics,
            top,
            row,
            shown,
            column,
            x,
            y,
            text,
            paint,
        );
        lemma_shown_after(before, places, x, y, text, paint);
        lemma_mark_leaves(
            menu_edge(layout),
            scroll_mark(layout, last),
            menu.menu_face,
            metrics,
            top,
            x,
            y,
        );
        lemma_shown_before(before + places, mark, x, y, text, paint);
    } else {
        lemma_rows_show(
            menu,
            layout,
            metrics,
            top_padding,
            last,
            row,
            column,
            x,
            text,
            paint,
        );
        lemma_rows_apart(menu, layout, metrics, top_padding, row as int, last as int);
        lemma_places_leave(menu, layout, metrics, top, last, shown, x, y);
        lemma_mark_leaves(
            menu_edge(layout),
            scroll_mark(layout, last),
            menu.menu_face,
            metrics,
            top,
            x,
            y,
        );
        lemma_shown_before(before, places, x, y, text, paint);
        lemma_shown_before(before + places, mark, x, y, text, paint);
    }
}

/// Where a place of a menu of several columns begins and ends.
proof fn lemma_place_bounds(layout: MenuLayout, metrics: CellMetrics, column: nat)
    requires
        column < layout.visible_columns,
        layout.visible_columns * layout.column_width < layout.rect.width,
        layout.rect.column + layout.rect.width <= usize::MAX,
    ensures
        ({
            let left = layout.rect.column + column * layout.column_width;
            let next = layout.rect.column + (column + 1) * layout.column_width;
            &&& 0 <= left
            &&& next == left + layout.column_width
            &&& next < layout.rect.column + layout.rect.width
            &&& next * metrics.cell_width <= (layout.rect.column + layout.rect.width)
                * metrics.cell_width
            &&& 0 <= next * metrics.cell_width
            &&& capped(left as nat) == left
            &&& capped(next as nat) == next
        }),
{
    let cw = layout.column_width as int;
    let w = metrics.cell_width as int;
    let visible = layout.visible_columns as int;
    assert(0 <= column * cw && column * cw + cw == (column + 1) * cw && (column + 1) * cw <= visible
        * cw) by (nonlinear_arith)
        requires
            0 <= column,
            column + 1 <= visible,
            cw >= 0,
    ;
    let next = layout.rect.column + (column + 1) * layout.column_width;
    let end = layout.rect.column + layout.rect.width;
    assert(0 <= next * w <= end * w) by (nonlinear_arith)
        requires
            0 <= next <= end,
            w >= 0,
    ;
}

/// What a place of a menu of several columns shows is shown by the menu.
proof fn lemma_menu_shows_place(
    menu: MenuView,
    layout: MenuLayout,
    metrics: CellMetrics,
    top_padding: usize,
    column: nat,
    row: nat,
    x: int,
    text: Seq<char>,
    paint: PaintView,
)
    requires
        !layout.is_single_row,
        layout.visible_columns != 1,
        can_be_counted(menu, layout, metrics, top_padding),
        layout.visible_columns * layout.column_width < layout.rect.width,
        column < columns_shown(layout),
        row < layout.rect.height,
        x < 12 + (layout.rect.column + (column + 1) * layout.column_width) * metrics.cell_width
            || metrics.cell_width == 0,
    ensures
        ({
            let y = row_edge(menu, layout, row as int, metrics, top_padding);
            let top = menu_row_top(layout, row, metrics, top_padding);
            let own = place_steps(menu, layout, metrics, top, row, column);
            let all = menu_steps(menu, layout, metrics, top_padding);
            &&& shows(own, x, y, text, paint) ==> shows(all, x, y, text, paint)
            &&& has_ground(own, x, y, paint) ==> has_ground(all, x, y, paint)
        }),
{
    let y = row_edge(menu, layout, row as int, metrics, top_padding);
    let height = layout.rect.height as nat;
    let rows_steps = multi_column_steps(menu, layout, metrics, top_padding, height);
    let all = menu_steps(menu, layout, metrics, top_padding);
    let block = all.take(all.len() - rows_steps.len());
    assert(all =~= block + rows_steps);
    lemma_rows_show(
        menu,
        layout,
        metrics,
        top_padding,
        height,
        row,
        column,
        x,
        text,
        paint,
    );
    lemma_shown_after(block, rows_steps, x, y, text, paint);
}

/// A place of a menu of several columns shows its item.
proof fn lemma_place_shows_text(
    menu: MenuView,
    layout: MenuLayout,
    metrics: CellMetrics,
    top: usize,
    column: nat,
    row: nat,
    cut: Seq<AtomView>,
    i: int,
    n: int,
)
    requires
        column < layout.visible_columns,
        layout.visible_columns * layout.column_width < layout.rect.width,
        layout.rect.column + layout.rect.width <= usize::MAX,
        12 + (layout.rect.column + layout.rect.width) * metrics.cell_width <= usize::MAX,
        item_at(layout, row, column) < menu.items.len(),
        layout.column_width > 0,
        cut == truncated(
            menu.items[item_at(layout, row, column) as int],
            (layout.column_width - 1) as nat,
        ),
        0 <= i < cut.len(),
        0 <= n < grapheme_clusters(cut[i].contents).len(),
        grapheme_clusters(cut[i].contents)[n] != seq!['\n'],
        is_visible(grapheme_clusters(cut[i].contents)[n]),
        line_width(cut.take(i)) + clusters_width(grapheme_clusters(cut[i].contents).take(n))
            < layout.column_width,
    ensures
        shows(
            place_steps(menu, layout, metrics, top, row, column),
            12 + (layout.rect.column + column * layout.column_width + line_width(cut.take(i))
                + clusters_width(grapheme_clusters(cut[i].contents).take(n))) * metrics.cell_width,
            top as int,
            grapheme_clusters(cut[i].contents)[n],
            PaintView::Derived {
                base: item_face(menu, item_at(layout, row, column)),
                face: cut[i].face,
            },
        ),
{
    let face = item_face(menu, item_at(layout, row, column));
    lemma_place_bounds(layout, metrics, column);
    let start = (layout.rect.column + column * layout.column_width) as nat;
    let end = (start + layout.column_width) as nat;
    let clusters = grapheme_clusters(cut[i].contents);
    let at = line_width(cut.take(i)) + clusters_width(clusters.take(n));
    let paint = PaintView::Derived { base: face, face: cut[i].face };
    law_line_shows_its_text(cut, face, start, end, top, metrics, i, n);
    let ground = seq![segment_step(start, layout.column_width as nat, face, metrics, top)];
    let line = line_steps(cut, face, start, end, top, metrics);
    assert(place_steps(menu, layout, metrics, top, row, column) == ground + line);
    lemma_shown_after(ground, line, cell_left(start + at, metrics), top as int, clusters[n], paint);
}

/// The last cell of a place is left in the face of its item, where the item leaves
/// it free.
proof fn lemma_place_shows_ground(
    menu: MenuView,
    layout: MenuLayout,
    metrics: CellMetrics,
    top: usize,
    column: nat,
    row: nat,
    cut: Seq<AtomView>,
)
    requires
        column < layout.visible_columns,
        layout.visible_columns * layout.column_width < layout.rect.width,
        layout.rect.column + layout.rect.width <= usize::MAX,
        12 + (layout.rect.column + layout.rect.width) * metrics.cell_width <= usize::MAX,
        item_at(layout, row, column) < menu.items.len(),
        layout.column_width > 0,
        cut == truncated(
            menu.items[item_at(layout, row, column) as int],
            (layout.column_width - 1) as nat,
        ),
        line_width(cut) < layout.column_width,
        metrics.cell_width > 0,
        metrics.cell_height > 0,
    ensures
        has_ground(
            place_steps(menu, layout, metrics, top, row, column),
            12 + (layout.rect.column + column * layout.column_width + layout.column_width - 1)
                * metrics.cell_width,
            top as int,
            PaintView::Root { face: item_face(menu, item_at(layout, row, column)) },
        ),
{
    let face = item_face(menu, item_at(layout, row, column));
    lemma_place_bounds(layout, metrics, column);
    let start = (layout.rect.column + column * layout.column_width) as nat;
    let end = (start + layout.column_width) as nat;
    let at = (end - 1) as nat;
    let x = cell_left(at, metrics);
    let paint = PaintView::Root { face };
    let ground = seq![segment_step(start, layout.column_width as nat, face, metrics, top)];
    let line = line_steps(cut, face, start, end, top, metrics);
    assert(place_steps(menu, layout, metrics, top, row, column) == ground + line);
    lemma_segment(start, layout.column_width as nat, face, metrics, top, at, x, top as int);
    lemma_line_ends(cut, face, start, end, top, metrics, at);
    lemma_shown_before(ground, line, x, top as int, Seq::empty(), paint);
}

/// A menu of several columns shows its items column by column: the item with a
/// given number stands in the column that comes of dividing its number by the rows
/// of a column, counted from the first visible one, and in the row that is the
/// rest. Each cluster of what is left of the item, cut so that a blank stays behind
/// it, is shown in its own face over the face of the item; and that blank is left
/// in the face of the item.
pub proof fn law_columns_menu_shows_its_items(
    menu: MenuView,
    layout: MenuLayout,
    metrics: CellMetrics,
    top_padding: usize,
    column: nat,
    row: nat,
    cut: Seq<AtomView>,
    i: int,
    n: int,
)
    requires
        !layout.is_single_row,
        layout.visible_columns != 1,
        can_be_counted(menu, layout, metrics, top_padding),
        layout.visible_columns * layout.column_width < layout.rect.width,
        column < layout.visible_columns,
        layout.first_visible_item + column < layout.total_columns,
        row < layout.rect.height,
        layout.column_width > 0,
        (layout.first_visible_item + column) * layout.rows_per_column + row < menu.items.len(),
        cut == truncated(
            menu.items[(layout.first_visible_item + column) * layout.rows_per_column + row],
            (layout.column_width - 1) as nat,
        ),
    ensures
        ({
            let index = (layout.first_visible_item + column) * layout.rows_per_column + row;
            let face = if menu.selected is Some && menu.selected->0 == index {
                menu.selected_face
            } else {
                menu.menu_face
            };
            let steps = menu_steps(menu, layout, metrics, top_padding);
            let y = row_edge(menu, layout, row as int, metrics, top_padding);
            let left = layout.rect.column + column * layout.column_width;
            &&& 0 <= i < cut.len() && 0 <= n < grapheme_clusters(cut[i].contents).len()
                && grapheme_clusters(cut[i].contents)[n] != seq!['\n'] && is_visible(
                grapheme_clusters(cut[i].contents)[n],
            ) && line_width(cut.take(i)) + clusters_width(
                grapheme_clusters(cut[i].contents).take(n),
            ) < layout.column_width ==> shows(
                steps,
                12 + (left + line_width(cut.take(i)) + clusters_width(
                    grapheme_clusters(cut[i].contents).take(n),
                )) * metrics.cell_width,
                y,
                grapheme_clusters(cut[i].contents)[n],
                PaintView::Derived { base: face, face: cut[i].face },
            )
            &&& line_width(cut) < layout.column_width && metrics.cell_width > 0
                && metrics.cell_height > 0 ==> has_ground(
                steps,
                12 + (left + layout.column_width - 1) * metrics.cell_width,
                y,
                PaintView::Root { face },
            )
        }),
{
    let index = item_at(layout, row, column);
    let face = item_face(menu, index);
    let w = metrics.cell_width as int;
    let left = layout.rect.column + column * layout.column_width;
    let next = layout.rect.column + (column + 1) * layout.column_width;
    let top = menu_row_top(layout, row, metrics, top_padding);
    lemma_place_bounds(layout, metrics, column);
    lemma_row_edges(menu, layout, metrics, top_padding, row as int);
    if 0 <= i < cut.len() {
        let clusters = grapheme_clusters(cut[i].contents);
        let at = line_width(cut.take(i)) + clusters_width(clusters.take(n));
        if 0 <= n < clusters.len() && clusters[n] != seq!['\n'] && is_visible(clusters[n]) && at
            < layout.column_width {
            let x = 12 + (left + at) * w;
            assert(w > 0 ==> (left + at) * w < next * w) by (nonlinear_arith)
                requires
                    left + at < next,
                    w >= 0,
            ;
            lemma_place_shows_text(menu, layout, metrics, top, column, row, cut, i, n);
            lemma_menu_shows_place(
                menu,
                layout,
                metrics,
                top_padding,
                column,
                row,
                x,
                clusters[n],
                PaintView::Derived { base: face, face: cut[i].face },
            );
        }
    }
    if line_width(cut) < layout.column_width && metrics.cell_width > 0 && metrics.cell_height > 0 {
        let x = 12 + (left + layout.column_width - 1) * w;
        assert((left + layout.column_width - 1) * w < next * w) by (nonlinear_arith)
            requires
                left + layout.column_width - 1 < next,
                w > 0,
        ;
        lemma_place_shows_ground(menu, layout, metrics, top, column, row, cut);
        lemma_menu_shows_place(
            menu,
            layout,
            metrics,
            top_padding,
            column,
            row,
            x,
            Seq::empty(),
            PaintView::Root { face },
        );
    }
}

/// The items of a row from some column on paint nothing left of it, nor outside
/// their row.
proof fn lemma_row_items_leave(
    menu: MenuView,
    layout: MenuLayout,
    metrics: CellMetrics,
    top: usize,
    index: nat,
    column: nat,
    bound: nat,
    x: int,
    y: int,
)
    requires
        bound <= column,
        bound <= row_end(layout),
        row_end(layout) <= menu_edge(layout),
        x < column_pixel(bound, metrics) || !(top <= y < top + metrics.cell_height)
            || metrics.cell_width == 0,
    ensures
        leaves(row_items_steps(menu, layout, metrics, top, index, column), x, y),
    decreases menu.items.len() - index,
{
    let end = row_end(layout);
    let edge = menu_edge(layout);
    let w = metrics.cell_width as int;
    let paint = PaintView::Root { face: menu.menu_face };
    let none = Seq::<char>::empty();
    lemma_columns_in_order(bound, edge, metrics);
    lemma_columns_in_order(bound, end, metrics);
    lemma_columns_in_order(bound, column, metrics);
    lemma_mark_leaves(edge, ">"@, menu.menu_face, metrics, top, x, y);
    if index < menu.items.len() && column < end {
        let more = string_steps(edge, ">"@, menu.menu_face, metrics, top);
        let item = menu.items[index as int];
        let face = item_face(menu, index);
        let room = (end - column) as nat;
        let width = shown_width(item);
        if width > room {
            let cut = truncated(item, (room - 1) as nat);
            let own = line_steps(cut, face, column, end, top, metrics);
            let dots = string_steps(end, "…"@, menu.menu_face, metrics, top);
            lemma_own_line_leaves(cut, face, column, end, top, metrics, x, y);
            lemma_mark_leaves(end, "…"@, menu.menu_face, metrics, top, x, y);
            lemma_shown_before(own, dots, x, y, none, paint);
            lemma_shown_before(own + dots, more, x, y, none, paint);
        } else {
            let own = line_steps(item, face, column, end, top, metrics);
            let after = column + width;
            lemma_own_line_leaves(item, face, column, end, top, metrics, x, y);
            if after < end {
                let blank = string_steps(after, " "@, menu.menu_face, metrics, top);
                lemma_columns_in_order(bound, after, metrics);
                lemma_mark_leaves(after, " "@, menu.menu_face, metrics, top, x, y);
                lemma_row_items_leave(
                    menu,
                    layout,
                    metrics,
                    top,
                    index + 1,
                    after + 1,
                    bound,
                    x,
                    y,
                );
                lemma_shown_before(own, blank, x, y, none, paint);
                lemma_shown_before(
                    own + blank,
                    row_items_steps(menu, layout, metrics, top, index + 1, after + 1),
                    x,
                    y,
                    none,
                    paint,
                );
            } else {
                lemma_row_items_leave(menu, layout, metrics, top, index + 1, after, bound, x, y);
                lemma_shown_before(
                    own,
                    row_items_steps(menu, layout, metrics, top, index + 1, after),
                    x,
                    y,
                    none,
                    paint,
                );
            }
        }
    }
}

/// A line paints nothing left of it, nor outside its row.
proof fn lemma_own_line_leaves(
    line: Seq<AtomView>,
    face: FaceView,
    column: nat,
    end: nat,
    top: usize,
    metrics: CellMetrics,
    x: int,
    y: int,
)
    requires
        x < column_pixel(column, metrics) || !(top <= y < top + metrics.cell_height)
            || metrics.cell_width == 0,
    ensures
        leaves(line_steps(line, face, column, end, top, metrics), x, y),
{
    if metrics.cell_width == 0 {
        lemma_narrow_line_leaves(line, face, column, end, top, metrics, x, y);
    } else {
        lemma_line_leaves_before(line, face, column, end, top, metrics, x, y);
    }
}

/// Columns further right have edges further right, or the same.
proof fn lemma_columns_in_order(a: nat, b: nat, metrics: CellMetrics)
    requires
        a <= b,
    ensures
        column_pixel(a, metrics) <= column_pixel(b, metrics),
{
    let w = metrics.cell_width as int;
    assert(0 <= a * w <= b * w) by (nonlinear_arith)
        requires
            0 <= a <= b,
            w >= 0,
    ;
}

/// Items that fit in a row are shown one after the other, a blank between them.
#[verifier::rlimit(40)]
proof fn lemma_row_items_show(
    menu: MenuView,
    layout: MenuLayout,
    metrics: CellMetrics,
    top: usize,
    index: nat,
    column: nat,
    item: nat,
    i: int,
    n: int,
)
    requires
        index <= item < menu.items.len(),
        row_end(layout) + 1 < usize::MAX,
        row_end(layout) <= menu_edge(layout),
        12 + row_end(layout) * metrics.cell_width <= usize::MAX,
        column + items_span(menu.items, index as int, (item + 1) as int) <= row_end(layout) + 1,
        0 <= i < menu.items[item as int].len(),
        0 <= n < grapheme_clusters(menu.items[item as int][i].contents).len(),
        grapheme_clusters(menu.items[item as int][i].contents)[n] != seq!['\n'],
        is_visible(grapheme_clusters(menu.items[item as int][i].contents)[n]),
        line_width(menu.items[item as int].take(i)) + clusters_width(
            grapheme_clusters(menu.items[item as int][i].contents).take(n),
        ) < line_width(menu.items[item as int]),
    ensures
        shows(
            row_items_steps(menu, layout, metrics, top, index, column),
            cell_left(
                column + items_span(menu.items, index as int, item as int) + line_width(
                    menu.items[item as int].take(i),
                ) + clusters_width(
                    grapheme_clusters(menu.items[item as int][i].contents).take(n),
                ),
                metrics,
            ),
            top as int,
            grapheme_clusters(menu.items[item as int][i].contents)[n],
            PaintView::Derived {
                base: item_face(menu, item),
                face: menu.items[item as int][i].face,
            },
        ),
    decreases item - index,
{
    let end = row_end(layout);
    let own_item = menu.items[index as int];
    let line = menu.items[item as int];
    let clusters = grapheme_clusters(line[i].contents);
    let at = line_width(line.take(i)) + clusters_width(clusters.take(n));
    let y = top as int;
    let paint = PaintView::Derived { base: item_face(menu, item), face: line[i].face };
    let w = metrics.cell_width as int;
    lemma_items_span_front(menu.items, index as int, (item + 1) as int);
    let width = shown_width(own_item);
    assert(item_cells(own_item) == width + 1);
    assert(width == line_width(own_item)) by {
        assert(item_cells(own_item) < usize::MAX);
    }
    let own = line_steps(own_item, item_face(menu, index), column, end, top, metrics);
    let after = column + width;
    let all = row_items_steps(menu, layout, metrics, top, index, column);
    if index == item {
        assert(items_span(menu.items, (item + 1) as int, (item + 1) as int) == 0);
        assert(items_span(menu.items, item as int, item as int) == 0);
        assert(after <= end);
        assert(column < end);
        let x = cell_left(column + at, metrics);
        law_line_shows_its_text(line, item_face(menu, item), column, end, top, metrics, i, n);
        assert((column + at) * w <= after * w && (w > 0 ==> (column + at) * w < after * w) && after
            * w <= end * w) by (nonlinear_arith)
            requires
                0 <= column + at < after <= end,
                w >= 0,
        ;
        if after < end {
            let blank = string_steps(after, " "@, menu.menu_face, metrics, top);
            lemma_mark_leaves(after, " "@, menu.menu_face, metrics, top, x, y);
            lemma_row_items_leave(
                menu,
                layout,
                metrics,
                top,
                index + 1,
                after + 1,
                after,
                x,
                y,
            );
            lemma_shown_before(own, blank, x, y, clusters[n], paint);
            lemma_shown_before(
                own + blank,
                row_items_steps(menu, layout, metrics, top, index + 1, after + 1),
                x,
                y,
                clusters[n],
                paint,
            );
        } else {
            lemma_row_items_leave(menu, layout, metrics, top, index + 1, after, after, x, y);
            lemma_shown_before(
                own,
                row_items_steps(menu, layout, metrics, top, index + 1, after),
                x,
                y,
                clusters[n],
                paint,
            );
        }
    } else {
        lemma_items_span_back(menu.items, (index + 1) as int, (item + 1) as int);
        lemma_items_span_front(menu.items, index as int, item as int);
        lemma_items_span_front(menu.items, (index + 1) as int, (item + 1) as int);
        lemma_span_holds_last(menu.items, (index + 1) as int, item as int);
        let next = row_items_steps(menu, layout, metrics, top, index + 1, after + 1);
        let x = cell_left(
            column + items_span(menu.items, index as int, item as int) + at,
            metrics,
        );
        assert(after < end);
        lemma_row_items_show(menu, layout, metrics, top, index + 1, after + 1, item, i, n);
        let front = own + string_steps(after, " "@, menu.menu_face, metrics, top);
        lemma_shown_after(front, next, x, y, clusters[n], paint);
    }
}

/// The last of some items takes its text and a blank.
proof fn lemma_span_holds_last(items: Seq<Seq<AtomView>>, first: int, last: int)
    requires
        first <= last,
        0 <= last < items.len(),
    ensures
        items_span(items, first, last + 1) == items_span(items, first, last) + item_cells(
            items[last],
        ),
{
}

/// A menu in a single row shows its items one after the other, a blank between
/// them, from its first visible item on, which stands behind the mark at the left
/// side: each cluster of an item that fits before the mark at the right side is
/// shown in its own face over the face of the item.
pub proof fn law_row_menu_shows_its_items(
    menu: MenuView,
    layout: MenuLayout,
    metrics: CellMetrics,
    top_padding: usize,
    item: nat,
    i: int,
    n: int,
)
    requires
        layout.is_single_row,
        layout.rect.width > 4,
        layout.rect.height >= 1,
        layout.rect.column + layout.rect.width < usize::MAX,
        can_be_counted(menu, layout, metrics, top_padding),
        layout.first_visible_item <= item < menu.items.len(),
        layout.rect.column + 2 + items_span(
            menu.items,
            layout.first_visible_item as int,
            item as int,
        ) + line_width(menu.items[item as int]) <= layout.rect.column + layout.rect.width - 2,
        0 <= i < menu.items[item as int].len(),
        0 <= n < grapheme_clusters(menu.items[item as int][i].contents).len(),
        grapheme_clusters(menu.items[item as int][i].contents)[n] != seq!['\n'],
        is_visible(grapheme_clusters(menu.items[item as int][i].contents)[n]),
        line_width(menu.items[item as int].take(i)) + clusters_width(
            grapheme_clusters(menu.items[item as int][i].contents).take(n),
        ) < line_width(menu.items[item as int]),
    ensures
        shows(
            menu_steps(menu, layout, metrics, top_padding),
            12 + (layout.rect.column + 2 + items_span(
                menu.items,
                layout.first_visible_item as int,
                item as int,
            ) + line_width(menu.items[item as int].take(i)) + clusters_width(
                grapheme_clusters(menu.items[item as int][i].contents).take(n),
            )) * metrics.cell_width,
            row_edge(menu, layout, 0, metrics, top_padding),
            grapheme_clusters(menu.items[item as int][i].contents)[n],
            PaintView::Derived {
                base: if menu.selected is Some && menu.selected->0 == item {
                    menu.selected_face
                } else {
                    menu.menu_face
                },
                face: menu.items[item as int][i].face,
            },
        ),
{
    let first = layout.first_visible_item as nat;
    let start = (layout.rect.column + 2) as nat;
    let top = menu_row_top(layout, 0, metrics, top_padding);
    lemma_row_edges(menu, layout, metrics, top_padding, 0);
    lemma_span_holds_last(menu.items, first as int, item as int);
    let end = row_end(layout);
    let w = metrics.cell_width as int;
    assert(0 <= end * w <= (layout.rect.column + layout.rect.width) * w) by (nonlinear_arith)
        requires
            0 <= end <= layout.rect.column + layout.rect.width,
            w >= 0,
    ;
    lemma_row_items_show(menu, layout, metrics, top, first, start, item, i, n);
    let line = menu.items[item as int];
    let clusters = grapheme_clusters(line[i].contents);
    let at = line_width(line.take(i)) + clusters_width(clusters.take(n));
    let x = cell_left(
        start + items_span(menu.items, first as int, item as int) + at,
        metrics,
    );
    let y = top as int;
    let paint = PaintView::Derived { base: item_face(menu, item), face: line[i].face };
    let items = row_items_steps(menu, layout, metrics, top, first, start);
    let mark = string_steps(layout.rect.column as nat, "< "@, menu.menu_face, metrics, top);
    lemma_shown_after(mark, items, x, y, clusters[n], paint);
    let block_top = if menu.style == MenuStyle::Inline {
        row_pixel(layout.rect.row as nat, metrics, top_padding)
    } else {
        layout.top
    };
    let block = block_steps(
        layout.rect.column as nat,
        layout.rect.width as nat,
        layout.rect.height as nat,
        menu.menu_face,
        metrics,
        block_top,
    );
    lemma_shown_after(
        block,
        single_row_steps(menu, layout, metrics, top_padding),
        x,
        y,
        clusters[n],
        paint,
    );
}

/// A menu in a single row marks its ends: its left end where items come before the
/// first visible one, and its right end where an item does not fit any more.
pub proof fn law_row_menu_marks_its_ends(
    menu: MenuView,
    layout: MenuLayout,
    metrics: CellMetrics,
    top_padding: usize,
    item: nat,
)
    requires
        layout.is_single_row,
        layout.rect.width > 4,
        layout.rect.height >= 1,
        layout.rect.column + layout.rect.width < usize::MAX,
        can_be_counted(menu, layout, metrics, top_padding),
        layout.first_visible_item <= item < menu.items.len(),
    ensures
        ({
            let steps = menu_steps(menu, layout, metrics, top_padding);
            let top = row_edge(menu, layout, 0, metrics, top_padding) as usize;
            &&& layout.first_visible_item > 0 ==> paints(
                steps,
                string_steps(layout.rect.column as nat, "< "@, menu.menu_face, metrics, top),
            )
            &&& layout.rect.column + 2 + items_span(
                menu.items,
                layout.first_visible_item as int,
                item as int,
            ) + line_width(menu.items[item as int]) > layout.rect.column + layout.rect.width - 2
                ==> paints(
                steps,
                string_steps(
                    (layout.rect.column + layout.rect.width - 1) as nat,
                    ">"@,
                    menu.menu_face,
                    metrics,
                    top,
                ),
            )
        }),
{
    let none = Seq::<DrawStepView>::empty();
    let first = layout.first_visible_item as nat;
    let start = (layout.rect.column + 2) as nat;
    let top = menu_row_top(layout, 0, metrics, top_padding);
    lemma_row_edges(menu, layout, metrics, top_padding, 0);
    let items = row_items_steps(menu, layout, metrics, top, first, start);
    let mark = string_steps(layout.rect.column as nat, "< "@, menu.menu_face, metrics, top);
    let more = string_steps(menu_edge(layout), ">"@, menu.menu_face, metrics, top);
    let block_top = if menu.style == MenuStyle::Inline {
        row_pixel(layout.rect.row as nat, metrics, top_padding)
    } else {
        layout.top
    };
    let block = block_steps(
        layout.rect.column as nat,
        layout.rect.width as nat,
        layout.rect.height as nat,
        menu.menu_face,
        metrics,
        block_top,
    );
    let steps = menu_steps(menu, layout, metrics, top_padding);
    let front = if first > 0 {
        block + mark
    } else {
        block
    };
    assert(steps =~= front + items + none);
    if first > 0 {
        assert(steps =~= block + mark + items);
    }
    if start + items_span(menu.items, first as int, item as int) + line_width(
        menu.items[item as int],
    ) > row_end(layout) {
        lemma_row_items_mark(menu, layout, metrics, top, first, start, item);
        lemma_paints_within(items, more, front, none);
    }
}

/// Where an item does not fit in a row, the row ends in a mark.
proof fn lemma_row_items_mark(
    menu: MenuView,
    layout: MenuLayout,
    metrics: CellMetrics,
    top: usize,
    index: nat,
    column: nat,
    item: nat,
)
    requires
        index <= item < menu.items.len(),
        row_end(layout) + 1 < usize::MAX,
        column + items_span(menu.items, index as int, item as int) + line_width(
            menu.items[item as int],
        ) > row_end(layout),
    ensures
        paints(
            row_items_steps(menu, layout, metrics, top, index, column),
            string_steps(menu_edge(layout), ">"@, menu.menu_face, metrics, top),
        ),
    decreases item - index,
{
    let none = Seq::<DrawStepView>::empty();
    let end = row_end(layout);
    let more = string_steps(menu_edge(layout), ">"@, menu.menu_face, metrics, top);
    let all = row_items_steps(menu, layout, metrics, top, index, column);
    let own_item = menu.items[index as int];
    let width = shown_width(own_item);
    if column >= end {
        assert(all =~= none + more + none);
    } else if width > end - column {
        let front = all.take(all.len() - more.len());
        assert(all =~= front + more + none);
    } else {
        let own = line_steps(own_item, item_face(menu, index), column, end, top, metrics);
        let after = column + width;
        assert(width == line_width(own_item));
        if index == item {
            assert(items_span(menu.items, item as int, item as int) == 0);
        } else {
            lemma_items_span_front(menu.items, index as int, item as int);
            if after < end {
                let next = row_items_steps(menu, layout, metrics, top, index + 1, after + 1);
                let front = own + string_steps(after, " "@, menu.menu_face, metrics, top);
                lemma_row_items_mark(menu, layout, metrics, top, index + 1, after + 1, item);
                lemma_paints_within(next, more, front, none);
                assert(all =~= front + next + none);
            } else {
                let next = row_items_steps(menu, layout, metrics, top, index + 1, after);
                assert(next =~= none + more + none);
                lemma_paints_within(next, more, own, none);
                assert(all =~= own + next + none);
            }
        }
    }
}

/// A menu is painted in its own face first, row by row, and is not drawn without
/// items.
pub proof fn law_menu_has_its_ground(
    menu: MenuView,
    layout: MenuLayout,
    metrics: CellMetrics,
    top_padding: usize,
    row: int,
)
    requires
        can_be_counted(menu, layout, metrics, top_padding),
        0 <= row < layout.rect.height,
    ensures
        menu_steps(menu, layout, metrics, top_padding)[row] == (DrawStepView::Fill {
            left: (12 + layout.rect.column * metrics.cell_width) as usize,
            top: row_edge(menu, layout, row, metrics, top_padding) as usize,
            width: (layout.rect.width * metrics.cell_width) as usize,
            height: metrics.cell_height,
            paint: PaintView::Root { face: menu.menu_face },
        }),
{
    let w = metrics.cell_width as int;
    let h = metrics.cell_height as int;
    let column = layout.rect.column as int;
    let width = layout.rect.width as int;
    let r = layout.rect.row as int;
    assert(0 <= column * w && 0 <= width * w && column * w + width * w == (column + width) * w && w
        * width == width * w) by (nonlinear_arith)
        requires
            0 <= column,
            0 <= width,
            w >= 0,
    ;
    lemma_row_edges(menu, layout, metrics, top_padding, 0);
    lemma_row_edges(menu, layout, metrics, top_padding, row);
    assert((r + 0) * h + row * h == (r + row) * h && 0 * h == 0 && r * h == (r + 0) * h)
        by (nonlinear_arith);
}

/// A menu is drawn where it has items and there is a grid with room for it, and
/// stands where its layout says.
pub proof fn law_menu_is_drawn_where_it_is_laid_out(
    menu: MenuView,
    cols: usize,
    rows: usize,
    metrics: CellMetrics,
    window_height: usize,
)
    ensures
        menu.items.len() > 0 && cols > 0 && rows > 0 ==> drawn_menu(
            menu,
            cols,
            rows,
            metrics,
            window_height,
        ) == menu_place(menu, cols, rows, window_height, metrics.cell_height),
        menu.items.len() == 0 || cols == 0 || rows == 0 ==> drawn_menu(
            menu,
            cols,
            rows,
            metrics,
            window_height,
        ) is None,
{
}

/// The scroll bar of a menu of several columns stands in its last column: every
/// row ends in a piece of it, and the pieces of the mark are those from the row
/// where it begins, as many as it takes.
pub proof fn law_scroll_bar_stands_at_the_edge(
    menu: MenuView,
    layout: MenuLayout,
    metrics: CellMetrics,
    top_padding: usize,
    row: nat,
)
    requires
        !layout.is_single_row,
        layout.visible_columns != 1,
        layout.rect.width >= 1,
        can_be_counted(menu, layout, metrics, top_padding),
        row < layout.rect.height,
    ensures
        paints(
            menu_steps(menu, layout, metrics, top_padding),
            string_steps(
                (layout.rect.column + layout.rect.width - 1) as nat,
                if mark_start(layout) <= row < mark_start(layout) + mark_rows(layout) {
                    "█"@
                } else {
                    "░"@
                },
                menu.menu_face,
                metrics,
                row_edge(menu, layout, row as int, metrics, top_padding) as usize,
            ),
        ),
{
    let none = Seq::<DrawStepView>::empty();
    let top = menu_row_top(layout, row, metrics, top_padding);
    lemma_row_edges(menu, layout, metrics, top_padding, row as int);
    let part = string_steps(
        menu_edge(layout),
        scroll_mark(layout, row),
        menu.menu_face,
        metrics,
        top,
    );
    let height = layout.rect.height as nat;
    lemma_scroll_bar_is_painted(menu, layout, metrics, top_padding, height, row);
    let rows = multi_column_steps(menu, layout, metrics, top_padding, height);
    let steps = menu_steps(menu, layout, metrics, top_padding);
    let front = steps.take(steps.len() - rows.len());
    lemma_paints_within(rows, part, front, none);
    assert(steps =~= front + rows + none);
}

/// Every row has its piece of the scroll bar.
proof fn lemma_scroll_bar_is_painted(
    menu: MenuView,
    layout: MenuLayout,
    metrics: CellMetrics,
    top_padding: usize,
    count: nat,
    row: nat,
)
    requires
        row < count,
    ensures
        paints(
            multi_column_steps(menu, layout, metrics, top_padding, count),
            string_steps(
                menu_edge(layout),
                scroll_mark(layout, row),
                menu.menu_face,
                metrics,
                menu_row_top(layout, row, metrics, top_padding),
            ),
        ),
    decreases count,
{
    let none = Seq::<DrawStepView>::empty();
    let last = (count - 1) as nat;
    let all = multi_column_steps(menu, layout, metrics, top_padding, count);
    let before = multi_column_steps(menu, layout, metrics, top_padding, last);
    let part = string_steps(
        menu_edge(layout),
        scroll_mark(layout, row),
        menu.menu_face,
        metrics,
        menu_row_top(layout, row, metrics, top_padding),
    );
    if row == last {
        let front = all.take(all.len() - part.len());
        assert(all =~= front + part + none);
    } else {
        lemma_scroll_bar_is_painted(menu, layout, metrics, top_padding, last, row);
        let rest = all.skip(before.len() as int);
        lemma_paints_within(before, part, none, rest);
        assert(all =~= none + before + rest);
    }
}

/// The mark of the scroll bar takes its share of the bar: as many of the rows as
/// one screen of columns is of all columns, rounded up, and all of them where there
/// are no more columns than rows; and it stands as far down as the first visible
/// column is into the columns that are hidden.
pub proof fn law_scroll_mark_is_in_proportion(layout: MenuLayout)
    requires
        0 < layout.rect.height <= 10,
        layout.visible_columns > 0,
        layout.total_columns <= usize::MAX / 10,
        layout.visible_columns <= usize::MAX / 10,
        layout.first_visible_item <= usize::MAX / 10,
    ensures
        ({
            let height = layout.rect.height as int;
            let columns = if layout.total_columns >= layout.visible_columns {
                layout.total_columns as int
            } else {
                layout.visible_columns as int
            };
            let rows = mark_rows(layout) as int;
            let start = mark_start(layout) as int;
            let hidden = layout.total_columns - layout.visible_columns;
            &&& columns >= height ==> (rows - 1) * columns < height * height && rows * columns
                >= height * height
            &&& columns < height ==> rows == height
            &&& hidden <= 0 ==> start == 0
            &&& hidden > 0 ==> start * hidden <= (height - rows) * layout.first_visible_item < (
            start + 1) * hidden
        }),
{
    let height = layout.rect.height as int;
    let columns = larger(layout.total_columns as int, layout.visible_columns as int);
    let area = height * height;
    assert(0 < area <= 100 && area >= height) by (nonlinear_arith)
        requires
            0 < height <= 10,
            area == height * height,
    ;
    vstd::arithmetic::div_mod::lemma_fundamental_div_mod(area, columns);
    vstd::arithmetic::div_mod::lemma_mod_bound(area, columns);
    let q = area / columns;
    let up = ceil_quotient(area as nat, columns as nat) as int;
    assert((up - 1) * columns < area && up * columns >= area && up >= 1) by (nonlinear_arith)
        requires
            area == columns * q + area % columns,
            0 <= area % columns < columns,
            area > 0,
            up == (if area % columns == 0 {
                q
            } else {
                q + 1
            }),
    ;
    assert(columns >= height ==> up <= height) by (nonlinear_arith)
        requires
            (up - 1) * columns < height * height,
            height > 0,
            columns > 0,
    ;
    assert(columns < height ==> up > height) by (nonlinear_arith)
        requires
            up * columns >= height * height,
            height > 0,
            columns > 0,
    ;
    let rows = mark_rows(layout) as int;
    let hidden = layout.total_columns - layout.visible_columns;
    if hidden > 0 {
        let free = less(height, rows) as int;
        let first = layout.first_visible_item as int;
        assert(0 <= free * first <= 10 * first) by (nonlinear_arith)
            requires
                0 <= free <= 10,
                0 <= first,
        ;
        let product = free * first;
        vstd::arithmetic::div_mod::lemma_fundamental_div_mod(product, hidden);
        vstd::arithmetic::div_mod::lemma_mod_bound(product, hidden);
        let start = product / hidden;
        assert(start * hidden <= product < (start + 1) * hidden) by (nonlinear_arith)
            requires
                product == hidden * start + product % hidden,
                0 <= product % hidden < hidden,
        ;
    }
}

/// A menu in a single row cuts its last item short where it does not fit whole: so
/// much of it is shown as leaves a cell free before the mark, in the face of the
/// item, with dots behind it.
#[verifier::rlimit(40)]
pub proof fn law_row_menu_cuts_its_last_item(
    menu: MenuView,
    layout: MenuLayout,
    metrics: CellMetrics,
    top_padding: usize,
    item: nat,
    at: nat,
)
    requires
        layout.is_single_row,
        layout.rect.width > 4,
        layout.rect.height >= 1,
        layout.rect.column + layout.rect.width < usize::MAX,
        can_be_counted(menu, layout, metrics, top_padding),
        layout.first_visible_item <= item < menu.items.len(),
        at == layout.rect.column + 2 + items_span(
            menu.items,
            layout.first_visible_item as int,
            item as int,
        ),
        at < layout.rect.column + layout.rect.width - 2,
        at + line_width(menu.items[item as int]) > layout.rect.column + layout.rect.width - 2,
    ensures
        ({
            let steps = menu_steps(menu, layout, metrics, top_padding);
            let top = row_edge(menu, layout, 0, metrics, top_padding) as usize;
            let end = (layout.rect.column + layout.rect.width - 2) as nat;
            let face = if menu.selected is Some && menu.selected->0 == item {
                menu.selected_face
            } else {
                menu.menu_face
            };
            &&& paints(
                steps,
                line_steps(
                    truncated(menu.items[item as int], (end - at - 1) as nat),
                    face,
                    at,
                    end,
                    top,
                    metrics,
                ),
            )
            &&& paints(steps, string_steps(end, "…"@, menu.menu_face, metrics, top))
        }),
{
    let none = Seq::<DrawStepView>::empty();
    let first = layout.first_visible_item as nat;
    let start = (layout.rect.column + 2) as nat;
    let top = menu_row_top(layout, 0, metrics, top_padding);
    lemma_row_edges(menu, layout, metrics, top_padding, 0);
    let items = row_items_steps(menu, layout, metrics, top, first, start);
    let steps = menu_steps(menu, layout, metrics, top_padding);
    let front = steps.take(steps.len() - items.len());
    assert(steps =~= front + items + none);
    lemma_row_item_is_cut(menu, layout, metrics, top, first, start, item);
    let end = row_end(layout);
    lemma_paints_within(
        items,
        line_steps(
            truncated(menu.items[item as int], (end - at - 1) as nat),
            item_face(menu, item),
            at,
            end,
            top,
            metrics,
        ),
        front,
        none,
    );
    lemma_paints_within(
        items,
        string_steps(end, "…"@, menu.menu_face, metrics, top),
        front,
        none,
    );
}

/// The item of a row that does not fit whole is cut.
proof fn lemma_row_item_is_cut(
    menu: MenuView,
    layout: MenuLayout,
    metrics: CellMetrics,
    top: usize,
    index: nat,
    column: nat,
    item: nat,
)
    requires
        index <= item < menu.items.len(),
        row_end(layout) + 1 < usize::MAX,
        column + items_span(menu.items, index as int, item as int) < row_end(layout),
        column + items_span(menu.items, index as int, item as int) + line_width(
            menu.items[item as int],
        ) > row_end(layout),
    ensures
        ({
            let all = row_items_steps(menu, layout, metrics, top, index, column);
            let at = column + items_span(menu.items, index as int, item as int);
            let end = row_end(layout);
            &&& paints(
                all,
                line_steps(
                    truncated(menu.items[item as int], (end - at - 1) as nat),
                    item_face(menu, item),
                    at,
                    end,
                    top,
                    metrics,
                ),
            )
            &&& paints(all, string_steps(end, "…"@, menu.menu_face, metrics, top))
        }),
    decreases item - index,
{
    let none = Seq::<DrawStepView>::empty();
    let end = row_end(layout);
    let all = row_items_steps(menu, layout, metrics, top, index, column);
    let at = column + items_span(menu.items, index as int, item as int);
    let cut = line_steps(
        truncated(menu.items[item as int], (end - at - 1) as nat),
        item_face(menu, item),
        at,
        end,
        top,
        metrics,
    );
    let dots = string_steps(end, "…"@, menu.menu_face, metrics, top);
    let more = string_steps(menu_edge(layout), ">"@, menu.menu_face, metrics, top);
    if index == item {
        assert(items_span(menu.items, item as int, item as int) == 0);
        assert(all =~= none + cut + (dots + more));
        assert(all =~= cut + dots + more);
    } else {
        lemma_items_span_front(menu.items, index as int, item as int);
        let own_item = menu.items[index as int];
        let width = shown_width(own_item);
        assert(item_cells(own_item) == width + 1);
        let after = column + width;
        assert(after < end);
        let front = line_steps(own_item, item_face(menu, index), column, end, top, metrics)
            + string_steps(after, " "@, menu.menu_face, metrics, top);
        let next = row_items_steps(menu, layout, metrics, top, index + 1, after + 1);
        lemma_row_item_is_cut(menu, layout, metrics, top, index + 1, after + 1, item);
        lemma_paints_within(next, cut, front, none);
        lemma_paints_within(next, dots, front, none);
        assert(all =~= front + next + none);
    }
}

/// The first rows of a single column paint nothing outside their rows, nor outside
/// the columns of the menu.
proof fn lemma_column_leaves(
    menu: MenuView,
    layout: MenuLayout,
    metrics: CellMetrics,
    top_padding: usize,
    count: nat,
    x: int,
    y: int,
)
    requires
        can_be_counted(menu, layout, metrics, top_padding),
        count <= layout.rect.height,
        y < row_edge(menu, layout, 0, metrics, top_padding) || y >= row_edge(
            menu,
            layout,
            count as int,
            metrics,
            top_padding,
        ) || x < 12 + layout.rect.column * metrics.cell_width || x >= 12 + (layout.rect.column
            + layout.rect.width) * metrics.cell_width,
    ensures
        leaves(single_column_steps(menu, layout, metrics, top_padding, count), x, y),
    decreases count,
{
    if count > 0 {
        let last = (count - 1) as nat;
        let face = item_face(menu, last);
        let top = menu_row_top(layout, last, metrics, top_padding);
        let column = layout.rect.column as nat;
        let end = menu_end(layout);
        let before = single_column_steps(menu, layout, metrics, top_padding, last);
        let ground = seq![segment_step(column, layout.rect.width as nat, face, metrics, top)];
        let line = line_steps(menu.items[last as int], face, column, end, top, metrics);
        lemma_row_edges(menu, layout, metrics, top_padding, last as int);
        lemma_rows_apart(menu, layout, metrics, top_padding, last as int, count as int);
        if last > 0 {
            lemma_rows_apart(menu, layout, metrics, top_padding, 0, last as int);
        }
        lemma_column_leaves(menu, layout, metrics, top_padding, last, x, y);
        lemma_segment(column, layout.rect.width as nat, face, metrics, top, 0, x, y);
        crate::draw::lemma_line_leaves(
            menu.items[last as int],
            face,
            column,
            end,
            top,
            metrics,
            x,
            y,
        );
        lemma_shown_before(before, ground, x, y, Seq::empty(), PaintView::Root { face });
        lemma_shown_before(before + ground, line, x, y, Seq::empty(), PaintView::Root { face });
    }
}

/// The first rows of a menu of several columns paint nothing outside their rows.
proof fn lemma_multi_column_leaves(
    menu: MenuView,
    layout: MenuLayout,
    metrics: CellMetrics,
    top_padding: usize,
    count: nat,
    x: int,
    y: int,
)
    requires
        can_be_counted(menu, layout, metrics, top_padding),
        count <= layout.rect.height,
        y < row_edge(menu, layout, 0, metrics, top_padding) || y >= row_edge(
            menu,
            layout,
            count as int,
            metrics,
            top_padding,
        ),
    ensures
        leaves(multi_column_steps(menu, layout, metrics, top_padding, count), x, y),
    decreases count,
{
    if count > 0 {
        let last = (count - 1) as nat;
        let top = menu_row_top(layout, last, metrics, top_padding);
        let paint = PaintView::Root { face: menu.menu_face };
        let before = multi_column_steps(menu, layout, metrics, top_padding, last);
        let places = places_steps(menu, layout, metrics, top, last, columns_shown(layout));
        let mark = string_steps(
            menu_edge(layout),
            scroll_mark(layout, last),
            menu.menu_face,
            metrics,
            top,
        );
        lemma_row_edges(menu, layout, metrics, top_padding, last as int);
        lemma_rows_apart(menu, layout, metrics, top_padding, last as int, count as int);
        if last > 0 {
            lemma_rows_apart(menu, layout, metrics, top_padding, 0, last as int);
        }
        lemma_multi_column_leaves(menu, layout, metrics, top_padding, last, x, y);
        lemma_places_leave(menu, layout, metrics, top, last, columns_shown(layout), x, y);
        lemma_mark_leaves(
            menu_edge(layout),
            scroll_mark(layout, last),
            menu.menu_face,
            metrics,
            top,
            x,
            y,
        );
        lemma_shown_before(before, places, x, y, Seq::empty(), paint);
        lemma_shown_before(before + places, mark, x, y, Seq::empty(), paint);
    }
}

/// A menu paints nothing above its first row, and nothing below its last, however
/// many items it has.
pub proof fn law_menu_keeps_to_its_rows(
    menu: MenuView,
    layout: MenuLayout,
    metrics: CellMetrics,
    top_padding: usize,
    x: int,
    y: int,
)
    requires
        can_be_counted(menu, layout, metrics, top_padding),
        layout.rect.height >= 1,
        layout.rect.width >= 2,
        y < row_edge(menu, layout, 0, metrics, top_padding) || y >= row_edge(
            menu,
            layout,
            layout.rect.height as int,
            metrics,
            top_padding,
        ),
    ensures
        leaves(menu_steps(menu, layout, metrics, top_padding), x, y),
{
    let paint = PaintView::Root { face: menu.menu_face };
    let height = layout.rect.height as nat;
    let block_top = if menu.style == MenuStyle::Inline {
        row_pixel(layout.rect.row as nat, metrics, top_padding)
    } else {
        layout.top
    };
    let column = layout.rect.column as nat;
    let width = layout.rect.width as nat;
    let block = block_steps(column, width, height, menu.menu_face, metrics, block_top);
    let h = metrics.cell_height as int;
    let r = layout.rect.row as int;
    lemma_row_edges(menu, layout, metrics, top_padding, 0);
    assert((r + 0) * h + height * h == (r + height) * h && 0 * h == 0 && (r + 0) * h == r * h)
        by (nonlinear_arith);
    crate::draw::lemma_block_leaves(
        column,
        width,
        height,
        menu.menu_face,
        metrics,
        block_top,
        x,
        y,
    );
    let rest = menu_steps(menu, layout, metrics, top_padding).skip(block.len() as int);
    assert(menu_steps(menu, layout, metrics, top_padding) =~= block + rest);
    if layout.is_single_row {
        let top = menu_row_top(layout, 0, metrics, top_padding);
        let start = capped((layout.rect.column + 2) as nat) as nat;
        let first = layout.first_visible_item as nat;
        let items = row_items_steps(menu, layout, metrics, top, first, start);
        let mark = string_steps(column, "< "@, menu.menu_face, metrics, top);
        lemma_rows_apart(menu, layout, metrics, top_padding, 0, 1);
        if layout.rect.height > 1 {
            lemma_rows_apart(menu, layout, metrics, top_padding, 1, height as int);
        }
        lemma_row_items_leave(menu, layout, metrics, top, first, start, 0, x, y);
        lemma_mark_leaves(column, "< "@, menu.menu_face, metrics, top, x, y);
        lemma_shown_before(mark, items, x, y, Seq::empty(), paint);
        assert(rest =~= single_row_steps(menu, layout, metrics, top_padding));
    } else if layout.visible_columns == 1 {
        let count = smaller(menu.items.len() as int, height as int) as nat;
        if count < height {
            lemma_rows_apart(menu, layout, metrics, top_padding, count as int, height as int);
        }
        lemma_column_leaves(menu, layout, metrics, top_padding, count, x, y);
        assert(rest =~= single_column_steps(menu, layout, metrics, top_padding, count));
    } else {
        lemma_multi_column_leaves(menu, layout, metrics, top_padding, height, x, y);
        assert(rest =~= multi_column_steps(menu, layout, metrics, top_padding, height));
    }
    lemma_shown_before(block, rest, x, y, Seq::empty(), paint);
}

} // verus!
