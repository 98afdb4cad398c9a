//! Where menus and information boxes stand in the grid.

use vstd::prelude::*;

use crate::app::{InfoState, MenuState, MenuView};
use crate::layout::{bottom_overlay_top, capped_mul, less, overlay_top};
use crate::messages::{Atom, AtomView, Coord, InfoStyle, MenuStyle};
use crate::text::{capped, line_display_width, line_width};

verus! {

/// A block of cells of the grid.
#[derive(Clone, Copy, Debug, PartialEq, Eq, Structural)]
pub struct CellRect {
    pub row: usize,
    pub column: usize,
    pub width: usize,
    pub height: usize,
}

/// How a menu is laid out. `top` is its upper edge in pixels, or zero where it
/// keeps to the rows of the grid.
#[derive(Clone, Copy, Debug, PartialEq, Eq, Structural)]
pub struct MenuLayout {
    pub rect: CellRect,
    pub top: usize,
    pub visible_columns: usize,
    pub total_columns: usize,
    pub rows_per_column: usize,
    pub column_width: usize,
    pub first_visible_item: usize,
    pub is_single_row: bool,
}

/// Where a menu was drawn.
#[derive(Clone, Copy, Debug, PartialEq, Eq, Structural)]
pub struct PopupRect {
    pub rect: CellRect,
    pub top: usize,
}

/// Where an information box is drawn. `top` counts where it hangs on the prompt.
#[derive(Clone, Copy, Debug, PartialEq, Eq, Structural)]
pub struct InfoLayout {
    pub rect: CellRect,
    pub top: usize,
}

/// The smaller of two numbers.
pub open spec fn smaller(a: int, b: int) -> int {
    if a <= b {
        a
    } else {
        b
    }
}

/// The larger of two numbers.
pub open spec fn larger(a: int, b: int) -> int {
    if a >= b {
        a
    } else {
        b
    }
}

/// The quotient, rounded up.
pub open spec fn ceil_quotient(a: nat, b: nat) -> nat {
    if a % b == 0 {
        a / b
    } else {
        a / b + 1
    }
}

/// The smaller of two numbers.
pub(crate) fn min_of(a: usize, b: usize) -> (least: usize)
    ensures
        least == smaller(a as int, b as int),
{
    if a <= b {
        a
    } else {
        b
    }
}

/// The larger of two numbers.
pub(crate) fn max_of(a: usize, b: usize) -> (most: usize)
    ensures
        most == larger(a as int, b as int),
{
    if a >= b {
        a
    } else {
        b
    }
}

/// The quotient, rounded up.
pub(crate) fn div_up(a: usize, b: usize) -> (quotient: usize)
    requires
        b > 0,
    ensures
        quotient == ceil_quotient(a as nat, b as nat),
{
    let whole = a / b;
    if a % b == 0 {
        whole
    } else {
        proof {
            let x = a as int;
            let y = b as int;
            vstd::arithmetic::div_mod::lemma_fundamental_div_mod(x, y);
            vstd::arithmetic::div_mod::lemma_mod_bound(x, y);
            assert(y * (x / y) >= x / y) by (nonlinear_arith)
                requires
                    y >= 1,
                    x / y >= 0,
            ;
        }
        whole + 1
    }
}

/// The width of the widest of some lines.
pub open spec fn widest(lines: Seq<Seq<AtomView>>) -> nat
    decreases lines.len(),
{
    if lines.len() == 0 {
        0
    } else {
        larger(widest(lines.drop_last()) as int, line_width(lines.last()) as int) as nat
    }
}

/// The width of the widest of some lines, up to the largest `usize`.
pub(crate) fn widest_line(lines: &Vec<Vec<Atom>>) -> (width: usize)
    ensures
        width == capped(widest(lines.deep_view())),
{
    let ghost all = lines.deep_view();
    let mut width: usize = 0;
    for i in 0..lines.len()
        invariant
            all == lines.deep_view(),
            width == capped(widest(all.take(i as int))),
    {
        assert(all.take(i + 1).drop_last() =~= all.take(i as int));
        assert(all.take(i + 1).last() == lines@[i as int].deep_view());
        width = max_of(width, line_display_width(lines[i].as_slice()));
    }
    assert(all.take(lines.len() as int) =~= all);
    width
}

/// The row where a box of `height` rows opens at a line: below the line if it
/// fits there, else above it.
pub open spec fn inline_row(anchor_row: usize, height: usize, rows: usize) -> usize {
    if anchor_row + 1 + height <= rows {
        (anchor_row + 1) as usize
    } else {
        less(anchor_row as int, height as int) as usize
    }
}

/// The row where a box of `height` rows opens at a line.
pub fn inline_popup_row(anchor_row: usize, height: usize, rows: usize) -> (row: usize)
    ensures
        row == inline_row(anchor_row, height, rows),
{
    if anchor_row < rows && height <= rows - anchor_row - 1 {
        anchor_row + 1
    } else {
        anchor_row.saturating_sub(height)
    }
}

/// The column where a box of `width` columns stands: at the anchor, or as far
/// right as it fits.
pub open spec fn fitted_column(column: usize, width: usize, cols: usize) -> usize {
    smaller(column as int, less(cols as int, width as int) as int) as usize
}

/// The most rows that a menu may take at a line: ten, and what lies above the
/// line or below it, whichever is more.
pub open spec fn menu_height_limit(anchor_line: usize, rows: usize) -> nat {
    smaller(
        smaller(rows as int, 10),
        larger(anchor_line as int, less(rows as int, anchor_line + 1) as int),
    ) as nat
}

/// The first of the `visible_columns` columns that show the selected item.
pub open spec fn first_column(
    selected: Option<usize>,
    rows_per_column: usize,
    visible_columns: usize,
    total_columns: usize,
) -> usize {
    match selected {
        Some(item) => if rows_per_column == 0 || visible_columns >= total_columns || item
            / rows_per_column < visible_columns {
            0
        } else {
            smaller(
                item / rows_per_column + 1 - visible_columns,
                total_columns - visible_columns,
            ) as usize
        },
        None => 0,
    }
}

/// The first column that a menu of several columns shows.
pub fn menu_first_visible_column(
    menu: &MenuState,
    rows_per_column: usize,
    visible_columns: usize,
    total_columns: usize,
) -> (first: usize)
    ensures
        first == first_column(menu.selected, rows_per_column, visible_columns, total_columns),
{
    let selected = match menu.selected {
        Some(selected) => selected,
        None => return 0,
    };
    if rows_per_column == 0 || visible_columns >= total_columns {
        return 0;
    }
    let column = selected / rows_per_column;
    if column < visible_columns {
        0
    } else {
        let past = column - visible_columns;
        if past < total_columns - visible_columns {
            past + 1
        } else {
            total_columns - visible_columns
        }
    }
}

/// The cells that an item takes in a row of items, with the blank behind it.
pub open spec fn item_cells(item: Seq<AtomView>) -> nat {
    capped(line_width(item) + 1) as nat
}

/// Rows of items, filled one after the other: the first item of the row that
/// the last of the first `n` items came into, and the cells used in that row. An
/// item that does not fit behind those before it begins a row.
pub open spec fn row_of_items(items: Seq<Seq<AtomView>>, room: nat, n: nat) -> (nat, nat)
    decreases n,
{
    if n == 0 {
        (0, 0)
    } else {
        let (first, used) = row_of_items(items, room, (n - 1) as nat);
        let width = item_cells(items[n - 1]);
        if used + width > room {
            ((n - 1) as nat, width)
        } else {
            (first, used + width)
        }
    }
}

/// The first item of the row that shows the selected item.
pub open spec fn first_search_item(
    items: Seq<Seq<AtomView>>,
    selected: Option<usize>,
    room: usize,
) -> nat {
    match selected {
        Some(item) => if room == 0 {
            0
        } else {
            row_of_items(
                items,
                room as nat,
                (smaller(item as int, less(items.len() as int, 1) as int) + 1) as nat,
            ).0
        },
        None => 0,
    }
}

/// The first item of the row that shows the selected item.
pub fn menu_first_search_item(menu: &MenuState, available_width: usize) -> (first: usize)
    requires
        menu.selected is Some && available_width > 0 ==> menu.items@.len() > 0,
    ensures
        first == first_search_item(menu.items.deep_view(), menu.selected, available_width),
{
    let selected = match menu.selected {
        Some(selected) => selected,
        None => return 0,
    };
    if available_width == 0 {
        return 0;
    }
    let count = menu.items.len();
    let last = min_of(selected, count.saturating_sub(1));
    let ghost all = menu.items.deep_view();
    let mut first: usize = 0;
    let mut used: usize = 0;
    let mut index: usize = 0;
    while index <= last
        invariant
            all == menu.items.deep_view(),
            count == menu.items@.len(),
            last < count,
            index <= last + 1,
            (first as nat, used as nat) == row_of_items(all, available_width as nat, index as nat),
        decreases last + 1 - index,
    {
        assert(all[index as int] == menu.items@[index as int].deep_view());
        let width = line_display_width(menu.items[index].as_slice()).saturating_add(1);
        if used > available_width || width > available_width - used {
            first = index;
            used = width;
        } else {
            used = used + width;
        }
        index = index + 1;
    }
    first
}

/// The cells that the longest item of a menu takes, at least one.
pub open spec fn longest_item(items: Seq<Seq<AtomView>>) -> nat {
    larger(widest(items) as int, 1) as nat
}

/// How a menu at a line of the text is laid out.
pub open spec fn inline_menu(
    item_count: nat,
    longest: nat,
    anchor: Coord,
    cols: usize,
    rows: usize,
) -> Option<MenuLayout> {
    let width = smaller((longest + 1) as int, cols as int) as usize;
    let height = smaller(
        larger(item_count as int, 1),
        menu_height_limit(anchor.line, rows) as int,
    ) as usize;
    if width == 0 || height == 0 {
        None
    } else {
        Some(
            MenuLayout {
                rect: CellRect {
                    row: inline_row(anchor.line, height, rows),
                    column: fitted_column(anchor.column, width, cols),
                    width,
                    height,
                },
                top: 0,
                visible_columns: 1,
                total_columns: ceil_quotient(item_count, height as nat) as usize,
                rows_per_column: height,
                column_width: width,
                first_visible_item: 0,
                is_single_row: false,
            },
        )
    }
}

/// How a menu in the right half of the status line is laid out: it needs room
/// for a mark at either end and one item.
pub open spec fn search_menu(
    menu: MenuView,
    cols: usize,
    rows: usize,
    window_height: usize,
    cell_height: usize,
) -> Option<MenuLayout> {
    let width = (cols - cols / 2) as usize;
    if width < 4 {
        None
    } else {
        Some(
            MenuLayout {
                rect: CellRect {
                    row: less(rows as int, 1) as usize,
                    column: cols / 2,
                    width,
                    height: 1,
                },
                top: overlay_top(window_height, cell_height, 1),
                visible_columns: 0,
                total_columns: menu.items.len() as usize,
                rows_per_column: 1,
                column_width: (width - 3) as usize,
                first_visible_item: first_search_item(
                    menu.items,
                    menu.selected,
                    (width - 3) as usize,
                ) as usize,
                is_single_row: true,
            },
        )
    }
}

/// How a menu above the prompt is laid out: in as many columns as fit beside
/// the scroll bar, and no more rows than they need.
pub open spec fn prompt_menu(
    item_count: nat,
    longest: nat,
    selected: Option<usize>,
    cols: usize,
    rows: usize,
    window_height: usize,
    cell_height: usize,
) -> Option<MenuLayout> {
    let visible = larger((cols - 1) / ((longest + 1) as int), 1) as usize;
    let height = smaller(
        ceil_quotient(item_count, visible as nat) as int,
        menu_height_limit(rows, rows) as int,
    ) as usize;
    let total = ceil_quotient(item_count, height as nat) as usize;
    if cols <= 1 || height == 0 {
        None
    } else {
        Some(
            MenuLayout {
                rect: CellRect {
                    row: less(rows as int, height as int) as usize,
                    column: 0,
                    width: cols,
                    height,
                },
                top: overlay_top(window_height, cell_height, (height + 1) as nat),
                visible_columns: visible,
                total_columns: total,
                rows_per_column: height,
                column_width: larger((cols - 1) / visible as int, 1) as usize,
                first_visible_item: first_column(selected, height, visible, total),
                is_single_row: false,
            },
        )
    }
}

/// How a menu is laid out; nothing where there is no room for it.
pub open spec fn menu_place(
    menu: MenuView,
    cols: usize,
    rows: usize,
    window_height: usize,
    cell_height: usize,
) -> Option<MenuLayout> {
    match menu.style {
        MenuStyle::Inline => inline_menu(
            menu.items.len(),
            longest_item(menu.items),
            menu.anchor,
            cols,
            rows,
        ),
        MenuStyle::Search => search_menu(menu, cols, rows, window_height, cell_height),
        MenuStyle::Prompt => prompt_menu(
            menu.items.len(),
            longest_item(menu.items),
            menu.selected,
            cols,
            rows,
            window_height,
            cell_height,
        ),
    }
}

/// A divisor that does not fit in a `usize` is as good as the largest.
proof fn lemma_capped_divisor(a: int, b: nat)
    requires
        0 <= a < usize::MAX,
        b > 0,
    ensures
        a / (capped(b) as int) == a / (b as int),
{
    if b > usize::MAX {
        vstd::arithmetic::div_mod::lemma_basic_div(a, b as int);
        vstd::arithmetic::div_mod::lemma_basic_div(a, usize::MAX as int);
    }
}

/// A quotient, rounded up, is no more than what was divided.
proof fn lemma_ceil_quotient_fits(a: nat, b: nat)
    requires
        b > 0,
    ensures
        ceil_quotient(a, b) <= a,
{
    let x = a as int;
    let y = b as int;
    vstd::arithmetic::div_mod::lemma_fundamental_div_mod(x, y);
    vstd::arithmetic::div_mod::lemma_mod_bound(x, y);
    assert(y * (x / y) >= x / y) by (nonlinear_arith)
        requires
            y >= 1,
            x / y >= 0,
    ;
}

/// How a menu is laid out; nothing where there is no room for it.
pub fn menu_layout(
    menu: &MenuState,
    cols: usize,
    rows: usize,
    window_height: usize,
    cell_height: usize,
) -> (layout: Option<MenuLayout>)
    requires
        menu.style == MenuStyle::Search && menu.selected is Some && cols - cols / 2 >= 4
            ==> menu.items@.len() > 0,
    ensures
        layout == menu_place(menu.deep_view(), cols, rows, window_height, cell_height),
{
    let item_count = menu.items.len();
    let longest = max_of(widest_line(&menu.items), 1);
    assert(longest == capped(longest_item(menu.deep_view().items)));
    match menu.style {
        MenuStyle::Inline => {
            let width = min_of(longest.saturating_add(1), cols);
            let anchor = menu.anchor;
            let around = max_of(
                anchor.line,
                rows.saturating_sub(anchor.line).saturating_sub(1),
            );
            let height = min_of(max_of(item_count, 1), min_of(min_of(rows, 10), around));
            if width == 0 || height == 0 {
                return None;
            }
            proof {
                lemma_ceil_quotient_fits(item_count as nat, height as nat);
            }
            Some(
                MenuLayout {
                    rect: CellRect {
                        row: inline_popup_row(anchor.line, height, rows),
                        column: min_of(anchor.column, cols.saturating_sub(width)),
                        width,
                        height,
                    },
                    top: 0,
                    visible_columns: 1,
                    total_columns: div_up(item_count, height),
                    rows_per_column: height,
                    column_width: width,
                    first_visible_item: 0,
                    is_single_row: false,
                },
            )
        },
        MenuStyle::Search => {
            let width = cols - cols / 2;
            if width < 4 {
                return None;
            }
            Some(
                MenuLayout {
                    rect: CellRect {
                        row: rows.saturating_sub(1),
                        column: cols / 2,
                        width,
                        height: 1,
                    },
                    top: bottom_overlay_top(window_height, cell_height, 1),
                    visible_columns: 0,
                    total_columns: item_count,
                    rows_per_column: 1,
                    column_width: width - 3,
                    first_visible_item: menu_first_search_item(menu, width - 3),
                    is_single_row: true,
                },
            )
        },
        MenuStyle::Prompt => {
            if cols <= 1 {
                return None;
            }
            proof {
                lemma_capped_divisor(cols - 1, longest_item(menu.deep_view().items) + 1);
            }
            let visible = max_of((cols - 1) / longest.saturating_add(1), 1);
            let height = min_of(div_up(item_count, visible), min_of(rows, 10));
            if height == 0 {
                return None;
            }
            let total = div_up(item_count, height);
            proof {
                lemma_ceil_quotient_fits(item_count as nat, height as nat);
            }
            Some(
                MenuLayout {
                    rect: CellRect {
                        row: rows.saturating_sub(height),
                        column: 0,
                        width: cols,
                        height,
                    },
                    top: bottom_overlay_top(window_height, cell_height, height + 1),
                    visible_columns: visible,
                    total_columns: total,
                    rows_per_column: height,
                    column_width: max_of((cols - 1) / visible, 1),
                    first_visible_item: menu_first_visible_column(menu, height, visible, total),
                    is_single_row: false,
                },
            )
        },
    }
}

/// A box in the middle of the grid.
pub open spec fn centered(cols: usize, rows: usize, width: usize, height: usize) -> InfoLayout {
    InfoLayout {
        rect: CellRect {
            row: (less(rows as int, height as int) / 2) as usize,
            column: (less(cols as int, width as int) / 2) as usize,
            width,
            height,
        },
        top: 0,
    }
}

/// A box in the middle of the grid.
pub fn centered_rect(cols: usize, rows: usize, width: usize, height: usize) -> (layout: InfoLayout)
    ensures
        layout == centered(cols, rows, width, height),
{
    InfoLayout {
        rect: CellRect {
            row: rows.saturating_sub(height) / 2,
            column: cols.saturating_sub(width) / 2,
            width,
            height,
        },
        top: 0,
    }
}

/// Where an information box of a given size stands.
pub open spec fn info_place(
    style: InfoStyle,
    anchor: Coord,
    menu: Option<PopupRect>,
    cols: usize,
    rows: usize,
    width: usize,
    height: usize,
    window_height: usize,
    cell_height: usize,
) -> InfoLayout {
    match style {
        InfoStyle::InlineAbove => InfoLayout {
            rect: CellRect {
                row: smaller(
                    less(anchor.line as int, height as int) as int,
                    less(rows as int, height as int) as int,
                ) as usize,
                column: fitted_column(anchor.column, width, cols),
                width,
                height,
            },
            top: 0,
        },
        InfoStyle::InlineBelow | InfoStyle::Inline => InfoLayout {
            rect: CellRect {
                row: inline_row(anchor.line, height, rows),
                column: fitted_column(anchor.column, width, cols),
                width,
                height,
            },
            top: 0,
        },
        InfoStyle::MenuDoc => match menu {
            Some(menu) => InfoLayout {
                rect: CellRect {
                    row: smaller(
                        menu.rect.row as int,
                        less(rows as int, height as int) as int,
                    ) as usize,
                    column: smaller(
                        menu.rect.column + menu.rect.width,
                        less(cols as int, width as int) as int,
                    ) as usize,
                    width,
                    height,
                },
                top: 0,
            },
            None => centered(cols, rows, width, height),
        },
        InfoStyle::Modal => centered(cols, rows, width, height),
        InfoStyle::Prompt => InfoLayout {
            rect: CellRect {
                row: match menu {
                    Some(menu) => less(menu.rect.row as int, height as int) as usize,
                    None => less(rows as int, height as int) as usize,
                },
                column: less(cols as int, width as int) as usize,
                width,
                height,
            },
            top: match menu {
                Some(menu) => less(menu.top as int, height * cell_height) as usize,
                None => overlay_top(window_height, cell_height, (height + 1) as nat),
            },
        },
    }
}

/// Where an information box of a given size stands.
pub fn info_rect_with_window(
    info: &InfoState,
    menu_rect: Option<PopupRect>,
    cols: usize,
    rows: usize,
    width: usize,
    height: usize,
    window_height: usize,
    cell_height: usize,
) -> (layout: InfoLayout)
    ensures
        layout == info_place(
            info.style,
            info.anchor,
            menu_rect,
            cols,
            rows,
            width,
            height,
            window_height,
            cell_height,
        ),
{
    let anchor = info.anchor;
    match info.style {
        InfoStyle::InlineAbove => {
            let rect = CellRect {
                row: min_of(anchor.line.saturating_sub(height), rows.saturating_sub(height)),
                column: min_of(anchor.column, cols.saturating_sub(width)),
                width,
                height,
            };
            InfoLayout { rect, top: 0 }
        },
        InfoStyle::InlineBelow | InfoStyle::Inline => {
            let rect = CellRect {
                row: inline_popup_row(anchor.line, height, rows),
                column: min_of(anchor.column, cols.saturating_sub(width)),
                width,
                height,
            };
            InfoLayout { rect, top: 0 }
        },
        InfoStyle::MenuDoc => {
            match menu_rect {
                Some(menu) => {
                    let right = menu.rect.column.saturating_add(menu.rect.width);
                    let rect = CellRect {
                        row: min_of(menu.rect.row, rows.saturating_sub(height)),
                        column: min_of(right, cols.saturating_sub(width)),
                        width,
                        height,
                    };
                    InfoLayout { rect, top: 0 }
                },
                None => centered_rect(cols, rows, width, height),
            }
        },
        InfoStyle::Modal => centered_rect(cols, rows, width, height),
        InfoStyle::Prompt => {
            let row = match menu_rect {
                Some(menu) => menu.rect.row.saturating_sub(height),
                None => rows.saturating_sub(height),
            };
            let top = match menu_rect {
                Some(menu) => menu.top.saturating_sub(capped_mul(height, cell_height)),
                None => {
                    proof {
                        lemma_rows_above(window_height, cell_height, height);
                    }
                    bottom_overlay_top(window_height, cell_height, height.saturating_add(1))
                },
            };
            let rect = CellRect { row, column: cols.saturating_sub(width), width, height };
            InfoLayout { rect, top }
        },
    }
}

/// Too many rows to count stand at the upper edge, as do all that do not fit.
proof fn lemma_rows_above(window_height: usize, cell_height: usize, height: usize)
    ensures
        overlay_top(window_height, cell_height, capped((height + 1) as nat) as nat) == overlay_top(
            window_height,
            cell_height,
            (height + 1) as nat,
        ),
{
    if height == usize::MAX && cell_height > 0 {
        assert(cell_height * usize::MAX >= usize::MAX) by (nonlinear_arith)
            requires
                cell_height >= 1,
        ;
        assert(cell_height * (height + 1) >= usize::MAX) by (nonlinear_arith)
            requires
                cell_height >= 1,
                height == usize::MAX,
        ;
    } else if height == usize::MAX {
        assert(cell_height * usize::MAX == 0) by (nonlinear_arith)
            requires
                cell_height == 0,
        ;
        assert(cell_height * (height + 1) == 0) by (nonlinear_arith)
            requires
                cell_height == 0,
        ;
    }
}

/// What a quotient, rounded up, says.
proof fn lemma_ceil_quotient_covers(a: nat, b: nat)
    requires
        b > 0,
    ensures
        ceil_quotient(a, b) * b >= a,
        forall|k: nat| k < a ==> #[trigger] (k / b) < ceil_quotient(a, b),
{
    let x = a as int;
    let y = b as int;
    let q = ceil_quotient(a, b) as int;
    vstd::arithmetic::div_mod::lemma_fundamental_div_mod(x, y);
    vstd::arithmetic::div_mod::lemma_mod_bound(x, y);
    assert(q * y >= x) by (nonlinear_arith)
        requires
            x == y * (x / y) + x % y,
            0 <= x % y < y,
            q == (if x % y == 0 {
                x / y
            } else {
                x / y + 1
            }),
    ;
    assert forall|k: nat| k < a implies #[trigger] (k / b) < ceil_quotient(a, b) by {
        let z = k as int;
        vstd::arithmetic::div_mod::lemma_fundamental_div_mod(z, y);
        vstd::arithmetic::div_mod::lemma_mod_bound(z, y);
        assert(z / y < q) by (nonlinear_arith)
            requires
                z == y * (z / y) + z % y,
                0 <= z % y < y,
                z < x,
                q * y >= x,
        ;
    }
}

/// A menu stands inside the grid. An inline menu does where its line is one of
/// the grid's, or the one right below.
pub proof fn law_menu_stays_in_the_grid(
    menu: MenuView,
    cols: usize,
    rows: usize,
    window_height: usize,
    cell_height: usize,
)
    requires
        rows > 0,
        menu.style == MenuStyle::Inline ==> menu.anchor.line <= rows,
    ensures
        match menu_place(menu, cols, rows, window_height, cell_height) {
            Some(layout) => {
                &&& layout.rect.column + layout.rect.width <= cols
                &&& layout.rect.row + layout.rect.height <= rows
                &&& layout.rect.height >= 1
                &&& layout.rect.height <= 10
            },
            None => true,
        },
{
}

/// An inline menu leaves the line free that it opens at.
pub proof fn law_inline_menu_leaves_its_line_free(
    menu: MenuView,
    cols: usize,
    rows: usize,
    window_height: usize,
    cell_height: usize,
)
    requires
        menu.style == MenuStyle::Inline,
        menu.anchor.line < rows,
    ensures
        match menu_place(menu, cols, rows, window_height, cell_height) {
            Some(layout) => layout.rect.row > menu.anchor.line || layout.rect.row
                + layout.rect.height <= menu.anchor.line,
            None => true,
        },
{
}

/// The columns of a menu above the prompt are chosen so that the one that the
/// selected item stands in is among those from the first visible one on, as many
/// as are visible. Which items are then drawn is another matter: a menu of one
/// visible column is drawn from its first item on.
pub proof fn law_prompt_menu_chooses_the_selected_column(
    menu: MenuView,
    cols: usize,
    rows: usize,
    window_height: usize,
    cell_height: usize,
)
    requires
        menu.style == MenuStyle::Prompt,
        menu.items.len() <= usize::MAX,
        menu.selected is Some,
        menu.selected->0 < menu.items.len(),
    ensures
        match menu_place(menu, cols, rows, window_height, cell_height) {
            Some(layout) => {
                let column = menu.selected->0 / layout.rows_per_column;
                &&& layout.first_visible_item <= column < layout.first_visible_item
                    + layout.visible_columns
                &&& column < layout.total_columns
            },
            None => true,
        },
{
    if let Some(layout) = menu_place(menu, cols, rows, window_height, cell_height) {
        let height = layout.rows_per_column as nat;
        lemma_ceil_quotient_fits(menu.items.len(), height);
        lemma_ceil_quotient_covers(menu.items.len(), height);
        let item = menu.selected->0 as nat;
        assert(item / height < ceil_quotient(menu.items.len(), height));
    }
}

/// The columns of a menu above the prompt stand beside the scroll bar, and hold
/// every item.
pub proof fn law_prompt_menu_columns_fit(
    menu: MenuView,
    cols: usize,
    rows: usize,
    window_height: usize,
    cell_height: usize,
)
    requires
        menu.style == MenuStyle::Prompt,
        menu.items.len() <= usize::MAX,
    ensures
        match menu_place(menu, cols, rows, window_height, cell_height) {
            Some(layout) => {
                &&& layout.visible_columns * layout.column_width < cols
                &&& layout.visible_columns > 1 ==> longest_item(menu.items) + 1
                    <= layout.column_width
                &&& layout.total_columns * layout.rows_per_column >= menu.items.len()
            },
            None => true,
        },
{
    if let Some(layout) = menu_place(menu, cols, rows, window_height, cell_height) {
        let room = cols - 1;
        let cell = (longest_item(menu.items) + 1) as int;
        let visible = layout.visible_columns as int;
        vstd::arithmetic::div_mod::lemma_fundamental_div_mod(room, cell);
        vstd::arithmetic::div_mod::lemma_mod_bound(room, cell);
        assert(visible <= room && (visible > 1 ==> visible * cell <= room)) by (nonlinear_arith)
            requires
                room >= 1,
                cell >= 1,
                room == cell * (room / cell) + room % cell,
                0 <= room % cell,
                visible == (if room / cell >= 1 {
                    room / cell
                } else {
                    1
                }),
        ;
        vstd::arithmetic::div_mod::lemma_fundamental_div_mod(room, visible);
        vstd::arithmetic::div_mod::lemma_mod_bound(room, visible);
        let width = layout.column_width as int;
        assert(room / visible >= 1) by (nonlinear_arith)
            requires
                room == visible * (room / visible) + room % visible,
                0 <= room % visible < visible,
                visible <= room,
                visible >= 1,
        ;
        vstd::arithmetic::div_mod::lemma_div_is_ordered_by_denominator(room, 1, visible);
        assert(width == room / visible);
        assert(visible * width <= room) by (nonlinear_arith)
            requires
                room == visible * (room / visible) + room % visible,
                0 <= room % visible,
                width == room / visible,
        ;
        if visible > 1 {
            assert(cell <= room / visible) by (nonlinear_arith)
                requires
                    visible >= 1,
                    visible * cell <= room,
                    room == visible * (room / visible) + room % visible,
                    0 <= room % visible < visible,
            ;
        }
        lemma_ceil_quotient_fits(menu.items.len(), layout.rows_per_column as nat);
        lemma_ceil_quotient_covers(menu.items.len(), layout.rows_per_column as nat);
    }
}

/// A menu above the prompt ends one row above the lower border, whatever the
/// height of a cell.
pub proof fn law_prompt_menu_stands_on_the_prompt(
    menu: MenuView,
    cols: usize,
    rows: usize,
    window_height: usize,
    cell_height: usize,
)
    requires
        menu.style == MenuStyle::Prompt,
        menu_place(menu, cols, rows, window_height, cell_height) is Some,
        crate::layout::PADDING + cell_height * (menu_place(
            menu,
            cols,
            rows,
            window_height,
            cell_height,
        )->0.rect.height + 1) <= window_height,
    ensures
        ({
            let layout = menu_place(menu, cols, rows, window_height, cell_height)->0;
            layout.top + cell_height * (layout.rect.height + 1) + crate::layout::PADDING
                == window_height
        }),
{
    let layout = menu_place(menu, cols, rows, window_height, cell_height)->0;
    crate::layout::law_overlay_stands_on_the_lower_border(
        window_height,
        cell_height,
        (layout.rect.height + 1) as nat,
    );
}

/// The cells that the items from `first` up to `end` take.
pub open spec fn items_span(items: Seq<Seq<AtomView>>, first: int, end: int) -> nat
    decreases end - first,
{
    if end <= first {
        0
    } else {
        items_span(items, first, end - 1) + item_cells(items[end - 1])
    }
}

/// A row of items holds what fits, and begins where the row before was full.
proof fn lemma_row_of_items(items: Seq<Seq<AtomView>>, room: nat, n: nat)
    ensures
        ({
            let (first, used) = row_of_items(items, room, n);
            &&& first <= n
            &&& n > 0 ==> first < n
            &&& used == items_span(items, first as int, n as int)
            &&& used > room ==> first + 1 == n
        }),
    decreases n,
{
    if n > 0 {
        lemma_row_of_items(items, room, (n - 1) as nat);
        let (first, used) = row_of_items(items, room, (n - 1) as nat);
        let width = item_cells(items[n - 1]);
        if used + width > room {
            assert(items_span(items, n - 1, n - 1) == 0);
            assert(items_span(items, n - 1, n as int) == width);
        } else {
            assert(items_span(items, first as int, n as int) == items_span(
                items,
                first as int,
                n - 1,
            ) + width);
        }
    }
}

/// The first item of a search menu's row is chosen by the selected item: it is
/// that item or one before it, and what stands from there to that item fits in
/// the row, unless the item alone is too long.
pub proof fn law_search_menu_begins_by_the_selected_item(
    items: Seq<Seq<AtomView>>,
    selected: usize,
    room: usize,
)
    requires
        selected < items.len(),
        room > 0,
    ensures
        ({
            let first = first_search_item(items, Some(selected), room);
            &&& first <= selected
            &&& items_span(items, first as int, selected + 1) <= room || first == selected
        }),
{
    lemma_row_of_items(items, room as nat, (selected + 1) as nat);
}

/// An information box no larger than the grid stands inside it. An inline box
/// does where its line is one of the grid's, or the one right below.
pub proof fn law_info_box_stays_in_the_grid(
    style: InfoStyle,
    anchor: Coord,
    menu: Option<PopupRect>,
    cols: usize,
    rows: usize,
    width: usize,
    height: usize,
    window_height: usize,
    cell_height: usize,
)
    requires
        width <= cols,
        height <= rows,
        style == InfoStyle::Inline || style == InfoStyle::InlineBelow ==> anchor.line <= rows,
        menu is Some ==> menu->0.rect.row <= rows,
    ensures
        ({
            let place = info_place(
                style,
                anchor,
                menu,
                cols,
                rows,
                width,
                height,
                window_height,
                cell_height,
            );
            &&& place.rect.column + place.rect.width <= cols
            &&& place.rect.row + place.rect.height <= rows
            &&& place.rect.width == width
            &&& place.rect.height == height
        }),
{
}

/// Information on the prompt stands above the menu, in rows and in pixels, if
/// there is room for it.
pub proof fn law_prompt_info_stands_above_the_menu(
    anchor: Coord,
    menu: PopupRect,
    cols: usize,
    rows: usize,
    width: usize,
    height: usize,
    window_height: usize,
    cell_height: usize,
)
    ensures
        ({
            let place = info_place(
                InfoStyle::Prompt,
                anchor,
                Some(menu),
                cols,
                rows,
                width,
                height,
                window_height,
                cell_height,
            );
            &&& height <= menu.rect.row ==> place.rect.row + height == menu.rect.row
            &&& height * cell_height <= menu.top ==> place.top + height * cell_height == menu.top
        }),
{
    assert(height * cell_height >= 0) by (nonlinear_arith);
}

/// The widest of some lines is as wide as the widest: no line is wider, and where
/// there is a line at all, one is as wide.
pub proof fn law_widest_line_is_the_widest(lines: Seq<Seq<AtomView>>, i: int) -> (k: int)
    requires
        0 <= i < lines.len(),
    ensures
        line_width(lines[i]) <= widest(lines),
        0 <= k < lines.len(),
        line_width(lines[k]) == widest(lines),
    decreases lines.len(),
{
    let shorter = lines.drop_last();
    if shorter.len() == 0 {
        assert(widest(shorter) == 0);
        lines.len() - 1
    } else {
        let j = if i < shorter.len() {
            i
        } else {
            0
        };
        let k = law_widest_line_is_the_widest(shorter, j);
        assert(shorter[k] == lines[k]);
        assert(shorter[j] == lines[j]);
        if line_width(lines.last()) >= widest(shorter) {
            lines.len() - 1
        } else {
            k
        }
    }
}

/// A box at a line opens right below it, where it fits there, and otherwise right
/// above it, where it fits there.
pub proof fn law_inline_box_opens_at_its_line(anchor_row: usize, height: usize, rows: usize)
    ensures
        anchor_row + 1 + height <= rows ==> inline_row(anchor_row, height, rows) == anchor_row + 1,
        anchor_row + 1 + height > rows && height <= anchor_row ==> inline_row(
            anchor_row,
            height,
            rows,
        ) + height == anchor_row,
        anchor_row + 1 + height > rows && height > anchor_row ==> inline_row(
            anchor_row,
            height,
            rows,
        ) == 0,
{
}

/// A box at a column stands at that column, where it fits there, and otherwise at
/// the right edge.
pub proof fn law_inline_box_stands_at_its_column(column: usize, width: usize, cols: usize)
    requires
        width <= cols,
    ensures
        column + width <= cols ==> fitted_column(column, width, cols) == column,
        column + width > cols ==> fitted_column(column, width, cols) + width == cols,
{
}

/// An inline menu opens at its line and column, is wide enough for each item that
/// fits in the grid with a blank behind it, and no wider than its longest item
/// needs; and it has a row for every item, up to ten, where there are as many rows
/// above or below its line.
pub proof fn law_inline_menu_holds_its_items(
    menu: MenuView,
    cols: usize,
    rows: usize,
    window_height: usize,
    cell_height: usize,
    i: int,
)
    requires
        menu.style == MenuStyle::Inline,
        0 <= i < menu.items.len(),
        menu.items.len() <= usize::MAX,
        menu.anchor.line < rows,
        cols > 0,
        rows > 1,
    ensures
        menu_place(menu, cols, rows, window_height, cell_height) matches Some(layout) && ({
            let rect = layout.rect;
            let above = menu.anchor.line as int;
            let below = rows - menu.anchor.line - 1;
            let most = if above >= below {
                above
            } else {
                below
            };
            &&& line_width(menu.items[i]) + 1 <= cols ==> line_width(menu.items[i]) + 1
                <= rect.width
            &&& rect.width <= 2 || exists|k: int|
                0 <= k < menu.items.len() && rect.width <= line_width(#[trigger] menu.items[k]) + 1
            &&& menu.items.len() <= 10 && menu.items.len() <= most ==> rect.height
                == menu.items.len()
            &&& menu.items.len() > 10 && 10 <= most ==> rect.height == 10
            &&& menu.items.len() > most && most < 10 ==> rect.height == most
            &&& rect.row == inline_row(menu.anchor.line, rect.height, rows)
            &&& rect.column == fitted_column(menu.anchor.column, rect.width, cols)
            &&& layout.column_width == rect.width
            &&& layout.rows_per_column == rect.height
            &&& !layout.is_single_row
        }),
{
    let k = law_widest_line_is_the_widest(menu.items, i);
    assert(line_width(menu.items[k]) == widest(menu.items));
}

/// A menu in the status line takes the right half of it.
pub proof fn law_search_menu_takes_the_right_half(
    menu: MenuView,
    cols: usize,
    rows: usize,
    window_height: usize,
    cell_height: usize,
)
    requires
        menu.style == MenuStyle::Search,
    ensures
        menu_place(menu, cols, rows, window_height, cell_height) is None <==> cols - cols / 2 < 4,
        menu_place(menu, cols, rows, window_height, cell_height) matches Some(layout) ==> {
            let rect = layout.rect;
            &&& rect.column + rect.width == cols
            &&& rect.column == rect.width || rect.column + 1 == rect.width
            &&& rect.height == 1
            &&& rows > 0 ==> rect.row + 1 == rows
            &&& 12 + cell_height <= window_height ==> layout.top + cell_height + 12
                == window_height
            &&& layout.column_width + 3 == rect.width
            &&& layout.is_single_row
        },
{
    assert(cell_height * 1 == cell_height);
}

/// A menu above the prompt is as wide as the grid and stands at its lower end. It
/// has as many columns as fit, and as few rows as hold its items in them, up to
/// ten.
pub proof fn law_prompt_menu_uses_its_room(
    menu: MenuView,
    cols: usize,
    rows: usize,
    window_height: usize,
    cell_height: usize,
)
    requires
        menu.style == MenuStyle::Prompt,
        0 < menu.items.len() <= usize::MAX,
        cols > 1,
        rows > 0,
    ensures
        menu_place(menu, cols, rows, window_height, cell_height) matches Some(layout) && ({
            let rect = layout.rect;
            let cell = longest_item(menu.items) + 1;
            let most: int = if rows < 10 {
                rows as int
            } else {
                10
            };
            &&& rect.column == 0
            &&& rect.width == cols
            &&& rect.row + rect.height == rows
            &&& (layout.visible_columns + 1) * cell > cols - 1
            &&& layout.visible_columns == 1 || layout.visible_columns * cell <= cols - 1
            &&& 1 <= rect.height <= most
            &&& rect.height < most ==> rect.height * layout.visible_columns >= menu.items.len()
            &&& (rect.height - 1) * layout.visible_columns < menu.items.len()
            &&& layout.rows_per_column == rect.height
            &&& !layout.is_single_row
        }),
{
    let room = cols - 1;
    let cell = (longest_item(menu.items) + 1) as int;
    let visible = larger(room / cell, 1);
    vstd::arithmetic::div_mod::lemma_fundamental_div_mod(room, cell);
    vstd::arithmetic::div_mod::lemma_mod_bound(room, cell);
    let q = room / cell;
    assert((q + 1) * cell > room && q * cell <= room && q >= 0 && q <= room) by (nonlinear_arith)
        requires
            room == cell * q + room % cell,
            0 <= room % cell < cell,
            cell >= 1,
            room >= 1,
            q == room / cell,
    ;
    assert(q == 0 ==> 2 * cell > room) by (nonlinear_arith)
        requires
            (q + 1) * cell > room,
            cell >= 1,
    ;
    let count = menu.items.len() as int;
    let needed = ceil_quotient(menu.items.len(), visible as nat) as int;
    vstd::arithmetic::div_mod::lemma_fundamental_div_mod(count, visible);
    vstd::arithmetic::div_mod::lemma_mod_bound(count, visible);
    lemma_ceil_quotient_fits(menu.items.len(), visible as nat);
    let part = count / visible;
    assert(needed * visible >= count && (needed - 1) * visible < count && needed >= 1)
        by (nonlinear_arith)
        requires
            count == visible * part + count % visible,
            0 <= count % visible < visible,
            count >= 1,
            needed == (if count % visible == 0 {
                part
            } else {
                part + 1
            }),
    ;
    let height = smaller(needed, menu_height_limit(rows, rows) as int);
    assert((height - 1) * visible <= (needed - 1) * visible) by (nonlinear_arith)
        requires
            height <= needed,
            visible >= 1,
    ;
    let layout = menu_place(menu, cols, rows, window_height, cell_height)->0;
    assert(layout.rect.height == height);
    assert(layout.visible_columns == visible);
}

/// Information above a line stands right above it, where it fits there; below a
/// line it opens as any inline box does. Either stands at its column.
pub proof fn law_inline_info_stands_at_its_place(
    anchor: Coord,
    menu: Option<PopupRect>,
    cols: usize,
    rows: usize,
    width: usize,
    height: usize,
    window_height: usize,
    cell_height: usize,
)
    requires
        width <= cols,
        height <= rows,
    ensures
        ({
            let above = info_place(
                InfoStyle::InlineAbove,
                anchor,
                menu,
                cols,
                rows,
                width,
                height,
                window_height,
                cell_height,
            );
            let below = info_place(
                InfoStyle::InlineBelow,
                anchor,
                menu,
                cols,
                rows,
                width,
                height,
                window_height,
                cell_height,
            );
            let inline = info_place(
                InfoStyle::Inline,
                anchor,
                menu,
                cols,
                rows,
                width,
                height,
                window_height,
                cell_height,
            );
            &&& height <= anchor.line <= rows ==> above.rect.row + height == anchor.line
            &&& anchor.line < height ==> above.rect.row == 0
            &&& anchor.column + width <= cols ==> above.rect.column == anchor.column
            &&& anchor.column + width > cols ==> above.rect.column + width == cols
            &&& below == inline
            &&& below.rect.row == inline_row(anchor.line, height, rows)
            &&& below.rect.column == above.rect.column
        }),
{
}

/// Information beside a menu stands right of it, with their upper rows side by
/// side, where it fits there.
pub proof fn law_menu_info_stands_beside_the_menu(
    anchor: Coord,
    menu: PopupRect,
    cols: usize,
    rows: usize,
    width: usize,
    height: usize,
    window_height: usize,
    cell_height: usize,
)
    requires
        width <= cols,
        height <= rows,
    ensures
        ({
            let place = info_place(
                InfoStyle::MenuDoc,
                anchor,
                Some(menu),
                cols,
                rows,
                width,
                height,
                window_height,
                cell_height,
            );
            let right = menu.rect.column + menu.rect.width;
            &&& right + width <= cols ==> place.rect.column == right
            &&& right + width > cols ==> place.rect.column + width == cols
            &&& menu.rect.row + height <= rows ==> place.rect.row == menu.rect.row
            &&& menu.rect.row + height > rows ==> place.rect.row + height == rows
        }),
{
}

/// Modal information stands in the middle of the grid, as does information beside
/// a menu that is not there: as much is left free on either side, up to one cell.
pub proof fn law_modal_info_stands_in_the_middle(
    anchor: Coord,
    menu: Option<PopupRect>,
    cols: usize,
    rows: usize,
    width: usize,
    height: usize,
    window_height: usize,
    cell_height: usize,
)
    requires
        width <= cols,
        height <= rows,
    ensures
        ({
            let place = info_place(
                InfoStyle::Modal,
                anchor,
                menu,
                cols,
                rows,
                width,
                height,
                window_height,
                cell_height,
            );
            let right = cols - place.rect.column - width;
            let lower = rows - place.rect.row - height;
            &&& right == place.rect.column || right == place.rect.column + 1
            &&& lower == place.rect.row || lower == place.rect.row + 1
            &&& place == info_place(
                InfoStyle::MenuDoc,
                anchor,
                None,
                cols,
                rows,
                width,
                height,
                window_height,
                cell_height,
            )
        }),
{
}

/// Information on the prompt stands at the right edge; without a menu right above
/// the prompt, in rows and in pixels.
pub proof fn law_prompt_info_stands_on_the_prompt(
    anchor: Coord,
    menu: Option<PopupRect>,
    cols: usize,
    rows: usize,
    width: usize,
    height: usize,
    window_height: usize,
    cell_height: usize,
)
    requires
        width <= cols,
        height <= rows,
        12 + (height + 1) * cell_height <= window_height,
    ensures
        ({
            let place = info_place(
                InfoStyle::Prompt,
                anchor,
                menu,
                cols,
                rows,
                width,
                height,
                window_height,
                cell_height,
            );
            &&& place.rect.column + width == cols
            &&& menu is None ==> place.rect.row + height == rows
            &&& menu is None ==> place.top + (height + 1) * cell_height + 12 == window_height
        }),
{
    assert((height + 1) * cell_height == cell_height * (height + 1) && cell_height * (height + 1)
        >= 0) by (nonlinear_arith)
        requires
            cell_height >= 0,
            height >= 0,
    ;
}

/// The rows of a search menu are filled in order: the first item of the row of the
/// selected item is the first of all, or one that did not fit in the row before.
pub proof fn law_search_rows_are_filled(
    items: Seq<Seq<AtomView>>,
    selected: usize,
    room: usize,
) -> (before: int)
    requires
        selected < items.len(),
        room > 0,
    ensures
        ({
            let first = first_search_item(items, Some(selected), room) as int;
            first > 0 ==> 0 <= before < first && items_span(items, before, first + 1) > room
        }),
{
    lemma_row_begins_where_one_was_full(items, room as nat, (selected + 1) as nat)
}

/// A row of items begins with the first of all, or with one that did not fit.
proof fn lemma_row_begins_where_one_was_full(
    items: Seq<Seq<AtomView>>,
    room: nat,
    n: nat,
) -> (before: int)
    ensures
        ({
            let first = row_of_items(items, room, n).0 as int;
            first > 0 ==> 0 <= before < first && items_span(items, before, first + 1) > room
        }),
    decreases n,
{
    if n == 0 {
        0
    } else {
        let m = (n - 1) as nat;
        let earlier = lemma_row_begins_where_one_was_full(items, room, m);
        lemma_row_of_items(items, room, m);
        let (first, used) = row_of_items(items, room, m);
        if used + item_cells(items[n - 1]) > room {
            first as int
        } else {
            earlier
        }
    }
}

/// A menu above the prompt scrolls no further than it has to: its first columns are
/// shown while the selected item stands in one of them, and otherwise that item
/// stands in the last visible column.
pub proof fn law_prompt_menu_scrolls_no_further_than_needed(
    menu: MenuView,
    cols: usize,
    rows: usize,
    window_height: usize,
    cell_height: usize,
)
    requires
        menu.style == MenuStyle::Prompt,
        menu.items.len() <= usize::MAX,
        menu.selected is Some ==> menu.selected->0 < menu.items.len(),
    ensures
        menu_place(menu, cols, rows, window_height, cell_height) matches Some(layout) ==> {
            &&& menu.selected is None ==> layout.first_visible_item == 0
            &&& menu.selected is Some ==> {
                let column = menu.selected->0 / layout.rows_per_column;
                &&& column < layout.visible_columns ==> layout.first_visible_item == 0
                &&& column >= layout.visible_columns ==> layout.first_visible_item
                    + layout.visible_columns == column + 1
            }
        },
{
    if let Some(layout) = menu_place(menu, cols, rows, window_height, cell_height) {
        let height = layout.rows_per_column as nat;
        lemma_ceil_quotient_fits(menu.items.len(), height);
        lemma_ceil_quotient_covers(menu.items.len(), height);
        if menu.selected is Some {
            let item = menu.selected->0 as nat;
            assert(item / height < ceil_quotient(menu.items.len(), height));
        }
    }
}

/// A menu in the status line begins where the row of its selected item does: with
/// the first item of all, or with one that did not fit behind those before it.
pub proof fn law_search_menu_begins_a_row(
    menu: MenuView,
    cols: usize,
    rows: usize,
    window_height: usize,
    cell_height: usize,
) -> (before: int)
    requires
        menu.style == MenuStyle::Search,
        menu.selected is Some ==> menu.selected->0 < menu.items.len(),
        cols - cols / 2 >= 4,
    ensures
        menu_place(menu, cols, rows, window_height, cell_height) matches Some(layout) && ({
            let first = layout.first_visible_item as int;
            &&& menu.selected is None ==> first == 0
            &&& menu.selected is Some ==> first <= menu.selected->0
            &&& first > 0 ==> 0 <= before < first && items_span(menu.items, before, first + 1)
                > layout.column_width
        }),
{
    match menu.selected {
        Some(selected) => {
            let room = (cols - cols / 2 - 3) as usize;
            law_search_menu_begins_by_the_selected_item(menu.items, selected, room);
            law_search_rows_are_filled(menu.items, selected, room)
        },
        None => 0,
    }
}

} // verus!
