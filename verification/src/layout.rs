//! How the window is divided into cells.

use vstd::prelude::*;

use crate::text::capped;

verus! {

/// The empty border around the grid, in pixels.
pub const PADDING: usize = 12;

/// The size of a cell of the grid, in pixels.
#[derive(Clone, Copy, Debug, PartialEq, Eq, Structural)]
pub struct CellMetrics {
    pub cell_width: usize,
    pub cell_height: usize,
}

/// The grid that fits in a window.
#[derive(Clone, Copy, Debug, PartialEq, Eq, Structural)]
pub struct LayoutMetrics {
    pub top_padding: usize,
    pub cols: usize,
    pub rows: usize,
}

/// The product, up to the largest `usize`.
pub(crate) fn capped_mul(a: usize, b: usize) -> (product: usize)
    ensures
        product == capped((a * b) as nat),
{
    assert(a * b >= 0) by (nonlinear_arith);
    match a.checked_mul(b) {
        Some(product) => product,
        None => usize::MAX,
    }
}

/// A cell side as a divisor: at least one pixel.
pub open spec fn cell_side(pixels: usize) -> usize {
    if pixels == 0 {
        1
    } else {
        pixels
    }
}

/// The border above the grid: the padding, and below a transparent menu bar the
/// inset of that bar as well.
pub open spec fn top_padding_pixels(top_inset: usize, transparent_menubar: bool) -> usize {
    if transparent_menubar {
        capped((PADDING + top_inset) as nat)
    } else {
        PADDING
    }
}

/// The border above the grid, in pixels.
///
/// `top_inset` is the height of the menu bar at the window's scale.
pub fn content_top_padding(top_inset: usize, transparent_menubar: bool) -> (padding: usize)
    ensures
        padding == top_padding_pixels(top_inset, transparent_menubar),
{
    if transparent_menubar {
        PADDING.saturating_add(top_inset)
    } else {
        PADDING
    }
}

/// `a - b`, or zero where `b` is larger.
pub open spec fn less(a: int, b: int) -> nat {
    if a >= b {
        (a - b) as nat
    } else {
        0
    }
}

/// The whole cells between the upper and the lower border.
pub open spec fn whole_rows(height: usize, cell_height: usize, top_padding: usize) -> usize {
    (less(height as int, top_padding + PADDING) / (cell_side(cell_height) as nat)) as usize
}

/// The rows that fit in a window of `height` pixels.
pub fn layout_rows(
    height: usize,
    cell_height: usize,
    transparent_menubar: bool,
    top_inset: usize,
) -> (rows: usize)
    ensures
        rows == whole_rows(height, cell_height, top_padding_pixels(top_inset, transparent_menubar)),
{
    let top_padding = content_top_padding(top_inset, transparent_menubar);
    let side: usize = if cell_height == 0 {
        1
    } else {
        cell_height
    };
    height.saturating_sub(top_padding).saturating_sub(PADDING) / side
}

/// The grid for a window: the whole cells between the borders, and one row at
/// least.
pub open spec fn window_layout(
    width: usize,
    height: usize,
    metrics: CellMetrics,
    top_padding: usize,
) -> LayoutMetrics {
    let rows = whole_rows(height, metrics.cell_height, top_padding);
    LayoutMetrics {
        top_padding,
        cols: (less(width as int, PADDING * 2) / (cell_side(metrics.cell_width) as nat)) as usize,
        rows: if rows == 0 {
            1
        } else {
            rows
        },
    }
}

/// The grid that fits in a window of `width` by `height` pixels.
pub fn layout_metrics(
    width: usize,
    height: usize,
    metrics: &CellMetrics,
    transparent_menubar: bool,
    top_inset: usize,
) -> (layout: LayoutMetrics)
    ensures
        layout == window_layout(
            width,
            height,
            *metrics,
            top_padding_pixels(top_inset, transparent_menubar),
        ),
{
    let top_padding = content_top_padding(top_inset, transparent_menubar);
    let side: usize = if metrics.cell_width == 0 {
        1
    } else {
        metrics.cell_width
    };
    let cols = width.saturating_sub(PADDING * 2) / side;
    let rows = layout_rows(height, metrics.cell_height, transparent_menubar, top_inset);
    LayoutMetrics {
        top_padding,
        cols,
        rows: if rows == 0 {
            1
        } else {
            rows
        },
    }
}

/// The upper edge of the last `row_count` rows above the lower border, or the
/// window's own edge where they do not fit.
pub open spec fn overlay_top(height: usize, cell_height: usize, row_count: nat) -> usize {
    less(height as int, PADDING + cell_height * row_count) as usize
}

/// The upper edge of `row_count` rows that stand on the lower border.
pub fn bottom_overlay_top(height: usize, cell_height: usize, row_count: usize) -> (top: usize)
    ensures
        top == overlay_top(height, cell_height, row_count as nat),
{
    height.saturating_sub(capped_mul(cell_height, row_count)).saturating_sub(PADDING)
}

/// The upper edge of a row of the grid.
pub open spec fn row_pixel(row: nat, metrics: CellMetrics, top_padding: usize) -> usize {
    capped((top_padding + row * metrics.cell_height) as nat)
}

/// The upper edge of a row of the grid, up to the largest `usize`.
pub fn row_top(row: usize, metrics: &CellMetrics, top_padding: usize) -> (top: usize)
    ensures
        top == row_pixel(row as nat, *metrics, top_padding),
{
    top_padding.saturating_add(capped_mul(row, metrics.cell_height))
}

/// The grid stays between the borders: its columns never reach into the right
/// border, and its rows never into the lower one unless the window is too low
/// for a single row.
pub proof fn law_grid_stays_inside_the_borders(
    width: usize,
    height: usize,
    metrics: CellMetrics,
    top_padding: usize,
)
    ensures
        ({
            let layout = window_layout(width, height, metrics, top_padding);
            &&& width >= PADDING * 2 ==> PADDING * 2 + layout.cols * metrics.cell_width <= width
            &&& height >= top_padding + PADDING + metrics.cell_height ==> top_padding + layout.rows
                * metrics.cell_height + PADDING <= height
            &&& layout.rows >= 1
        }),
{
    let across = less(width as int, PADDING * 2) as int;
    let down = less(height as int, top_padding + PADDING) as int;
    let w = cell_side(metrics.cell_width) as int;
    let h = cell_side(metrics.cell_height) as int;
    vstd::arithmetic::div_mod::lemma_fundamental_div_mod(across, w);
    vstd::arithmetic::div_mod::lemma_fundamental_div_mod(down, h);
    vstd::arithmetic::div_mod::lemma_mod_bound(across, w);
    vstd::arithmetic::div_mod::lemma_mod_bound(down, h);
    vstd::arithmetic::div_mod::lemma_div_is_ordered_by_denominator(across, 1, w);
    vstd::arithmetic::div_mod::lemma_div_is_ordered_by_denominator(down, 1, h);
    let layout = window_layout(width, height, metrics, top_padding);
    assert(layout.cols == across / w);
    assert(layout.cols * metrics.cell_width <= w * (across / w)) by (nonlinear_arith)
        requires
            layout.cols == across / w,
            0 <= metrics.cell_width <= w,
            layout.cols >= 0,
    ;
    if height >= top_padding + PADDING + metrics.cell_height {
        if down / h == 0 {
            assert(h * (down / h) == 0) by (nonlinear_arith)
                requires
                    down / h == 0,
            ;
        } else {
            assert(layout.rows == down / h);
            assert(layout.rows * metrics.cell_height <= h * (down / h)) by (nonlinear_arith)
                requires
                    layout.rows == down / h,
                    0 <= metrics.cell_height <= h,
                    layout.rows >= 0,
            ;
        }
    }
}

/// The grid is as large as it can be: one more column or row would not fit.
pub proof fn law_grid_is_maximal(
    width: usize,
    height: usize,
    metrics: CellMetrics,
    top_padding: usize,
)
    requires
        metrics.cell_width > 0,
        metrics.cell_height > 0,
    ensures
        ({
            let layout = window_layout(width, height, metrics, top_padding);
            &&& PADDING * 2 + (layout.cols + 1) * metrics.cell_width > width
            &&& top_padding + (layout.rows + 1) * metrics.cell_height + PADDING > height
        }),
{
    let across = less(width as int, PADDING * 2) as int;
    let down = less(height as int, top_padding + PADDING) as int;
    let w = metrics.cell_width as int;
    let h = metrics.cell_height as int;
    vstd::arithmetic::div_mod::lemma_fundamental_div_mod(across, w);
    vstd::arithmetic::div_mod::lemma_fundamental_div_mod(down, h);
    vstd::arithmetic::div_mod::lemma_mod_bound(across, w);
    vstd::arithmetic::div_mod::lemma_mod_bound(down, h);
    vstd::arithmetic::div_mod::lemma_div_is_ordered_by_denominator(across, 1, w);
    vstd::arithmetic::div_mod::lemma_div_is_ordered_by_denominator(down, 1, h);
    let layout = window_layout(width, height, metrics, top_padding);
    assert(layout.cols == across / w);
    assert(layout.rows >= down / h);
    assert((layout.cols + 1) * w == w * (across / w) + w) by (nonlinear_arith)
        requires
            layout.cols == across / w,
    ;
    assert((layout.rows + 1) * h >= h * (down / h) + h) by (nonlinear_arith)
        requires
            layout.rows >= down / h,
            h > 0,
    ;
}

/// Rows that stand on the lower border end exactly there, whatever the height
/// of a cell.
pub proof fn law_overlay_stands_on_the_lower_border(
    height: usize,
    cell_height: usize,
    row_count: nat,
)
    requires
        PADDING + cell_height * row_count <= height,
    ensures
        overlay_top(height, cell_height, row_count) + cell_height * row_count + PADDING == height,
{
    assert(cell_height * row_count >= 0) by (nonlinear_arith)
        requires
            cell_height >= 0,
            row_count >= 0,
    ;
}

/// The border above the grid is as high as any, and below a transparent menu bar
/// higher by the inset of that bar.
pub proof fn law_grid_stands_below_the_menu_bar(top_inset: usize)
    requires
        top_inset <= usize::MAX - 12,
    ensures
        top_padding_pixels(top_inset, false) == 12,
        top_padding_pixels(top_inset, true) == top_inset + 12,
{
}

/// Each row of the grid stands one cell below the one before it, the first right
/// below the upper border.
pub proof fn law_rows_follow_each_other(row: nat, metrics: CellMetrics, top_padding: usize)
    requires
        top_padding + (row + 1) * metrics.cell_height <= usize::MAX,
    ensures
        row_pixel(0, metrics, top_padding) == top_padding,
        row_pixel(row + 1, metrics, top_padding) == row_pixel(row, metrics, top_padding)
            + metrics.cell_height,
{
    let h = metrics.cell_height as int;
    assert((row + 1) * h == row * h + h && row * h >= 0 && 0 * h == 0) by (nonlinear_arith)
        requires
            row >= 0,
            h >= 0,
    ;
}

} // verus!
