//! The steps that paint an information box.

use vstd::prelude::*;

use crate::app::{InfoState, InfoView};
use crate::draw::{
    block_steps, cell_left, column_pixel, fill_rect_at_top, is_visible, law_line_shows_its_text,
    leaves, lemma_line_leaves_before, lemma_shown_after, lemma_shown_before, line_steps, lower_row,
    render_line_at_top, render_string_line_at_top, row_below, shows, string_steps, DrawStep,
    DrawStepView, PaintView,
};
use crate::layout::{less, row_pixel, CellMetrics, PADDING};
use crate::menu::{grid_row_top, paints};
use crate::messages::InfoStyle;
use crate::popup::{
    info_place, info_rect_with_window, larger, law_widest_line_is_the_widest, max_of, min_of, smaller, widest, widest_line,
    InfoLayout, PopupRect,
};
use crate::strings::{push_repeated, repeated};
use crate::text::{
    capped, clusters_width, grapheme_clusters, line_display_width, line_width, truncate_atoms,
    truncated,
};

verus! {

/// Whether a box has a frame.
pub open spec fn has_frame(style: InfoStyle) -> bool {
    style == InfoStyle::Prompt || style == InfoStyle::Modal
}

/// The upper edge of a row of a box: of a row of the grid, unless the box hangs
/// on the prompt.
pub open spec fn info_row_top(
    style: InfoStyle,
    layout: InfoLayout,
    offset: nat,
    metrics: CellMetrics,
    top_padding: usize,
) -> usize {
    if style == InfoStyle::Prompt {
        lower_row(layout.top, offset, metrics)
    } else {
        row_pixel((layout.rect.row + offset) as nat, metrics, top_padding)
    }
}

/// The upper edge of a row of a box.
fn info_row_edge(
    style: InfoStyle,
    layout: &InfoLayout,
    offset: usize,
    metrics: &CellMetrics,
    top_padding: usize,
) -> (edge: usize)
    ensures
        edge == info_row_top(style, *layout, offset as nat, *metrics, top_padding),
{
    match style {
        InfoStyle::Prompt => row_below(layout.top, offset, metrics),
        _ => grid_row_top(layout.rect.row, offset, metrics, top_padding),
    }
}

/// The columns between the sides of a frame.
pub open spec fn inner_columns(layout: InfoLayout) -> nat {
    less(layout.rect.width as int, 4)
}

/// The column `offset` columns right of the left side of a box.
pub open spec fn box_column(layout: InfoLayout, offset: nat) -> nat {
    capped((layout.rect.column + offset) as nat) as nat
}

/// The upper side of a frame without a title.
pub open spec fn plain_border(inner: nat) -> Seq<char> {
    "╭─"@ + repeated('─', inner) + "─╮"@
}

/// The upper side of a frame, left of the title.
pub open spec fn left_border(dashes: nat) -> Seq<char> {
    "╭─"@ + repeated('─', dashes / 2) + "┤"@
}

/// The upper side of a frame, right of the title.
pub open spec fn right_border(dashes: nat) -> Seq<char> {
    "├"@ + repeated('─', (dashes - dashes / 2) as nat) + "─╮"@
}

/// The lower side of a frame.
pub open spec fn bottom_border(inner: nat) -> Seq<char> {
    "╰─"@ + repeated('─', inner) + "─╯"@
}

/// A row of a frame with nothing in it.
pub open spec fn blank_row(inner: nat) -> Seq<char> {
    "│ "@ + repeated(' ', inner) + " │"@
}

/// The steps that paint the upper side of a frame: with the title between its
/// halves, if there is a title and room for some of it.
pub open spec fn border_steps(
    info: InfoView,
    layout: InfoLayout,
    metrics: CellMetrics,
    top: usize,
) -> Seq<DrawStepView> {
    let inner = inner_columns(layout);
    let column = layout.rect.column as nat;
    if info.title.len() == 0 || inner < 2 {
        string_steps(column, plain_border(inner), info.face, metrics, top)
    } else {
        let title = truncated(info.title, (inner - 2) as nat);
        let dashes = less(inner as int, (line_width(title) + 2) as int);
        let left = left_border(dashes);
        let right = right_border(dashes);
        string_steps(column, left, info.face, metrics, top) + line_steps(
            title,
            info.face,
            box_column(layout, left.len()),
            box_column(layout, layout.rect.width as nat),
            top,
            metrics,
        ) + string_steps(
            box_column(layout, less(layout.rect.width as int, right.len() as int)),
            right,
            info.face,
            metrics,
            top,
        )
    }
}

/// The steps that paint one row inside a frame, with its sides.
pub open spec fn body_row_steps(
    info: InfoView,
    layout: InfoLayout,
    metrics: CellMetrics,
    top: usize,
    row: nat,
) -> Seq<DrawStepView> {
    let inner = inner_columns(layout);
    let column = layout.rect.column as nat;
    if row < info.content.len() {
        string_steps(column, "│ "@, info.face, metrics, top) + line_steps(
            info.content[row as int],
            info.face,
            box_column(layout, 2),
            box_column(layout, 2 + inner),
            top,
            metrics,
        ) + string_steps(
            box_column(layout, less(layout.rect.width as int, 2)),
            " │"@,
            info.face,
            metrics,
            top,
        )
    } else {
        string_steps(column, blank_row(inner), info.face, metrics, top)
    }
}

/// The steps that paint the first `n` rows inside a frame.
pub open spec fn body_steps(
    info: InfoView,
    layout: InfoLayout,
    metrics: CellMetrics,
    top_padding: usize,
    n: nat,
) -> Seq<DrawStepView>
    decreases n,
{
    if n == 0 {
        Seq::empty()
    } else {
        let row = (n - 1) as nat;
        body_steps(info, layout, metrics, top_padding, row) + body_row_steps(
            info,
            layout,
            metrics,
            info_row_top(info.style, layout, row + 1, metrics, top_padding),
            row,
        )
    }
}

/// The steps that paint a frame below its upper side, with what is in it.
pub open spec fn framed_body_steps(
    info: InfoView,
    layout: InfoLayout,
    metrics: CellMetrics,
    top_padding: usize,
) -> Seq<DrawStepView> {
    body_steps(info, layout, metrics, top_padding, less(layout.rect.height as int, 2))
        + string_steps(
        layout.rect.column as nat,
        bottom_border(inner_columns(layout)),
        info.face,
        metrics,
        info_row_top(
            info.style,
            layout,
            less(layout.rect.height as int, 1),
            metrics,
            top_padding,
        ),
    )
}

/// The steps that paint a frame with what is in it: none where there is no room
/// for its sides.
pub open spec fn framed_steps(
    info: InfoView,
    layout: InfoLayout,
    metrics: CellMetrics,
    top_padding: usize,
) -> Seq<DrawStepView> {
    if layout.rect.width < 2 || layout.rect.height < 2 {
        Seq::empty()
    } else {
        border_steps(
            info,
            layout,
            metrics,
            info_row_top(info.style, layout, 0, metrics, top_padding),
        ) + framed_body_steps(info, layout, metrics, top_padding)
    }
}

/// A text between two others, repeated.
fn border_text(left: &str, fill: char, count: usize, right: &str) -> (text: String)
    ensures
        text@ == left@ + repeated(fill, count as nat) + right@,
{
    let mut text = left.to_string();
    push_repeated(&mut text, fill, count);
    text.append(right);
    text
}

/// Paint one row inside a frame, with its sides.
fn render_body_row(
    steps: &mut Vec<DrawStep>,
    info: &InfoState,
    layout: &InfoLayout,
    metrics: &CellMetrics,
    top: usize,
    row: usize,
)
    ensures
        final(steps).deep_view() == old(steps).deep_view() + body_row_steps(
            info.deep_view(),
            *layout,
            *metrics,
            top,
            row as nat,
        ),
{
    let rect = layout.rect;
    let inner = rect.width.saturating_sub(4);
    if row < info.content.len() {
        assert(info.deep_view().content[row as int] == info.content@[row as int].deep_view());
        render_string_line_at_top(steps, rect.column, "│ ", &info.face, metrics, top);
        let from = rect.column.saturating_add(2);
        let to = from.saturating_add(inner);
        render_line_at_top(
            steps,
            from,
            to,
            info.content[row].as_slice(),
            &info.face,
            metrics,
            top,
        );
        let side = rect.column.saturating_add(rect.width.saturating_sub(2));
        render_string_line_at_top(steps, side, " │", &info.face, metrics, top);
    } else {
        let blank = border_text("│ ", ' ', inner, " │");
        render_string_line_at_top(steps, rect.column, blank.as_str(), &info.face, metrics, top);
    }
    assert(steps.deep_view() =~= old(steps).deep_view() + body_row_steps(
        info.deep_view(),
        *layout,
        *metrics,
        top,
        row as nat,
    ));
}

/// Paint a frame below its upper side, with what is in it.
pub fn render_framed_info_body(
    steps: &mut Vec<DrawStep>,
    info: &InfoState,
    layout: InfoLayout,
    metrics: &CellMetrics,
    top_padding: usize,
)
    ensures
        final(steps).deep_view() == old(steps).deep_view() + framed_body_steps(
            info.deep_view(),
            layout,
            *metrics,
            top_padding,
        ),
{
    let rect = layout.rect;
    let body_rows = rect.height.saturating_sub(2);
    let ghost view = info.deep_view();
    assert(steps.deep_view() + Seq::empty() =~= steps.deep_view());
    for row in 0..body_rows
        invariant
            view == info.deep_view(),
            body_rows <= layout.rect.height,
            layout.rect.height >= 2 ==> body_rows + 2 == layout.rect.height,
            layout.rect.height < 2 ==> body_rows == 0,
            steps.deep_view() == old(steps).deep_view() + body_steps(
                view,
                layout,
                *metrics,
                top_padding,
                row as nat,
            ),
    {
        let top = info_row_edge(info.style, &layout, row + 1, metrics, top_padding);
        render_body_row(steps, info, &layout, metrics, top, row);
        assert(steps.deep_view() =~= old(steps).deep_view() + body_steps(
            view,
            layout,
            *metrics,
            top_padding,
            (row + 1) as nat,
        ));
    }
    let bottom = border_text("╰─", '─', rect.width.saturating_sub(4), "─╯");
    let top = info_row_edge(
        info.style,
        &layout,
        rect.height.saturating_sub(1),
        metrics,
        top_padding,
    );
    render_string_line_at_top(steps, rect.column, bottom.as_str(), &info.face, metrics, top);
    assert(steps.deep_view() =~= old(steps).deep_view() + framed_body_steps(
        view,
        layout,
        *metrics,
        top_padding,
    ));
}

/// Paint the upper side of a frame.
fn render_border(
    steps: &mut Vec<DrawStep>,
    info: &InfoState,
    layout: &InfoLayout,
    metrics: &CellMetrics,
    top: usize,
)
    ensures
        final(steps).deep_view() == old(steps).deep_view() + border_steps(
            info.deep_view(),
            *layout,
            *metrics,
            top,
        ),
{
    let rect = layout.rect;
    let inner = rect.width.saturating_sub(4);
    if info.title.len() == 0 || inner < 2 {
        let border = border_text("╭─", '─', inner, "─╮");
        render_string_line_at_top(steps, rect.column, border.as_str(), &info.face, metrics, top);
        return ;
    }
    let title = truncate_atoms(info.title.as_slice(), inner - 2);
    let title_width = line_display_width(title.as_slice());
    let dashes = (inner - 2).saturating_sub(title_width);
    assert(dashes == less(inner as int, (line_width(title.deep_view()) + 2) as int));
    let left = border_text("╭─", '─', dashes / 2, "┤");
    let right = border_text("├", '─', dashes - dashes / 2, "─╮");
    render_string_line_at_top(steps, rect.column, left.as_str(), &info.face, metrics, top);
    let from = rect.column.saturating_add(left.as_str().unicode_len());
    let to = rect.column.saturating_add(rect.width);
    render_line_at_top(steps, from, to, title.as_slice(), &info.face, metrics, top);
    let side = rect.column.saturating_add(
        rect.width.saturating_sub(right.as_str().unicode_len()),
    );
    render_string_line_at_top(steps, side, right.as_str(), &info.face, metrics, top);
    assert(steps.deep_view() =~= old(steps).deep_view() + border_steps(
        info.deep_view(),
        *layout,
        *metrics,
        top,
    ));
}

/// Paint a frame with what is in it.
pub fn render_framed_info(
    steps: &mut Vec<DrawStep>,
    info: &InfoState,
    layout: InfoLayout,
    metrics: &CellMetrics,
    top_padding: usize,
)
    ensures
        final(steps).deep_view() == old(steps).deep_view() + framed_steps(
            info.deep_view(),
            layout,
            *metrics,
            top_padding,
        ),
{
    if layout.rect.width < 2 || layout.rect.height < 2 {
        assert(steps.deep_view() + Seq::empty() =~= steps.deep_view());
        return ;
    }
    let top = info_row_edge(info.style, &layout, 0, metrics, top_padding);
    render_border(steps, info, &layout, metrics, top);
    render_framed_info_body(steps, info, layout, metrics, top_padding);
    assert(steps.deep_view() =~= old(steps).deep_view() + framed_steps(
        info.deep_view(),
        layout,
        *metrics,
        top_padding,
    ));
}

/// The width of a box: that of its title or of its widest line, one at least,
/// with its frame, and no more than the grid has.
pub open spec fn info_width(info: InfoView, cols: usize) -> usize {
    let inner = larger(
        larger(line_width(info.title) as int, widest(info.content) as int),
        1,
    );
    let frame: int = if has_frame(info.style) {
        4
    } else {
        0
    };
    smaller(inner + frame, cols as int) as usize
}

/// The height of a box: that of its content, one row at least, with its frame,
/// and no more than the grid has.
pub open spec fn info_height(info: InfoView, rows: usize) -> usize {
    let frame: int = if has_frame(info.style) {
        2
    } else {
        0
    };
    smaller(larger(info.content.len() as int, 1) + frame, rows as int) as usize
}

/// The steps that paint the first `n` lines of a box without a frame.
pub open spec fn bare_steps(
    info: InfoView,
    layout: InfoLayout,
    metrics: CellMetrics,
    top_padding: usize,
    n: nat,
) -> Seq<DrawStepView>
    decreases n,
{
    if n == 0 {
        Seq::empty()
    } else {
        let row = (n - 1) as nat;
        bare_steps(info, layout, metrics, top_padding, row) + line_steps(
            info.content[row as int],
            info.face,
            layout.rect.column as nat,
            box_column(layout, layout.rect.width as nat),
            row_pixel((layout.rect.row + row) as nat, metrics, top_padding),
            metrics,
        )
    }
}

/// Where a box stands in the grid.
pub open spec fn info_layout(
    info: InfoView,
    menu: Option<PopupRect>,
    cols: usize,
    rows: usize,
    metrics: CellMetrics,
    window_height: usize,
) -> InfoLayout {
    info_place(
        info.style,
        info.anchor,
        menu,
        cols,
        rows,
        info_width(info, cols),
        info_height(info, rows),
        window_height,
        metrics.cell_height,
    )
}

/// The steps that paint an information box: none without a grid.
pub open spec fn info_steps(
    info: InfoView,
    menu: Option<PopupRect>,
    cols: usize,
    rows: usize,
    metrics: CellMetrics,
    top_padding: usize,
    window_height: usize,
) -> Seq<DrawStepView> {
    let layout = info_layout(info, menu, cols, rows, metrics, window_height);
    if cols == 0 || rows == 0 {
        Seq::empty()
    } else {
        block_steps(
            layout.rect.column as nat,
            layout.rect.width as nat,
            layout.rect.height as nat,
            info.face,
            metrics,
            info_row_top(info.style, layout, 0, metrics, top_padding),
        ) + if has_frame(info.style) {
            framed_steps(info, layout, metrics, top_padding)
        } else {
            bare_steps(
                info,
                layout,
                metrics,
                top_padding,
                smaller(info.content.len() as int, layout.rect.height as int) as nat,
            )
        }
    }
}

/// Paint the lines of a box without a frame.
fn render_bare_info(
    steps: &mut Vec<DrawStep>,
    info: &InfoState,
    layout: &InfoLayout,
    metrics: &CellMetrics,
    top_padding: usize,
)
    ensures
        final(steps).deep_view() == old(steps).deep_view() + bare_steps(
            info.deep_view(),
            *layout,
            *metrics,
            top_padding,
            smaller(info.content@.len() as int, layout.rect.height as int) as nat,
        ),
{
    let rect = layout.rect;
    let shown = min_of(info.content.len(), rect.height);
    let end = rect.column.saturating_add(rect.width);
    let ghost view = info.deep_view();
    assert(steps.deep_view() + Seq::empty() =~= steps.deep_view());
    for row in 0..shown
        invariant
            view == info.deep_view(),
            rect == layout.rect,
            shown <= info.content@.len(),
            end == box_column(*layout, layout.rect.width as nat),
            steps.deep_view() == old(steps).deep_view() + bare_steps(
                view,
                *layout,
                *metrics,
                top_padding,
                row as nat,
            ),
    {
        assert(view.content[row as int] == info.content@[row as int].deep_view());
        render_line_at_top(
            steps,
            rect.column,
            end,
            info.content[row].as_slice(),
            &info.face,
            metrics,
            grid_row_top(rect.row, row, metrics, top_padding),
        );
        assert(steps.deep_view() =~= old(steps).deep_view() + bare_steps(
            view,
            *layout,
            *metrics,
            top_padding,
            (row + 1) as nat,
        ));
    }
}

/// Paint an information box.
pub fn render_info(
    steps: &mut Vec<DrawStep>,
    info: &InfoState,
    menu_rect: Option<PopupRect>,
    cols: usize,
    rows: usize,
    metrics: &CellMetrics,
    top_padding: usize,
    window_height: usize,
)
    ensures
        final(steps).deep_view() == old(steps).deep_view() + info_steps(
            info.deep_view(),
            menu_rect,
            cols,
            rows,
            *metrics,
            top_padding,
            window_height,
        ),
{
    if cols == 0 || rows == 0 {
        assert(steps.deep_view() + Seq::empty() =~= steps.deep_view());
        return ;
    }
    let framed = match info.style {
        InfoStyle::Prompt | InfoStyle::Modal => true,
        _ => false,
    };
    let inner = max_of(
        max_of(line_display_width(info.title.as_slice()), widest_line(&info.content)),
        1,
    );
    let side: usize = if framed {
        4
    } else {
        0
    };
    let width = min_of(inner.saturating_add(side), cols);
    let frame: usize = if framed {
        2
    } else {
        0
    };
    let height = min_of(max_of(info.content.len(), 1).saturating_add(frame), rows);
    let layout = info_rect_with_window(
        info,
        menu_rect,
        cols,
        rows,
        width,
        height,
        window_height,
        metrics.cell_height,
    );
    assert(layout == info_layout(
        info.deep_view(),
        menu_rect,
        cols,
        rows,
        *metrics,
        window_height,
    ));
    let top = info_row_edge(info.style, &layout, 0, metrics, top_padding);
    fill_rect_at_top(
        steps,
        layout.rect.column,
        layout.rect.width,
        layout.rect.height,
        &info.face,
        metrics,
        top,
    );
    if framed {
        render_framed_info(steps, info, layout, metrics, top_padding);
    } else {
        render_bare_info(steps, info, &layout, metrics, top_padding);
    }
    assert(steps.deep_view() =~= old(steps).deep_view() + info_steps(
        info.deep_view(),
        menu_rect,
        cols,
        rows,
        *metrics,
        top_padding,
        window_height,
    ));
}

/// A frame is as wide as its box, counted in characters and, for the title, in
/// cells.
pub proof fn law_frame_is_as_wide_as_the_box(layout: InfoLayout, title_width: nat)
    requires
        layout.rect.width >= 4,
    ensures
        plain_border(inner_columns(layout)).len() == layout.rect.width,
        bottom_border(inner_columns(layout)).len() == layout.rect.width,
        blank_row(inner_columns(layout)).len() == layout.rect.width,
        title_width + 2 <= inner_columns(layout) ==> ({
            let dashes = less(inner_columns(layout) as int, (title_width + 2) as int);
            left_border(dashes).len() + title_width + right_border(dashes).len()
                == layout.rect.width
        }),
{
    reveal_strlit("╭─");
    reveal_strlit("─╮");
    reveal_strlit("┤");
    reveal_strlit("├");
    reveal_strlit("╰─");
    reveal_strlit("─╯");
    reveal_strlit("│ ");
    reveal_strlit(" │");
}

/// The columns that a box has for its text: all of them, but for two at either
/// side of a box on the prompt and of a modal one, which have a frame.
pub open spec fn text_room(style: InfoStyle, layout: InfoLayout) -> int {
    match style {
        InfoStyle::Prompt | InfoStyle::Modal => layout.rect.width - 4,
        _ => layout.rect.width as int,
    }
}

/// The rows that a box has for its text: all of them, but for one above and one
/// below in a frame.
pub open spec fn text_rows(style: InfoStyle, layout: InfoLayout) -> int {
    match style {
        InfoStyle::Prompt | InfoStyle::Modal => layout.rect.height - 2,
        _ => layout.rect.height as int,
    }
}

/// Information has room for its text wherever the grid has: a box has as many
/// columns for text as each of its lines needs that fits in the grid with the
/// frame, and as its title needs, and as many rows as it has lines. It is no larger
/// than the grid.
pub proof fn law_information_has_room_for_its_text(
    info: InfoView,
    menu: Option<PopupRect>,
    cols: usize,
    rows: usize,
    metrics: CellMetrics,
    window_height: usize,
    i: int,
)
    requires
        0 <= i < info.content.len(),
    ensures
        ({
            let layout = info_layout(info, menu, cols, rows, metrics, window_height);
            let frame: int = if info.style is Prompt || info.style is Modal {
                4
            } else {
                0
            };
            let sides: int = if info.style is Prompt || info.style is Modal {
                2
            } else {
                0
            };
            &&& line_width(info.content[i]) + frame <= cols ==> text_room(info.style, layout)
                >= line_width(info.content[i])
            &&& line_width(info.title) + frame <= cols ==> text_room(info.style, layout)
                >= line_width(info.title)
            &&& info.content.len() + sides <= rows ==> text_rows(info.style, layout)
                == info.content.len()
            &&& info.content.len() + sides > rows ==> layout.rect.height == rows
            &&& layout.rect.width <= cols
            &&& layout.rect.height <= rows
        }),
{
    let k = law_widest_line_is_the_widest(info.content, i);
    assert(line_width(info.content[k]) == widest(info.content));
}

/// Information takes no more columns than its title or one of its lines needs.
pub proof fn law_information_is_no_wider_than_its_text(
    info: InfoView,
    menu: Option<PopupRect>,
    cols: usize,
    rows: usize,
    metrics: CellMetrics,
    window_height: usize,
)
    requires
        info.content.len() > 0,
    ensures
        ({
            let layout = info_layout(info, menu, cols, rows, metrics, window_height);
            let room = text_room(info.style, layout);
            ||| room <= 1
            ||| room <= line_width(info.title)
            ||| exists|k: int|
                0 <= k < info.content.len() && room <= line_width(#[trigger] info.content[k])
        }),
{
    let k = law_widest_line_is_the_widest(info.content, 0);
    assert(line_width(info.content[k]) == widest(info.content));
}

/// Information stands where a box of its size stands by its style and its anchor.
pub proof fn law_information_stands_by_its_style(
    info: InfoView,
    menu: Option<PopupRect>,
    cols: usize,
    rows: usize,
    metrics: CellMetrics,
    window_height: usize,
)
    ensures
        ({
            let layout = info_layout(info, menu, cols, rows, metrics, window_height);
            layout == info_place(
                info.style,
                info.anchor,
                menu,
                cols,
                rows,
                layout.rect.width,
                layout.rect.height,
                window_height,
                metrics.cell_height,
            )
        }),
{
}

/// The upper edge of a row of a box, where it can be counted in pixels: on the
/// prompt from the upper edge of the box, and otherwise by the rows of the grid.
pub open spec fn box_edge(
    style: InfoStyle,
    layout: InfoLayout,
    offset: int,
    metrics: CellMetrics,
    top_padding: usize,
) -> int {
    if style is Prompt {
        layout.top + offset * metrics.cell_height
    } else {
        top_padding + (layout.rect.row + offset) * metrics.cell_height
    }
}

/// A box is painted in its face first, row by row.
pub proof fn law_information_has_its_ground(
    info: InfoView,
    menu: Option<PopupRect>,
    cols: usize,
    rows: usize,
    metrics: CellMetrics,
    top_padding: usize,
    window_height: usize,
    row: int,
)
    requires
        cols > 0,
        rows > 0,
        PADDING + cols * metrics.cell_width <= usize::MAX,
        ({
            let layout = info_layout(info, menu, cols, rows, metrics, window_height);
            &&& 0 <= row < layout.rect.height
            &&& layout.rect.column + layout.rect.width <= cols
            &&& box_edge(info.style, layout, layout.rect.height as int, metrics, top_padding)
                <= usize::MAX
        }),
    ensures
        ({
            let layout = info_layout(info, menu, cols, rows, metrics, window_height);
            info_steps(info, menu, cols, rows, metrics, top_padding, window_height)[row] == (
            DrawStepView::Fill {
                left: (12 + layout.rect.column * metrics.cell_width) as usize,
                top: box_edge(info.style, layout, row, metrics, top_padding) as usize,
                width: (layout.rect.width * metrics.cell_width) as usize,
                height: metrics.cell_height,
                paint: PaintView::Root { face: info.face },
            })
        }),
{
    let layout = info_layout(info, menu, cols, rows, metrics, window_height);
    let w = metrics.cell_width as int;
    let column = layout.rect.column as int;
    let width = layout.rect.width as int;
    assert(0 <= column * w && 0 <= width * w && column * w <= cols * w && width * w <= cols * w
        && w * width == width * w) by (nonlinear_arith)
        requires
            0 <= column,
            0 <= width,
            column + width <= cols,
            w >= 0,
    ;
    lemma_box_edges(info.style, layout, metrics, top_padding, 0);
    lemma_box_edges(info.style, layout, metrics, top_padding, row);
    let h = metrics.cell_height as int;
    let r = layout.rect.row as int;
    assert((r + 0) * h + row * h == (r + row) * h && 0 * h == 0) by (nonlinear_arith);
}

/// The rows of a box have the edges that are counted for them.
proof fn lemma_box_edges(
    style: InfoStyle,
    layout: InfoLayout,
    metrics: CellMetrics,
    top_padding: usize,
    offset: int,
)
    requires
        0 <= offset <= layout.rect.height,
        box_edge(style, layout, layout.rect.height as int, metrics, top_padding) <= usize::MAX,
    ensures
        info_row_top(style, layout, offset as nat, metrics, top_padding) == box_edge(
            style,
            layout,
            offset,
            metrics,
            top_padding,
        ),
        0 <= box_edge(style, layout, offset, metrics, top_padding) <= usize::MAX,
{
    let h = metrics.cell_height as int;
    let height = layout.rect.height as int;
    let r = layout.rect.row as int;
    assert(0 <= offset * h <= height * h && 0 <= (r + offset) * h <= (r + height) * h)
        by (nonlinear_arith)
        requires
            0 <= offset <= height,
            0 <= r,
            h >= 0,
    ;
}

/// Edges of different rows are a cell apart at least.
proof fn lemma_edges_apart(
    style: InfoStyle,
    layout: InfoLayout,
    metrics: CellMetrics,
    top_padding: usize,
    a: int,
    b: int,
)
    requires
        a < b,
    ensures
        box_edge(style, layout, a, metrics, top_padding) + metrics.cell_height <= box_edge(
            style,
            layout,
            b,
            metrics,
            top_padding,
        ),
{
    let h = metrics.cell_height as int;
    let r = layout.rect.row as int;
    assert(a * h + h <= b * h && (r + a) * h + h <= (r + b) * h) by (nonlinear_arith)
        requires
            a < b,
            h >= 0,
    ;
}

/// A row inside a frame paints nothing outside its row.
proof fn lemma_body_row_leaves(
    info: InfoView,
    layout: InfoLayout,
    metrics: CellMetrics,
    top: usize,
    row: nat,
    x: int,
    y: int,
)
    requires
        !(top <= y < top + metrics.cell_height),
    ensures
        leaves(body_row_steps(info, layout, metrics, top, row), x, y),
{
    let inner = inner_columns(layout);
    let column = layout.rect.column as nat;
    let paint = PaintView::Root { face: info.face };
    if row < info.content.len() {
        let first = string_steps(column, "│ "@, info.face, metrics, top);
        let text = line_steps(
            info.content[row as int],
            info.face,
            box_column(layout, 2),
            box_column(layout, 2 + inner),
            top,
            metrics,
        );
        let side = box_column(layout, less(layout.rect.width as int, 2));
        let last = string_steps(side, " │"@, info.face, metrics, top);
        lemma_string_leaves(column, "│ "@, info, metrics, top, x, y);
        lemma_line_leaves_before(
            info.content[row as int],
            info.face,
            box_column(layout, 2),
            box_column(layout, 2 + inner),
            top,
            metrics,
            x,
            y,
        );
        lemma_string_leaves(side, " │"@, info, metrics, top, x, y);
        lemma_shown_before(first, text, x, y, Seq::empty(), paint);
        lemma_shown_before(first + text, last, x, y, Seq::empty(), paint);
    } else {
        lemma_string_leaves(column, blank_row(inner), info, metrics, top, x, y);
    }
}

/// A text in one face paints nothing outside its row, nor left of it.
proof fn lemma_string_leaves(
    column: nat,
    text: Seq<char>,
    info: InfoView,
    metrics: CellMetrics,
    top: usize,
    x: int,
    y: int,
)
    requires
        x < column_pixel(column, metrics) || !(top <= y < top + metrics.cell_height),
    ensures
        leaves(string_steps(column, text, info.face, metrics, top), x, y),
{
    lemma_line_leaves_before(
        crate::text::plain_line(text),
        info.face,
        column,
        capped(column + crate::text::text_width(text)) as nat,
        top,
        metrics,
        x,
        y,
    );
}

/// A row inside a frame shows its line.
#[verifier::rlimit(40)]
proof fn lemma_body_row_shows(
    info: InfoView,
    layout: InfoLayout,
    metrics: CellMetrics,
    top: usize,
    row: nat,
    i: int,
    n: int,
)
    requires
        row < info.content.len(),
        layout.rect.width >= 4,
        PADDING + (layout.rect.column + layout.rect.width) * metrics.cell_width <= usize::MAX,
        layout.rect.column + layout.rect.width <= usize::MAX,
        0 <= i < info.content[row as int].len(),
        0 <= n < grapheme_clusters(info.content[row as int][i].contents).len(),
        grapheme_clusters(info.content[row as int][i].contents)[n] != seq!['\n'],
        is_visible(grapheme_clusters(info.content[row as int][i].contents)[n]),
        line_width(info.content[row as int].take(i)) + clusters_width(
            grapheme_clusters(info.content[row as int][i].contents).take(n),
        ) < layout.rect.width - 4,
    ensures
        shows(
            body_row_steps(info, layout, metrics, top, row),
            12 + (layout.rect.column + 2 + line_width(info.content[row as int].take(i))
                + clusters_width(
                grapheme_clusters(info.content[row as int][i].contents).take(n),
            )) * metrics.cell_width,
            top as int,
            grapheme_clusters(info.content[row as int][i].contents)[n],
            PaintView::Derived { base: info.face, face: info.content[row as int][i].face },
        ),
{
    let line = info.content[row as int];
    let clusters = grapheme_clusters(line[i].contents);
    let at = line_width(line.take(i)) + clusters_width(clusters.take(n));
    let column = layout.rect.column as nat;
    let from = box_column(layout, 2);
    let to = box_column(layout, 2 + inner_columns(layout));
    let side = box_column(layout, less(layout.rect.width as int, 2));
    let paint = PaintView::Derived { base: info.face, face: line[i].face };
    let first = string_steps(column, "│ "@, info.face, metrics, top);
    let text = line_steps(line, info.face, from, to, top, metrics);
    let last = string_steps(side, " │"@, info.face, metrics, top);
    let x = cell_left(from + at, metrics);
    let y = top as int;
    let w = metrics.cell_width as int;
    let end = (layout.rect.column + layout.rect.width) as int;
    assert(0 <= to * w <= end * w && 0 <= side * w <= end * w && (from + at) * w <= side * w && (w
        > 0 ==> (from + at) * w < side * w)) by (nonlinear_arith)
        requires
            0 <= from + at < side,
            0 <= to <= end,
            side <= end,
            w >= 0,
    ;
    law_line_shows_its_text(line, info.face, from, to, top, metrics, i, n);
    lemma_shown_after(first, text, x, y, clusters[n], paint);
    if w > 0 {
        lemma_string_leaves(side, " │"@, info, metrics, top, x, y);
    } else {
        crate::draw::lemma_narrow_line_leaves(
            crate::text::plain_line(" │"@),
            info.face,
            side,
            capped(side + crate::text::text_width(" │"@)) as nat,
            top,
            metrics,
            x,
            y,
        );
    }
    lemma_shown_before(first + text, last, x, y, clusters[n], paint);
}

/// What a row inside a frame shows is shown by the rows together.
proof fn lemma_body_shows(
    info: InfoView,
    layout: InfoLayout,
    metrics: CellMetrics,
    top_padding: usize,
    count: nat,
    row: nat,
    x: int,
    text: Seq<char>,
    paint: PaintView,
)
    requires
        row < count,
        count + 1 <= layout.rect.height,
        box_edge(info.style, layout, layout.rect.height as int, metrics, top_padding)
            <= usize::MAX,
        shows(
            body_row_steps(
                info,
                layout,
                metrics,
                info_row_top(info.style, layout, row + 1, metrics, top_padding),
                row,
            ),
            x,
            box_edge(info.style, layout, (row + 1) as int, metrics, top_padding),
            text,
            paint,
        ),
    ensures
        shows(
            body_steps(info, layout, metrics, top_padding, count),
            x,
            box_edge(info.style, layout, (row + 1) as int, metrics, top_padding),
            text,
            paint,
        ),
    decreases count,
{
    let last = (count - 1) as nat;
    let y = box_edge(info.style, layout, (row + 1) as int, metrics, top_padding);
    let before = body_steps(info, layout, metrics, top_padding, last);
    let top = info_row_top(info.style, layout, last + 1, metrics, top_padding);
    let own = body_row_steps(info, layout, metrics, top, last);
    if row == last {
        lemma_shown_after(before, own, x, y, text, paint);
    } else {
        lemma_body_shows(info, layout, metrics, top_padding, last, row, x, text, paint);
        lemma_box_edges(info.style, layout, metrics, top_padding, (last + 1) as int);
        lemma_edges_apart(info.style, layout, metrics, top_padding, (row + 1) as int, (last + 1) as int);
        lemma_body_row_leaves(info, layout, metrics, top, last, x, y);
        lemma_shown_before(before, own, x, y, text, paint);
    }
}

/// Framed information shows its lines: each cluster of a line that has a row in
/// the frame, and that begins within its sides, is shown in its own face, in that
/// row, two columns right of the left side of the box and behind the text before
/// it.
#[verifier::rlimit(40)]
pub proof fn law_framed_information_shows_its_lines(
    info: InfoView,
    menu: Option<PopupRect>,
    cols: usize,
    rows: usize,
    metrics: CellMetrics,
    top_padding: usize,
    window_height: usize,
    row: nat,
    i: int,
    n: int,
)
    requires
        info.style is Prompt || info.style is Modal,
        cols > 0,
        rows > 0,
        row < info.content.len(),
        0 <= i < info.content[row as int].len(),
        0 <= n < grapheme_clusters(info.content[row as int][i].contents).len(),
        grapheme_clusters(info.content[row as int][i].contents)[n] != seq!['\n'],
        is_visible(grapheme_clusters(info.content[row as int][i].contents)[n]),
        PADDING + cols * metrics.cell_width <= usize::MAX,
        ({
            let layout = info_layout(info, menu, cols, rows, metrics, window_height);
            &&& row < text_rows(info.style, layout)
            &&& line_width(info.content[row as int].take(i)) + clusters_width(
                grapheme_clusters(info.content[row as int][i].contents).take(n),
            ) < text_room(info.style, layout)
            &&& layout.rect.column + layout.rect.width <= cols
            &&& box_edge(info.style, layout, layout.rect.height as int, metrics, top_padding)
                <= usize::MAX
        }),
    ensures
        ({
            let layout = info_layout(info, menu, cols, rows, metrics, window_height);
            shows(
                info_steps(info, menu, cols, rows, metrics, top_padding, window_height),
                12 + (layout.rect.column + 2 + line_width(info.content[row as int].take(i))
                    + clusters_width(
                    grapheme_clusters(info.content[row as int][i].contents).take(n),
                )) * metrics.cell_width,
                box_edge(info.style, layout, (row + 1) as int, metrics, top_padding),
                grapheme_clusters(info.content[row as int][i].contents)[n],
                PaintView::Derived { base: info.face, face: info.content[row as int][i].face },
            )
        }),
{
    let layout = info_layout(info, menu, cols, rows, metrics, window_height);
    let line = info.content[row as int];
    let clusters = grapheme_clusters(line[i].contents);
    let at = line_width(line.take(i)) + clusters_width(clusters.take(n));
    let x = 12 + (layout.rect.column + 2 + at) * metrics.cell_width;
    let y = box_edge(info.style, layout, (row + 1) as int, metrics, top_padding);
    let paint = PaintView::Derived { base: info.face, face: line[i].face };
    let w = metrics.cell_width as int;
    let end = (layout.rect.column + layout.rect.width) as int;
    assert(end * w <= cols * w) by (nonlinear_arith)
        requires
            0 <= end <= cols,
            w >= 0,
    ;
    let top = info_row_top(info.style, layout, row + 1, metrics, top_padding);
    lemma_box_edges(info.style, layout, metrics, top_padding, (row + 1) as int);
    lemma_body_row_shows(info, layout, metrics, top, row, i, n);
    let count = less(layout.rect.height as int, 2);
    lemma_body_shows(
        info,
        layout,
        metrics,
        top_padding,
        count,
        row,
        x,
        clusters[n],
        paint,
    );
    let body = body_steps(info, layout, metrics, top_padding, count);
    let lower = less(layout.rect.height as int, 1);
    let lower_top = info_row_top(info.style, layout, lower, metrics, top_padding);
    let bottom = string_steps(
        layout.rect.column as nat,
        bottom_border(inner_columns(layout)),
        info.face,
        metrics,
        lower_top,
    );
    lemma_box_edges(info.style, layout, metrics, top_padding, lower as int);
    lemma_edges_apart(info.style, layout, metrics, top_padding, (row + 1) as int, lower as int);
    lemma_string_leaves(
        layout.rect.column as nat,
        bottom_border(inner_columns(layout)),
        info,
        metrics,
        lower_top,
        x,
        y,
    );
    lemma_shown_before(body, bottom, x, y, clusters[n], paint);
    let border = border_steps(
        info,
        layout,
        metrics,
        info_row_top(info.style, layout, 0, metrics, top_padding),
    );
    lemma_shown_after(border, body + bottom, x, y, clusters[n], paint);
    lemma_shown_after(
        block_steps(
            layout.rect.column as nat,
            layout.rect.width as nat,
            layout.rect.height as nat,
            info.face,
            metrics,
            info_row_top(info.style, layout, 0, metrics, top_padding),
        ),
        border + (body + bottom),
        x,
        y,
        clusters[n],
        paint,
    );
}

/// Information without a frame shows its lines: each cluster of a line that has a
/// row in the box, and that begins within the box, is shown in its own face, in
/// that row, at the left side of the box and behind the text before it.
#[verifier::rlimit(40)]
pub proof fn law_bare_information_shows_its_lines(
    info: InfoView,
    menu: Option<PopupRect>,
    cols: usize,
    rows: usize,
    metrics: CellMetrics,
    top_padding: usize,
    window_height: usize,
    row: nat,
    i: int,
    n: int,
)
    requires
        !(info.style is Prompt) && !(info.style is Modal),
        cols > 0,
        rows > 0,
        row < info.content.len(),
        0 <= i < info.content[row as int].len(),
        0 <= n < grapheme_clusters(info.content[row as int][i].contents).len(),
        grapheme_clusters(info.content[row as int][i].contents)[n] != seq!['\n'],
        is_visible(grapheme_clusters(info.content[row as int][i].contents)[n]),
        PADDING + cols * metrics.cell_width <= usize::MAX,
        ({
            let layout = info_layout(info, menu, cols, rows, metrics, window_height);
            &&& row < layout.rect.height
            &&& line_width(info.content[row as int].take(i)) + clusters_width(
                grapheme_clusters(info.content[row as int][i].contents).take(n),
            ) < layout.rect.width
            &&& layout.rect.column + layout.rect.width <= cols
            &&& box_edge(info.style, layout, layout.rect.height as int, metrics, top_padding)
                <= usize::MAX
        }),
    ensures
        ({
            let layout = info_layout(info, menu, cols, rows, metrics, window_height);
            shows(
                info_steps(info, menu, cols, rows, metrics, top_padding, window_height),
                12 + (layout.rect.column + line_width(info.content[row as int].take(i))
                    + clusters_width(
                    grapheme_clusters(info.content[row as int][i].contents).take(n),
                )) * metrics.cell_width,
                top_padding + (layout.rect.row + row) * metrics.cell_height,
                grapheme_clusters(info.content[row as int][i].contents)[n],
                PaintView::Derived { base: info.face, face: info.content[row as int][i].face },
            )
        }),
{
    let layout = info_layout(info, menu, cols, rows, metrics, window_height);
    let line = info.content[row as int];
    let clusters = grapheme_clusters(line[i].contents);
    let at = line_width(line.take(i)) + clusters_width(clusters.take(n));
    let column = layout.rect.column as nat;
    let x = cell_left(column + at, metrics);
    let y = box_edge(info.style, layout, row as int, metrics, top_padding);
    let paint = PaintView::Derived { base: info.face, face: line[i].face };
    let w = metrics.cell_width as int;
    let end = box_column(layout, layout.rect.width as nat);
    assert(end * w <= cols * w) by (nonlinear_arith)
        requires
            0 <= end <= cols,
            w >= 0,
    ;
    let top = row_pixel((layout.rect.row + row) as nat, metrics, top_padding);
    lemma_box_edges(info.style, layout, metrics, top_padding, row as int);
    law_line_shows_its_text(line, info.face, column, end, top, metrics, i, n);
    let count = smaller(info.content.len() as int, layout.rect.height as int) as nat;
    lemma_bare_shows(info, layout, metrics, top_padding, count, row, x, clusters[n], paint);
    lemma_shown_after(
        block_steps(
            column,
            layout.rect.width as nat,
            layout.rect.height as nat,
            info.face,
            metrics,
            info_row_top(info.style, layout, 0, metrics, top_padding),
        ),
        bare_steps(info, layout, metrics, top_padding, count),
        x,
        y,
        clusters[n],
        paint,
    );
}

/// What a line of a box without a frame shows is shown by the lines together.
proof fn lemma_bare_shows(
    info: InfoView,
    layout: InfoLayout,
    metrics: CellMetrics,
    top_padding: usize,
    count: nat,
    row: nat,
    x: int,
    text: Seq<char>,
    paint: PaintView,
)
    requires
        !(info.style is Prompt),
        row < count,
        count <= layout.rect.height,
        box_edge(info.style, layout, layout.rect.height as int, metrics, top_padding)
            <= usize::MAX,
        shows(
            line_steps(
                info.content[row as int],
                info.face,
                layout.rect.column as nat,
                box_column(layout, layout.rect.width as nat),
                row_pixel((layout.rect.row + row) as nat, metrics, top_padding),
                metrics,
            ),
            x,
            box_edge(info.style, layout, row as int, metrics, top_padding),
            text,
            paint,
        ),
    ensures
        shows(
            bare_steps(info, layout, metrics, top_padding, count),
            x,
            box_edge(info.style, layout, row as int, metrics, top_padding),
            text,
            paint,
        ),
    decreases count,
{
    let last = (count - 1) as nat;
    let y = box_edge(info.style, layout, row as int, metrics, top_padding);
    let before = bare_steps(info, layout, metrics, top_padding, last);
    let top = row_pixel((layout.rect.row + last) as nat, metrics, top_padding);
    let own = line_steps(
        info.content[last as int],
        info.face,
        layout.rect.column as nat,
        box_column(layout, layout.rect.width as nat),
        top,
        metrics,
    );
    if row == last {
        lemma_shown_after(before, own, x, y, text, paint);
    } else {
        lemma_bare_shows(info, layout, metrics, top_padding, last, row, x, text, paint);
        lemma_box_edges(info.style, layout, metrics, top_padding, last as int);
        lemma_edges_apart(info.style, layout, metrics, top_padding, row as int, last as int);
        lemma_line_leaves_before(
            info.content[last as int],
            info.face,
            layout.rect.column as nat,
            box_column(layout, layout.rect.width as nat),
            top,
            metrics,
            x,
            y,
        );
        lemma_shown_before(before, own, x, y, text, paint);
    }
}

/// Framed information shows its title in its upper side: each cluster of what is
/// left of the title between the sides is shown in its own face, in the first row,
/// behind the left half of that side; and the halves leave as much of it free, up
/// to one cell.
pub proof fn law_framed_information_shows_its_title(
    info: InfoView,
    menu: Option<PopupRect>,
    cols: usize,
    rows: usize,
    metrics: CellMetrics,
    top_padding: usize,
    window_height: usize,
    title: Seq<crate::messages::AtomView>,
    i: int,
    n: int,
)
    requires
        info.style is Prompt || info.style is Modal,
        cols > 0,
        rows > 0,
        info.title.len() > 0,
        PADDING + cols * metrics.cell_width <= usize::MAX,
        ({
            let layout = info_layout(info, menu, cols, rows, metrics, window_height);
            &&& text_room(info.style, layout) >= 2
            &&& layout.rect.height >= 2
            &&& layout.rect.column + layout.rect.width <= cols
            &&& title == truncated(info.title, (layout.rect.width - 6) as nat)
            &&& line_width(title) <= layout.rect.width - 6
            &&& box_edge(info.style, layout, layout.rect.height as int, metrics, top_padding)
                <= usize::MAX
        }),
        0 <= i < title.len(),
        0 <= n < grapheme_clusters(title[i].contents).len(),
        grapheme_clusters(title[i].contents)[n] != seq!['\n'],
        is_visible(grapheme_clusters(title[i].contents)[n]),
        line_width(title.take(i)) + clusters_width(grapheme_clusters(title[i].contents).take(n))
            < line_width(title),
    ensures
        ({
            let layout = info_layout(info, menu, cols, rows, metrics, window_height);
            let free = layout.rect.width - 6 - line_width(title);
            shows(
                info_steps(info, menu, cols, rows, metrics, top_padding, window_height),
                12 + (layout.rect.column + 3 + free / 2 + line_width(title.take(i))
                    + clusters_width(grapheme_clusters(title[i].contents).take(n)))
                    * metrics.cell_width,
                box_edge(info.style, layout, 0, metrics, top_padding),
                grapheme_clusters(title[i].contents)[n],
                PaintView::Derived { base: info.face, face: title[i].face },
            )
        }),
{
    let layout = info_layout(info, menu, cols, rows, metrics, window_height);
    let clusters = grapheme_clusters(title[i].contents);
    let at = line_width(title.take(i)) + clusters_width(clusters.take(n));
    let free = (layout.rect.width - 6 - line_width(title)) as nat;
    lemma_box_edges(info.style, layout, metrics, top_padding, 0);
    let top = info_row_top(info.style, layout, 0, metrics, top_padding);
    let w = metrics.cell_width as int;
    let end = (layout.rect.column + layout.rect.width) as int;
    assert(end * w <= cols * w) by (nonlinear_arith)
        requires
            0 <= end <= cols,
            w >= 0,
    ;
    lemma_border_shows_title(info, layout, metrics, top, title, i, n);
    lemma_information_shows_border(
        info,
        menu,
        cols,
        rows,
        metrics,
        top_padding,
        window_height,
        cell_left((layout.rect.column + 3 + free / 2 + at) as nat, metrics),
        clusters[n],
        PaintView::Derived { base: info.face, face: title[i].face },
    );
}

/// What the upper side of a frame shows is shown by the information.
proof fn lemma_information_shows_border(
    info: InfoView,
    menu: Option<PopupRect>,
    cols: usize,
    rows: usize,
    metrics: CellMetrics,
    top_padding: usize,
    window_height: usize,
    x: int,
    text: Seq<char>,
    paint: PaintView,
)
    requires
        info.style is Prompt || info.style is Modal,
        cols > 0,
        rows > 0,
        ({
            let layout = info_layout(info, menu, cols, rows, metrics, window_height);
            &&& layout.rect.width >= 4
            &&& layout.rect.height >= 2
            &&& box_edge(info.style, layout, layout.rect.height as int, metrics, top_padding)
                <= usize::MAX
            &&& shows(
                border_steps(
                    info,
                    layout,
                    metrics,
                    info_row_top(info.style, layout, 0, metrics, top_padding),
                ),
                x,
                box_edge(info.style, layout, 0, metrics, top_padding),
                text,
                paint,
            )
        }),
    ensures
        ({
            let layout = info_layout(info, menu, cols, rows, metrics, window_height);
            shows(
                info_steps(info, menu, cols, rows, metrics, top_padding, window_height),
                x,
                box_edge(info.style, layout, 0, metrics, top_padding),
                text,
                paint,
            )
        }),
{
    let layout = info_layout(info, menu, cols, rows, metrics, window_height);
    let height = layout.rect.height as int;
    let y = box_edge(info.style, layout, 0, metrics, top_padding);
    let ground = lemma_framed_parts(
        info,
        menu,
        cols,
        rows,
        metrics,
        top_padding,
        window_height,
    );
    let upper = info_row_top(info.style, layout, 0, metrics, top_padding);
    let border = border_steps(info, layout, metrics, upper);
    let count = (height - 2) as nat;
    let body = body_steps(info, layout, metrics, top_padding, count);
    let lower = info_row_top(info.style, layout, (height - 1) as nat, metrics, top_padding);
    let column = layout.rect.column as nat;
    let text_below = bottom_border((layout.rect.width - 4) as nat);
    let bottom = string_steps(column, text_below, info.face, metrics, lower);
    lemma_box_edges(info.style, layout, metrics, top_padding, height - 1);
    lemma_edges_apart(info.style, layout, metrics, top_padding, 0, height - 1);
    lemma_shown_after(ground, border, x, y, text, paint);
    lemma_body_leaves_first_row(info, layout, metrics, top_padding, count, x, y);
    lemma_shown_before(ground + border, body, x, y, text, paint);
    lemma_string_leaves(column, text_below, info, metrics, lower, x, y);
    lemma_shown_before(ground + border + body, bottom, x, y, text, paint);
}

/// The upper side of a frame shows the title between its halves.
proof fn lemma_border_shows_title(
    info: InfoView,
    layout: InfoLayout,
    metrics: CellMetrics,
    top: usize,
    title: Seq<crate::messages::AtomView>,
    i: int,
    n: int,
)
    requires
        info.title.len() > 0,
        layout.rect.width >= 6,
        layout.rect.column + layout.rect.width <= usize::MAX,
        PADDING + (layout.rect.column + layout.rect.width) * metrics.cell_width <= usize::MAX,
        title == truncated(info.title, (layout.rect.width - 6) as nat),
        line_width(title) <= layout.rect.width - 6,
        0 <= i < title.len(),
        0 <= n < grapheme_clusters(title[i].contents).len(),
        grapheme_clusters(title[i].contents)[n] != seq!['\n'],
        is_visible(grapheme_clusters(title[i].contents)[n]),
        line_width(title.take(i)) + clusters_width(grapheme_clusters(title[i].contents).take(n))
            < line_width(title),
    ensures
        ({
            let free = layout.rect.width - 6 - line_width(title);
            shows(
                border_steps(info, layout, metrics, top),
                12 + (layout.rect.column + 3 + free / 2 + line_width(title.take(i))
                    + clusters_width(grapheme_clusters(title[i].contents).take(n)))
                    * metrics.cell_width,
                top as int,
                grapheme_clusters(title[i].contents)[n],
                PaintView::Derived { base: info.face, face: title[i].face },
            )
        }),
{
    let clusters = grapheme_clusters(title[i].contents);
    let at = line_width(title.take(i)) + clusters_width(clusters.take(n));
    let free = (layout.rect.width - 6 - line_width(title)) as nat;
    let left = left_border(free);
    let right = right_border(free);
    reveal_strlit("╭─");
    reveal_strlit("─╮");
    reveal_strlit("┤");
    reveal_strlit("├");
    assert(left.len() == 3 + free / 2);
    assert(right.len() == 3 + (free - free / 2));
    let column = layout.rect.column as nat;
    let from = box_column(layout, left.len());
    let to = box_column(layout, layout.rect.width as nat);
    let side = box_column(layout, less(layout.rect.width as int, right.len() as int));
    assert(from == column + left.len());
    assert(side == from + line_width(title));
    let paint = PaintView::Derived { base: info.face, face: title[i].face };
    let y = top as int;
    let x = cell_left(from + at, metrics);
    let w = metrics.cell_width as int;
    assert(0 <= to * w && 0 <= side * w <= to * w && (from + at) * w <= side * w && (w > 0 ==> (from
        + at) * w < side * w)) by (nonlinear_arith)
        requires
            0 <= from + at < side,
            side <= to,
            w >= 0,
    ;
    law_line_shows_its_text(title, info.face, from, to, top, metrics, i, n);
    let first = string_steps(column, left, info.face, metrics, top);
    let text = line_steps(title, info.face, from, to, top, metrics);
    let last = string_steps(side, right, info.face, metrics, top);
    lemma_shown_after(first, text, x, y, clusters[n], paint);
    if w > 0 {
        lemma_string_leaves(side, right, info, metrics, top, x, y);
    } else {
        crate::draw::lemma_narrow_line_leaves(
            crate::text::plain_line(right),
            info.face,
            side,
            capped(side + crate::text::text_width(right)) as nat,
            top,
            metrics,
            x,
            y,
        );
    }
    lemma_shown_before(first + text, last, x, y, clusters[n], paint);
}

/// The rows inside a frame paint nothing in its upper side.
proof fn lemma_body_leaves_first_row(
    info: InfoView,
    layout: InfoLayout,
    metrics: CellMetrics,
    top_padding: usize,
    count: nat,
    x: int,
    y: int,
)
    requires
        count + 1 <= layout.rect.height,
        box_edge(info.style, layout, layout.rect.height as int, metrics, top_padding)
            <= usize::MAX,
        y == box_edge(info.style, layout, 0, metrics, top_padding),
    ensures
        leaves(body_steps(info, layout, metrics, top_padding, count), x, y),
    decreases count,
{
    if count > 0 {
        let last = (count - 1) as nat;
        let top = info_row_top(info.style, layout, last + 1, metrics, top_padding);
        lemma_body_leaves_first_row(info, layout, metrics, top_padding, last, x, y);
        lemma_box_edges(info.style, layout, metrics, top_padding, (last + 1) as int);
        lemma_edges_apart(info.style, layout, metrics, top_padding, 0, (last + 1) as int);
        lemma_body_row_leaves(info, layout, metrics, top, last, x, y);
        lemma_shown_before(
            body_steps(info, layout, metrics, top_padding, last),
            body_row_steps(info, layout, metrics, top, last),
            x,
            y,
            Seq::empty(),
            PaintView::Root { face: info.face },
        );
    }
}

/// The sides of a frame: a rounded corner at either end, and nothing but dashes
/// between them.
pub proof fn law_borders_have_round_corners(inner: nat, i: int)
    ensures
        ({
            let upper = plain_border(inner);
            let lower = bottom_border(inner);
            &&& upper.len() == inner + 4 && lower.len() == inner + 4
            &&& upper[0] == '╭' && upper.last() == '╮'
            &&& lower[0] == '╰' && lower.last() == '╯'
            &&& 0 < i < inner + 3 ==> upper[i] == '─' && lower[i] == '─'
        }),
        ({
            let blank = blank_row(inner);
            &&& blank.len() == inner + 4
            &&& blank[0] == '│' && blank.last() == '│'
            &&& 0 < i < inner + 3 ==> blank[i] == ' '
        }),
        ({
            let left = left_border(inner);
            let right = right_border(inner);
            &&& left.len() == 3 + inner / 2 && right.len() == 3 + inner - inner / 2
            &&& left[0] == '╭' && left.last() == '┤'
            &&& right[0] == '├' && right.last() == '╮'
            &&& 0 < i < left.len() - 1 ==> left[i] == '─'
            &&& 0 < i < right.len() - 1 ==> right[i] == '─'
        }),
{
    reveal_strlit("╭─");
    reveal_strlit("─╮");
    reveal_strlit("┤");
    reveal_strlit("├");
    reveal_strlit("╰─");
    reveal_strlit("─╯");
    reveal_strlit("│ ");
    reveal_strlit(" │");
}

/// The steps of framed information are those of its ground, of its upper side, of
/// the rows inside it and of its lower side.
proof fn lemma_framed_parts(
    info: InfoView,
    menu: Option<PopupRect>,
    cols: usize,
    rows: usize,
    metrics: CellMetrics,
    top_padding: usize,
    window_height: usize,
) -> (ground: Seq<DrawStepView>)
    requires
        info.style is Prompt || info.style is Modal,
        cols > 0,
        rows > 0,
        info_layout(info, menu, cols, rows, metrics, window_height).rect.width >= 4,
        info_layout(info, menu, cols, rows, metrics, window_height).rect.height >= 2,
    ensures
        ({
            let layout = info_layout(info, menu, cols, rows, metrics, window_height);
            let height = layout.rect.height as int;
            info_steps(info, menu, cols, rows, metrics, top_padding, window_height) == ground
                + border_steps(
                info,
                layout,
                metrics,
                info_row_top(info.style, layout, 0, metrics, top_padding),
            ) + body_steps(info, layout, metrics, top_padding, (height - 2) as nat) + string_steps(
                layout.rect.column as nat,
                bottom_border((layout.rect.width - 4) as nat),
                info.face,
                metrics,
                info_row_top(info.style, layout, (height - 1) as nat, metrics, top_padding),
            )
        }),
{
    let layout = info_layout(info, menu, cols, rows, metrics, window_height);
    let height = layout.rect.height as int;
    let upper = info_row_top(info.style, layout, 0, metrics, top_padding);
    let ground = block_steps(
        layout.rect.column as nat,
        layout.rect.width as nat,
        layout.rect.height as nat,
        info.face,
        metrics,
        upper,
    );
    let border = border_steps(info, layout, metrics, upper);
    let body = body_steps(info, layout, metrics, top_padding, (height - 2) as nat);
    let bottom = string_steps(
        layout.rect.column as nat,
        bottom_border((layout.rect.width - 4) as nat),
        info.face,
        metrics,
        info_row_top(info.style, layout, (height - 1) as nat, metrics, top_padding),
    );
    assert(ground + (border + (body + bottom)) =~= ground + border + body + bottom);
    ground
}

/// The sides of a frame stand at either end of every row inside it: the left one in
/// the first column of the box and the right one in the last two; and rows below
/// the text are blank between the sides.
#[verifier::rlimit(40)]
pub proof fn law_frame_has_its_sides(
    info: InfoView,
    menu: Option<PopupRect>,
    cols: usize,
    rows: usize,
    metrics: CellMetrics,
    top_padding: usize,
    window_height: usize,
    row: nat,
)
    requires
        info.style is Prompt || info.style is Modal,
        cols > 0,
        rows > 0,
        ({
            let layout = info_layout(info, menu, cols, rows, metrics, window_height);
            &&& layout.rect.width >= 4
            &&& row + 2 < layout.rect.height
            &&& layout.rect.column + layout.rect.width <= cols
            &&& box_edge(info.style, layout, layout.rect.height as int, metrics, top_padding)
                <= usize::MAX
        }),
    ensures
        ({
            let layout = info_layout(info, menu, cols, rows, metrics, window_height);
            let steps = info_steps(info, menu, cols, rows, metrics, top_padding, window_height);
            let left = layout.rect.column as nat;
            let right = (layout.rect.column + layout.rect.width - 2) as nat;
            let inner = (layout.rect.width - 4) as nat;
            let own = box_edge(info.style, layout, (row + 1) as int, metrics, top_padding) as usize;
            &&& row < info.content.len() ==> paints(
                steps,
                string_steps(left, "│ "@, info.face, metrics, own),
            ) && paints(steps, string_steps(right, " │"@, info.face, metrics, own))
            &&& row >= info.content.len() ==> paints(
                steps,
                string_steps(left, blank_row(inner), info.face, metrics, own),
            )
        }),
{
    let layout = info_layout(info, menu, cols, rows, metrics, window_height);
    let steps = info_steps(info, menu, cols, rows, metrics, top_padding, window_height);
    let height = layout.rect.height as int;
    lemma_box_edges(info.style, layout, metrics, top_padding, (row + 1) as int);
    let own = info_row_top(info.style, layout, row + 1, metrics, top_padding);
    let ground = lemma_framed_parts(
        info,
        menu,
        cols,
        rows,
        metrics,
        top_padding,
        window_height,
    );
    let border = border_steps(
        info,
        layout,
        metrics,
        info_row_top(info.style, layout, 0, metrics, top_padding),
    );
    let body = body_steps(info, layout, metrics, top_padding, (height - 2) as nat);
    let bottom = string_steps(
        layout.rect.column as nat,
        bottom_border((layout.rect.width - 4) as nat),
        info.face,
        metrics,
        info_row_top(info.style, layout, (height - 1) as nat, metrics, top_padding),
    );
    let part = body_row_steps(info, layout, metrics, own, row);
    let (front, back) = lemma_body_row_is_painted(
        info,
        layout,
        metrics,
        top_padding,
        (height - 2) as nat,
        row,
    );
    assert(steps =~= (ground + border + front) + part + (back + bottom));
    lemma_row_has_its_sides(
        info,
        layout,
        metrics,
        own,
        row,
        ground + border + front,
        back + bottom,
    );
}

/// A row inside a frame has its sides, whatever stands round it.
proof fn lemma_row_has_its_sides(
    info: InfoView,
    layout: InfoLayout,
    metrics: CellMetrics,
    top: usize,
    row: nat,
    before: Seq<DrawStepView>,
    after: Seq<DrawStepView>,
)
    requires
        layout.rect.width >= 4,
        layout.rect.column + layout.rect.width <= usize::MAX,
    ensures
        ({
            let steps = before + body_row_steps(info, layout, metrics, top, row) + after;
            let left = layout.rect.column as nat;
            let right = (layout.rect.column + layout.rect.width - 2) as nat;
            let inner = (layout.rect.width - 4) as nat;
            &&& row < info.content.len() ==> paints(
                steps,
                string_steps(left, "│ "@, info.face, metrics, top),
            ) && paints(steps, string_steps(right, " │"@, info.face, metrics, top))
            &&& row >= info.content.len() ==> paints(
                steps,
                string_steps(left, blank_row(inner), info.face, metrics, top),
            )
        }),
{
    let part = body_row_steps(info, layout, metrics, top, row);
    let left = layout.rect.column as nat;
    let right = (layout.rect.column + layout.rect.width - 2) as nat;
    let inner = (layout.rect.width - 4) as nat;
    if row < info.content.len() {
        let first = string_steps(left, "│ "@, info.face, metrics, top);
        let text = line_steps(
            info.content[row as int],
            info.face,
            box_column(layout, 2),
            box_column(layout, 2 + inner),
            top,
            metrics,
        );
        let last = string_steps(right, " │"@, info.face, metrics, top);
        assert(part == first + text + last);
        assert(before + part + after =~= before + first + (text + last + after));
        assert(before + part + after =~= (before + first + text) + last + after);
    } else {
        assert(part == string_steps(left, blank_row(inner), info.face, metrics, top));
    }
}

/// The lower side of a frame stands in the last row of its box, and the upper side,
/// where there is no title, in the first; both as wide as the box.
pub proof fn law_frame_has_its_upper_and_lower_side(
    info: InfoView,
    menu: Option<PopupRect>,
    cols: usize,
    rows: usize,
    metrics: CellMetrics,
    top_padding: usize,
    window_height: usize,
)
    requires
        info.style is Prompt || info.style is Modal,
        cols > 0,
        rows > 0,
        ({
            let layout = info_layout(info, menu, cols, rows, metrics, window_height);
            &&& layout.rect.width >= 4
            &&& layout.rect.height >= 2
            &&& box_edge(info.style, layout, layout.rect.height as int, metrics, top_padding)
                <= usize::MAX
        }),
    ensures
        ({
            let layout = info_layout(info, menu, cols, rows, metrics, window_height);
            let steps = info_steps(info, menu, cols, rows, metrics, top_padding, window_height);
            let left = layout.rect.column as nat;
            let inner = (layout.rect.width - 4) as nat;
            let upper = box_edge(info.style, layout, 0, metrics, top_padding) as usize;
            let lower = box_edge(
                info.style,
                layout,
                layout.rect.height - 1,
                metrics,
                top_padding,
            ) as usize;
            &&& paints(
                steps,
                string_steps(left, bottom_border(inner), info.face, metrics, lower),
            )
            &&& info.title.len() == 0 ==> paints(
                steps,
                string_steps(left, plain_border(inner), info.face, metrics, upper),
            )
        }),
{
    let none = Seq::<DrawStepView>::empty();
    let layout = info_layout(info, menu, cols, rows, metrics, window_height);
    let steps = info_steps(info, menu, cols, rows, metrics, top_padding, window_height);
    let height = layout.rect.height as int;
    lemma_box_edges(info.style, layout, metrics, top_padding, 0);
    lemma_box_edges(info.style, layout, metrics, top_padding, height - 1);
    let ground = lemma_framed_parts(
        info,
        menu,
        cols,
        rows,
        metrics,
        top_padding,
        window_height,
    );
    let upper = info_row_top(info.style, layout, 0, metrics, top_padding);
    let border = border_steps(info, layout, metrics, upper);
    let body = body_steps(info, layout, metrics, top_padding, (height - 2) as nat);
    let bottom = string_steps(
        layout.rect.column as nat,
        bottom_border((layout.rect.width - 4) as nat),
        info.face,
        metrics,
        info_row_top(info.style, layout, (height - 1) as nat, metrics, top_padding),
    );
    assert(steps =~= (ground + border + body) + bottom + none);
    assert(paints(steps, bottom));
    assert(steps =~= ground + border + (body + bottom));
    assert(paints(steps, border));
}

/// Each row inside a frame stands among the rows.
proof fn lemma_body_row_is_painted(
    info: InfoView,
    layout: InfoLayout,
    metrics: CellMetrics,
    top_padding: usize,
    count: nat,
    row: nat,
) -> (around: (Seq<DrawStepView>, Seq<DrawStepView>))
    requires
        row < count,
    ensures
        body_steps(info, layout, metrics, top_padding, count) == around.0 + body_row_steps(
            info,
            layout,
            metrics,
            info_row_top(info.style, layout, row + 1, metrics, top_padding),
            row,
        ) + around.1,
    decreases count,
{
    let last = (count - 1) as nat;
    let before = body_steps(info, layout, metrics, top_padding, last);
    let top = info_row_top(info.style, layout, last + 1, metrics, top_padding);
    let own = body_row_steps(info, layout, metrics, top, last);
    let all = body_steps(info, layout, metrics, top_padding, count);
    if row == last {
        assert(all =~= before + own + Seq::<DrawStepView>::empty());
        (before, Seq::empty())
    } else {
        let (front, back) = lemma_body_row_is_painted(
            info,
            layout,
            metrics,
            top_padding,
            last,
            row,
        );
        let part = body_row_steps(
            info,
            layout,
            metrics,
            info_row_top(info.style, layout, row + 1, metrics, top_padding),
            row,
        );
        assert(all =~= front + part + (back + own));
        (front, back + own)
    }
}

/// The rows inside a frame paint nothing outside their rows.
proof fn lemma_body_leaves(
    info: InfoView,
    layout: InfoLayout,
    metrics: CellMetrics,
    top_padding: usize,
    count: nat,
    x: int,
    y: int,
)
    requires
        count + 1 <= layout.rect.height,
        box_edge(info.style, layout, layout.rect.height as int, metrics, top_padding)
            <= usize::MAX,
        y < box_edge(info.style, layout, 0, metrics, top_padding) || y >= box_edge(
            info.style,
            layout,
            (count + 1) as int,
            metrics,
            top_padding,
        ),
    ensures
        leaves(body_steps(info, layout, metrics, top_padding, count), x, y),
    decreases count,
{
    if count > 0 {
        let last = (count - 1) as nat;
        let top = info_row_top(info.style, layout, last + 1, metrics, top_padding);
        lemma_box_edges(info.style, layout, metrics, top_padding, count as int);
        lemma_edges_apart(info.style, layout, metrics, top_padding, 0, count as int);
        lemma_edges_apart(info.style, layout, metrics, top_padding, count as int, (count + 1) as int);
        lemma_body_leaves(info, layout, metrics, top_padding, last, x, y);
        lemma_body_row_leaves(info, layout, metrics, top, last, x, y);
        lemma_shown_before(
            body_steps(info, layout, metrics, top_padding, last),
            body_row_steps(info, layout, metrics, top, last),
            x,
            y,
            Seq::empty(),
            PaintView::Root { face: info.face },
        );
    }
}

/// The upper side of a frame paints nothing outside its row.
proof fn lemma_border_leaves(
    info: InfoView,
    layout: InfoLayout,
    metrics: CellMetrics,
    top: usize,
    x: int,
    y: int,
)
    requires
        !(top <= y < top + metrics.cell_height),
    ensures
        leaves(border_steps(info, layout, metrics, top), x, y),
{
    let inner = inner_columns(layout);
    let column = layout.rect.column as nat;
    if info.title.len() == 0 || inner < 2 {
        lemma_string_leaves(column, plain_border(inner), info, metrics, top, x, y);
    } else {
        let paint = PaintView::Root { face: info.face };
        let title = truncated(info.title, (inner - 2) as nat);
        let dashes = less(inner as int, (line_width(title) + 2) as int);
        let left = left_border(dashes);
        let right = right_border(dashes);
        let from = box_column(layout, left.len());
        let to = box_column(layout, layout.rect.width as nat);
        let side = box_column(layout, less(layout.rect.width as int, right.len() as int));
        lemma_string_leaves(column, left, info, metrics, top, x, y);
        lemma_line_leaves_before(title, info.face, from, to, top, metrics, x, y);
        lemma_string_leaves(side, right, info, metrics, top, x, y);
        let first = string_steps(column, left, info.face, metrics, top);
        let text = line_steps(title, info.face, from, to, top, metrics);
        let last = string_steps(side, right, info.face, metrics, top);
        lemma_shown_before(first, text, x, y, Seq::empty(), paint);
        lemma_shown_before(first + text, last, x, y, Seq::empty(), paint);
    }
}

/// The lines of a box without a frame paint nothing outside their rows.
proof fn lemma_bare_leaves(
    info: InfoView,
    layout: InfoLayout,
    metrics: CellMetrics,
    top_padding: usize,
    count: nat,
    x: int,
    y: int,
)
    requires
        !(info.style is Prompt),
        count <= layout.rect.height,
        box_edge(info.style, layout, layout.rect.height as int, metrics, top_padding)
            <= usize::MAX,
        y < box_edge(info.style, layout, 0, metrics, top_padding) || y >= box_edge(
            info.style,
            layout,
            count as int,
            metrics,
            top_padding,
        ),
    ensures
        leaves(bare_steps(info, layout, metrics, top_padding, count), x, y),
    decreases count,
{
    if count > 0 {
        let last = (count - 1) as nat;
        let top = row_pixel((layout.rect.row + last) as nat, metrics, top_padding);
        lemma_box_edges(info.style, layout, metrics, top_padding, last as int);
        lemma_edges_apart(info.style, layout, metrics, top_padding, last as int, count as int);
        if last > 0 {
            lemma_edges_apart(info.style, layout, metrics, top_padding, 0, last as int);
        }
        lemma_bare_leaves(info, layout, metrics, top_padding, last, x, y);
        lemma_line_leaves_before(
            info.content[last as int],
            info.face,
            layout.rect.column as nat,
            box_column(layout, layout.rect.width as nat),
            top,
            metrics,
            x,
            y,
        );
        lemma_shown_before(
            bare_steps(info, layout, metrics, top_padding, last),
            line_steps(
                info.content[last as int],
                info.face,
                layout.rect.column as nat,
                box_column(layout, layout.rect.width as nat),
                top,
                metrics,
            ),
            x,
            y,
            Seq::empty(),
            PaintView::Root { face: info.face },
        );
    }
}

/// Information paints nothing above its first row, and nothing below its last,
/// however many lines it has.
#[verifier::rlimit(40)]
pub proof fn law_information_keeps_to_its_rows(
    info: InfoView,
    menu: Option<PopupRect>,
    cols: usize,
    rows: usize,
    metrics: CellMetrics,
    top_padding: usize,
    window_height: usize,
    x: int,
    y: int,
)
    requires
        PADDING + cols * metrics.cell_width <= usize::MAX,
        ({
            let layout = info_layout(info, menu, cols, rows, metrics, window_height);
            &&& layout.rect.column + layout.rect.width <= cols
            &&& box_edge(info.style, layout, layout.rect.height as int, metrics, top_padding)
                <= usize::MAX
            &&& y < box_edge(info.style, layout, 0, metrics, top_padding) || y >= box_edge(
                info.style,
                layout,
                layout.rect.height as int,
                metrics,
                top_padding,
            )
        }),
    ensures
        leaves(info_steps(info, menu, cols, rows, metrics, top_padding, window_height), x, y),
{
    let layout = info_layout(info, menu, cols, rows, metrics, window_height);
    let steps = info_steps(info, menu, cols, rows, metrics, top_padding, window_height);
    if cols > 0 && rows > 0 {
        let paint = PaintView::Root { face: info.face };
        let height = layout.rect.height as nat;
        let upper = info_row_top(info.style, layout, 0, metrics, top_padding);
        let column = layout.rect.column as nat;
        let width = layout.rect.width as nat;
        let block = block_steps(column, width, height, info.face, metrics, upper);
        let w = metrics.cell_width as int;
        let h = metrics.cell_height as int;
        let r = layout.rect.row as int;
        lemma_box_edges(info.style, layout, metrics, top_padding, 0);
        assert((column + width) * w <= cols * w) by (nonlinear_arith)
            requires
                0 <= column + width <= cols,
                w >= 0,
        ;
        assert((r + 0) * h + height * h == (r + height) * h && 0 * h == 0) by (nonlinear_arith);
        crate::draw::lemma_block_leaves(
            column,
            width,
            height,
            info.face,
            metrics,
            upper,
            x,
            y,
        );
        if info.style is Prompt || info.style is Modal {
            let framed = framed_steps(info, layout, metrics, top_padding);
            if layout.rect.width >= 2 && layout.rect.height >= 2 {
                let border = border_steps(info, layout, metrics, upper);
                let count = less(layout.rect.height as int, 2);
                let body = body_steps(info, layout, metrics, top_padding, count);
                let lower = less(layout.rect.height as int, 1);
                let lower_top = info_row_top(info.style, layout, lower, metrics, top_padding);
                let bottom = string_steps(
                    column,
                    bottom_border(inner_columns(layout)),
                    info.face,
                    metrics,
                    lower_top,
                );
                lemma_box_edges(info.style, layout, metrics, top_padding, lower as int);
                lemma_edges_apart(info.style, layout, metrics, top_padding, 0, lower as int);
                lemma_edges_apart(
                    info.style,
                    layout,
                    metrics,
                    top_padding,
                    lower as int,
                    height as int,
                );
                lemma_border_leaves(info, layout, metrics, upper, x, y);
                lemma_body_leaves(info, layout, metrics, top_padding, count, x, y);
                lemma_string_leaves(
                    column,
                    bottom_border(inner_columns(layout)),
                    info,
                    metrics,
                    lower_top,
                    x,
                    y,
                );
                lemma_shown_before(body, bottom, x, y, Seq::empty(), paint);
                lemma_shown_before(border, body + bottom, x, y, Seq::empty(), paint);
                assert(framed == border + (body + bottom));
            }
            lemma_shown_before(block, framed, x, y, Seq::empty(), paint);
        } else {
            let count = smaller(info.content.len() as int, layout.rect.height as int) as nat;
            if count < height {
                lemma_edges_apart(
                    info.style,
                    layout,
                    metrics,
                    top_padding,
                    count as int,
                    height as int,
                );
            }
            lemma_bare_leaves(info, layout, metrics, top_padding, count, x, y);
            lemma_shown_before(
                block,
                bare_steps(info, layout, metrics, top_padding, count),
                x,
                y,
                Seq::empty(),
                paint,
            );
        }
    }
}

} // verus!
