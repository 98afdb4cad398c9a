//! The steps that paint a whole window.

use vstd::prelude::*;

use crate::app::{AppState, AppView};
use crate::draw::{
    cell_left, edge_below, has_ground, is_visible, lemma_shown_after, lemma_shown_before, push_step,
    shows, DrawStep, DrawStepView, Paint, PaintView,
};
use crate::info::{info_steps, render_info};
use crate::layout::{less, CellMetrics, LayoutMetrics, PADDING};
use crate::menu::{drawn_menu, menu_steps, render_menu};
use crate::popup::PopupRect;
use crate::render::{
    cursor_is_shown, cursor_steps, grid_steps, law_cursor_keeps_to_its_cell,
    law_grid_shows_every_line, law_status_line_fills_its_row, lines_shown, render_grid_cursor,
    render_grid_lines, render_status, render_window_title, status_steps, title_steps,
};
use crate::text::{clusters_width, grapheme_clusters, line_width};

verus! {

/// The rows that are left for the text when the status line has taken its own.
pub open spec fn content_rows(state: AppView, layout: LayoutMetrics) -> usize {
    let status_rows: int = if state.status is Some {
        1
    } else {
        0
    };
    less(layout.rows as int, status_rows) as usize
}

/// The steps that paint the menu, if there is one to paint.
pub open spec fn shown_menu_steps(
    state: AppView,
    layout: LayoutMetrics,
    metrics: CellMetrics,
    height: usize,
) -> Seq<DrawStepView> {
    match state.menu {
        Some(menu) => match drawn_menu(
            menu,
            layout.cols,
            content_rows(state, layout),
            metrics,
            height,
        ) {
            Some(place) => menu_steps(menu, place, metrics, layout.top_padding),
            None => Seq::empty(),
        },
        None => Seq::empty(),
    }
}

/// Where the menu stands, if there is one to paint.
pub open spec fn menu_rect(
    state: AppView,
    layout: LayoutMetrics,
    metrics: CellMetrics,
    height: usize,
) -> Option<PopupRect> {
    match state.menu {
        Some(menu) => match drawn_menu(
            menu,
            layout.cols,
            content_rows(state, layout),
            metrics,
            height,
        ) {
            Some(place) => Some(PopupRect { rect: place.rect, top: place.top }),
            None => None,
        },
        None => None,
    }
}

/// The steps that paint a window: background, title, text, cursor, status line,
/// menu and information, each over what came before.
pub open spec fn canvas_steps(
    state: AppView,
    metrics: CellMetrics,
    title_metrics: CellMetrics,
    layout: LayoutMetrics,
    width: usize,
    height: usize,
    transparent_menubar: bool,
) -> Seq<DrawStepView> {
    let face = state.grid.default_face;
    let rows = content_rows(state, layout);
    seq![DrawStepView::Clear { paint: PaintView::Root { face } }] + title_steps(
        state.window_title,
        face,
        title_metrics,
        layout,
        width,
        transparent_menubar,
    ) + grid_steps(
        state.grid.lines,
        face,
        layout.cols,
        lines_shown(state.grid.lines, rows),
        metrics,
        layout.top_padding,
    ) + cursor_steps(state.grid, layout.cols, rows, metrics, layout.top_padding) + (
    match state.status {
        Some(status) => status_steps(layout.cols, status, metrics, height),
        None => Seq::empty(),
    }) + shown_menu_steps(state, layout, metrics, height) + (match state.info {
        Some(info) => info_steps(
            info,
            menu_rect(state, layout, metrics, height),
            layout.cols,
            rows,
            metrics,
            layout.top_padding,
            height,
        ),
        None => Seq::empty(),
    })
}

/// The steps that paint a window of `width` by `height` pixels.
pub fn render_canvas(
    state: &AppState,
    metrics: &CellMetrics,
    title_metrics: &CellMetrics,
    layout: LayoutMetrics,
    width: usize,
    height: usize,
    transparent_menubar: bool,
) -> (steps: Vec<DrawStep>)
    ensures
        steps.deep_view() == canvas_steps(
            state.deep_view(),
            *metrics,
            *title_metrics,
            layout,
            width,
            height,
            transparent_menubar,
        ),
{
    let mut steps: Vec<DrawStep> = Vec::new();
    let face = &state.grid.default_face;
    push_step(&mut steps, DrawStep::Clear { paint: Paint::Root { face: face.clone() } });
    assert(steps.deep_view() =~= seq![
        DrawStepView::Clear { paint: PaintView::Root { face: face.deep_view() } },
    ]);
    render_window_title(
        &mut steps,
        state.window_title.as_str(),
        face,
        title_metrics,
        layout,
        width,
        transparent_menubar,
    );
    let status_rows: usize = if state.status.is_some() {
        1
    } else {
        0
    };
    let rows = layout.rows.saturating_sub(status_rows);
    let cols = layout.cols;
    render_grid_lines(&mut steps, &state.grid, cols, rows, metrics, layout.top_padding);
    render_grid_cursor(&mut steps, &state.grid, cols, rows, metrics, layout.top_padding);
    let ghost text = steps.deep_view();
    assert(text + Seq::empty() =~= text);
    if let Some(status) = &state.status {
        render_status(&mut steps, cols, status, metrics, height);
    }
    let ghost above = steps.deep_view();
    assert(above + Seq::empty() =~= above);
    let place = match &state.menu {
        Some(menu) => render_menu(
            &mut steps,
            menu,
            cols,
            rows,
            metrics,
            layout.top_padding,
            height,
        ),
        None => None,
    };
    let ghost below = steps.deep_view();
    assert(below + Seq::empty() =~= below);
    assert(below == above + shown_menu_steps(state.deep_view(), layout, *metrics, height));
    assert(place == menu_rect(state.deep_view(), layout, *metrics, height));
    if let Some(info) = &state.info {
        render_info(
            &mut steps,
            info,
            place,
            cols,
            rows,
            metrics,
            layout.top_padding,
            height,
        );
    }
    steps
}

/// The steps of a window up to its cursor, and those of its status line.
spec fn lower_steps(
    state: AppView,
    metrics: CellMetrics,
    title_metrics: CellMetrics,
    layout: LayoutMetrics,
    width: usize,
    transparent_menubar: bool,
) -> Seq<DrawStepView> {
    let face = state.grid.default_face;
    let rows = content_rows(state, layout);
    seq![DrawStepView::Clear { paint: PaintView::Root { face } }] + title_steps(
        state.window_title,
        face,
        title_metrics,
        layout,
        width,
        transparent_menubar,
    ) + grid_steps(
        state.grid.lines,
        face,
        layout.cols,
        lines_shown(state.grid.lines, rows),
        metrics,
        layout.top_padding,
    )
}

/// The steps of the status line, if there is one.
spec fn shown_status_steps(
    state: AppView,
    metrics: CellMetrics,
    layout: LayoutMetrics,
    height: usize,
) -> Seq<DrawStepView> {
    match state.status {
        Some(status) => status_steps(layout.cols, status, metrics, height),
        None => Seq::empty(),
    }
}

/// Without menu and information a window is its text, its cursor and its status
/// line.
proof fn lemma_plain_window(
    state: AppView,
    metrics: CellMetrics,
    title_metrics: CellMetrics,
    layout: LayoutMetrics,
    width: usize,
    height: usize,
    transparent_menubar: bool,
)
    requires
        state.menu is None,
        state.info is None,
    ensures
        canvas_steps(
            state,
            metrics,
            title_metrics,
            layout,
            width,
            height,
            transparent_menubar,
        ) == lower_steps(state, metrics, title_metrics, layout, width, transparent_menubar)
            + cursor_steps(
            state.grid,
            layout.cols,
            content_rows(state, layout),
            metrics,
            layout.top_padding,
        ) + shown_status_steps(state, metrics, layout, height),
{
    let all = lower_steps(state, metrics, title_metrics, layout, width, transparent_menubar)
        + cursor_steps(
        state.grid,
        layout.cols,
        content_rows(state, layout),
        metrics,
        layout.top_padding,
    ) + shown_status_steps(state, metrics, layout, height);
    assert(all + Seq::empty() + Seq::empty() =~= all);
}

/// Rows above the last one stand above the status line.
proof fn lemma_row_above_status(
    state: AppView,
    metrics: CellMetrics,
    layout: LayoutMetrics,
    height: usize,
    row: nat,
)
    requires
        row < content_rows(state, layout),
        metrics.cell_height > 0,
        layout.top_padding + layout.rows * metrics.cell_height + PADDING <= height,
    ensures
        state.status is Some ==> edge_below(layout.top_padding as int, row, metrics) < height
            - PADDING - metrics.cell_height,
        layout.top_padding + content_rows(state, layout) * metrics.cell_height <= usize::MAX,
        12 + metrics.cell_height <= height,
{
    let h = metrics.cell_height as int;
    let rows = layout.rows as int;
    let inner = content_rows(state, layout) as int;
    assert(row * h + h <= inner * h <= rows * h && (inner + 1 <= rows ==> inner * h + h <= rows
        * h)) by (nonlinear_arith)
        requires
            0 <= row < inner <= rows,
            h > 0,
    ;
    assert(0 <= row * h) by (nonlinear_arith)
        requires
            0 <= row,
            h > 0,
    ;
}

/// A window shows its text: every cluster of every line that has a row above the
/// status line, but for the cell that the cursor stands on, is shown in its own
/// row, column and face, where no menu and no information covers it.
#[verifier::rlimit(40)]
pub proof fn law_window_shows_its_text(
    state: AppView,
    metrics: CellMetrics,
    title_metrics: CellMetrics,
    layout: LayoutMetrics,
    width: usize,
    height: usize,
    transparent_menubar: bool,
    row: nat,
    i: int,
    n: int,
)
    requires
        state.menu is None,
        state.info is None,
        row + (if state.status is Some {
            1int
        } else {
            0int
        }) < layout.rows,
        row < state.grid.lines.len(),
        0 <= i < state.grid.lines[row as int].len(),
        0 <= n < grapheme_clusters(state.grid.lines[row as int][i].contents).len(),
        grapheme_clusters(state.grid.lines[row as int][i].contents)[n] != seq!['\n'],
        is_visible(grapheme_clusters(state.grid.lines[row as int][i].contents)[n]),
        line_width(state.grid.lines[row as int].take(i)) + clusters_width(
            grapheme_clusters(state.grid.lines[row as int][i].contents).take(n),
        ) < layout.cols,
        state.grid.cursor_pos.line != row || state.grid.cursor_pos.column != line_width(
            state.grid.lines[row as int].take(i),
        ) + clusters_width(grapheme_clusters(state.grid.lines[row as int][i].contents).take(n)),
        metrics.cell_width > 0,
        metrics.cell_height > 0,
        PADDING + layout.cols * metrics.cell_width <= usize::MAX,
        layout.top_padding + layout.rows * metrics.cell_height + PADDING <= height,
    ensures
        shows(
            canvas_steps(
                state,
                metrics,
                title_metrics,
                layout,
                width,
                height,
                transparent_menubar,
            ),
            12 + (line_width(state.grid.lines[row as int].take(i)) + clusters_width(
                grapheme_clusters(state.grid.lines[row as int][i].contents).take(n),
            )) * metrics.cell_width,
            layout.top_padding + row * metrics.cell_height,
            grapheme_clusters(state.grid.lines[row as int][i].contents)[n],
            PaintView::Derived {
                base: state.grid.default_face,
                face: state.grid.lines[row as int][i].face,
            },
        ),
{
    let grid = state.grid;
    let line = grid.lines[row as int];
    let text = grapheme_clusters(line[i].contents)[n];
    let at = line_width(line.take(i)) + clusters_width(
        grapheme_clusters(line[i].contents).take(n),
    );
    let paint = PaintView::Derived { base: grid.default_face, face: line[i].face };
    let rows = content_rows(state, layout);
    let x = cell_left(at, metrics);
    let y = edge_below(layout.top_padding as int, row, metrics);
    let w = metrics.cell_width as int;
    let h = metrics.cell_height as int;
    lemma_row_above_status(state, metrics, layout, height, row);
    lemma_plain_window(
        state,
        metrics,
        title_metrics,
        layout,
        width,
        height,
        transparent_menubar,
    );
    let lower = lower_steps(state, metrics, title_metrics, layout, width, transparent_menubar);
    let cursor = cursor_steps(grid, layout.cols, rows, metrics, layout.top_padding);
    let status = shown_status_steps(state, metrics, layout, height);
    law_grid_shows_every_line(
        grid.lines,
        grid.default_face,
        layout.cols,
        rows,
        metrics,
        layout.top_padding,
        row,
        i,
        n,
    );
    lemma_shown_after(
        seq![DrawStepView::Clear { paint: PaintView::Root { face: grid.default_face } }]
            + title_steps(
            state.window_title,
            grid.default_face,
            title_metrics,
            layout,
            width,
            transparent_menubar,
        ),
        grid_steps(
            grid.lines,
            grid.default_face,
            layout.cols,
            lines_shown(grid.lines, rows),
            metrics,
            layout.top_padding,
        ),
        x,
        y,
        text,
        paint,
    );
    assert(shows(lower, x, y, text, paint));
    let column = grid.cursor_pos.column as int;
    let cursor_row = grid.cursor_pos.line as int;
    assert(at < column ==> at * w < column * w) by (nonlinear_arith)
        requires
            w > 0,
    ;
    assert(column < at ==> (column + 1) * w <= at * w) by (nonlinear_arith)
        requires
            w > 0,
    ;
    assert(row < cursor_row ==> row * h < cursor_row * h) by (nonlinear_arith)
        requires
            h > 0,
    ;
    assert(cursor_row < row ==> (cursor_row + 1) * h <= row * h) by (nonlinear_arith)
        requires
            h > 0,
    ;
    law_cursor_keeps_to_its_cell(grid, layout.cols, rows, metrics, layout.top_padding, x, y);
    lemma_shown_before(lower, cursor, x, y, text, paint);
    if let Some(line) = state.status {
        law_status_line_fills_its_row(layout.cols, line, metrics, height, 0, x, y);
    }
    lemma_shown_before(lower + cursor, status, x, y, text, paint);
}

/// A window shows its cursor over its text: what the cursor's own steps show in
/// its cell is what the window shows there, where no menu and no information
/// covers it.
pub proof fn law_window_shows_its_cursor(
    state: AppView,
    metrics: CellMetrics,
    title_metrics: CellMetrics,
    layout: LayoutMetrics,
    width: usize,
    height: usize,
    transparent_menubar: bool,
    text: Seq<char>,
    face: crate::messages::FaceView,
)
    requires
        state.menu is None,
        state.info is None,
        state.grid.cursor_pos.line + (if state.status is Some {
            1int
        } else {
            0int
        }) < layout.rows,
        cursor_is_shown(
            cursor_steps(
                state.grid,
                layout.cols,
                (layout.rows - (if state.status is Some {
                    1int
                } else {
                    0int
                })) as usize,
                metrics,
                layout.top_padding,
            ),
            state.grid,
            metrics,
            layout.top_padding,
            text,
            face,
        ),
        metrics.cell_width > 0,
        metrics.cell_height > 0,
        PADDING + layout.cols * metrics.cell_width <= usize::MAX,
        layout.top_padding + layout.rows * metrics.cell_height + PADDING <= height,
    ensures
        cursor_is_shown(
            canvas_steps(
                state,
                metrics,
                title_metrics,
                layout,
                width,
                height,
                transparent_menubar,
            ),
            state.grid,
            metrics,
            layout.top_padding,
            text,
            face,
        ),
{
    let rows = content_rows(state, layout);
    let row = state.grid.cursor_pos.line as nat;
    let x = 12 + state.grid.cursor_pos.column * metrics.cell_width;
    let y = edge_below(layout.top_padding as int, row, metrics);
    let paint = PaintView::Derived { base: state.grid.default_face, face };
    lemma_row_above_status(state, metrics, layout, height, row);
    lemma_plain_window(
        state,
        metrics,
        title_metrics,
        layout,
        width,
        height,
        transparent_menubar,
    );
    let lower = lower_steps(state, metrics, title_metrics, layout, width, transparent_menubar);
    let cursor = cursor_steps(state.grid, layout.cols, rows, metrics, layout.top_padding);
    let status = shown_status_steps(state, metrics, layout, height);
    lemma_shown_after(lower, cursor, x, y, text, paint);
    if let Some(line) = state.status {
        law_status_line_fills_its_row(layout.cols, line, metrics, height, 0, x, y);
    }
    lemma_shown_before(lower + cursor, status, x, y, text, paint);
}

/// A window shows its status line over its text, where no menu and no information
/// covers it: what the steps of the status line show is what the window shows.
pub proof fn law_window_shows_its_status_line(
    state: AppView,
    metrics: CellMetrics,
    title_metrics: CellMetrics,
    layout: LayoutMetrics,
    width: usize,
    height: usize,
    transparent_menubar: bool,
    x: int,
    y: int,
    text: Seq<char>,
    paint: PaintView,
)
    requires
        state.menu is None,
        state.info is None,
        state.status is Some,
    ensures
        shows(status_steps(layout.cols, state.status->0, metrics, height), x, y, text, paint)
            ==> shows(
            canvas_steps(
                state,
                metrics,
                title_metrics,
                layout,
                width,
                height,
                transparent_menubar,
            ),
            x,
            y,
            text,
            paint,
        ),
        has_ground(status_steps(layout.cols, state.status->0, metrics, height), x, y, paint)
            ==> has_ground(
            canvas_steps(
                state,
                metrics,
                title_metrics,
                layout,
                width,
                height,
                transparent_menubar,
            ),
            x,
            y,
            paint,
        ),
{
    lemma_plain_window(
        state,
        metrics,
        title_metrics,
        layout,
        width,
        height,
        transparent_menubar,
    );
    let lower = lower_steps(state, metrics, title_metrics, layout, width, transparent_menubar);
    let cursor = cursor_steps(
        state.grid,
        layout.cols,
        content_rows(state, layout),
        metrics,
        layout.top_padding,
    );
    lemma_shown_after(
        lower + cursor,
        shown_status_steps(state, metrics, layout, height),
        x,
        y,
        text,
        paint,
    );
}

/// A window shows its menu over its text and its status line, where no information
/// covers it: what the menu's steps show is what the window shows. The menu has the
/// rows above the status line, and the columns of the grid, to stand in.
pub proof fn law_window_shows_its_menu(
    state: AppView,
    metrics: CellMetrics,
    title_metrics: CellMetrics,
    layout: LayoutMetrics,
    width: usize,
    height: usize,
    transparent_menubar: bool,
    x: int,
    y: int,
    text: Seq<char>,
    paint: PaintView,
)
    requires
        state.menu is Some,
        state.info is None,
        layout.rows >= 1,
    ensures
        ({
            let rows = (layout.rows - (if state.status is Some {
                1int
            } else {
                0int
            })) as usize;
            let canvas = canvas_steps(
                state,
                metrics,
                title_metrics,
                layout,
                width,
                height,
                transparent_menubar,
            );
            drawn_menu(state.menu->0, layout.cols, rows, metrics, height) matches Some(place) ==> {
                let own = menu_steps(state.menu->0, place, metrics, layout.top_padding);
                &&& shows(own, x, y, text, paint) ==> shows(canvas, x, y, text, paint)
                &&& has_ground(own, x, y, paint) ==> has_ground(canvas, x, y, paint)
            }
        }),
{
    let lower = lower_steps(state, metrics, title_metrics, layout, width, transparent_menubar)
        + cursor_steps(
        state.grid,
        layout.cols,
        content_rows(state, layout),
        metrics,
        layout.top_padding,
    ) + shown_status_steps(state, metrics, layout, height);
    let own = shown_menu_steps(state, layout, metrics, height);
    assert(lower + own + Seq::empty() =~= lower + own);
    lemma_shown_after(lower, own, x, y, text, paint);
}

/// A window shows its information over all else: what the information's steps show
/// is what the window shows. The information stands beside the menu that is shown,
/// in the rows above the status line and the columns of the grid.
pub proof fn law_window_shows_its_information(
    state: AppView,
    metrics: CellMetrics,
    title_metrics: CellMetrics,
    layout: LayoutMetrics,
    width: usize,
    height: usize,
    transparent_menubar: bool,
    x: int,
    y: int,
    text: Seq<char>,
    paint: PaintView,
)
    requires
        state.info is Some,
        layout.rows >= 1,
    ensures
        ({
            let rows = (layout.rows - (if state.status is Some {
                1int
            } else {
                0int
            })) as usize;
            let beside = match state.menu {
                Some(menu) => match drawn_menu(menu, layout.cols, rows, metrics, height) {
                    Some(place) => Some(PopupRect { rect: place.rect, top: place.top }),
                    None => None,
                },
                None => None,
            };
            let canvas = canvas_steps(
                state,
                metrics,
                title_metrics,
                layout,
                width,
                height,
                transparent_menubar,
            );
            let own = info_steps(
                state.info->0,
                beside,
                layout.cols,
                rows,
                metrics,
                layout.top_padding,
                height,
            );
            &&& shows(own, x, y, text, paint) ==> shows(canvas, x, y, text, paint)
            &&& has_ground(own, x, y, paint) ==> has_ground(canvas, x, y, paint)
        }),
{
    let lower = lower_steps(state, metrics, title_metrics, layout, width, transparent_menubar)
        + cursor_steps(
        state.grid,
        layout.cols,
        content_rows(state, layout),
        metrics,
        layout.top_padding,
    ) + shown_status_steps(state, metrics, layout, height) + shown_menu_steps(
        state,
        layout,
        metrics,
        height,
    );
    let own = info_steps(
        state.info->0,
        menu_rect(state, layout, metrics, height),
        layout.cols,
        content_rows(state, layout),
        metrics,
        layout.top_padding,
        height,
    );
    lemma_shown_after(lower, own, x, y, text, paint);
}

/// A window is cleared in the default face before anything else is painted, once,
/// and its title is written in the same face by the metrics of the title.
pub proof fn law_window_is_cleared_first(
    state: AppView,
    metrics: CellMetrics,
    title_metrics: CellMetrics,
    layout: LayoutMetrics,
    width: usize,
    height: usize,
    transparent_menubar: bool,
)
    ensures
        ({
            let canvas = canvas_steps(
                state,
                metrics,
                title_metrics,
                layout,
                width,
                height,
                transparent_menubar,
            );
            let title = title_steps(
                state.window_title,
                state.grid.default_face,
                title_metrics,
                layout,
                width,
                transparent_menubar,
            );
            &&& canvas[0] == (DrawStepView::Clear {
                paint: PaintView::Root { face: state.grid.default_face },
            })
            &&& title.len() > 0 ==> canvas[1] == title[0]
        }),
{
}

} // verus!
