//! What is to be painted, as a list of drawing steps in window pixels.

use vstd::prelude::*;

use crate::layout::{capped_mul, CellMetrics, PADDING};
use crate::messages::{Atom, AtomView, Face, FaceView};
use crate::text::{
    atom_display_width, capped, cluster_display_width, clusters_width, ends_line,
    grapheme_clusters, is_line_end, line_width, plain_atoms, plain_line, text_chars, text_clusters,
    text_width,
};

verus! {

/// The face that a step is painted in: one that stands alone, or one that fills
/// its gaps from a base.
#[derive(Debug, PartialEq, Eq)]
pub enum Paint {
    Root { face: Face },
    Derived { base: Face, face: Face },
}

/// A paint as sequences of characters.
pub enum PaintView {
    Root { face: FaceView },
    Derived { base: FaceView, face: FaceView },
}

impl DeepView for Paint {
    type V = PaintView;

    open spec fn deep_view(&self) -> PaintView {
        match self {
            Paint::Root { face } => PaintView::Root { face: face.deep_view() },
            Paint::Derived { base, face } => PaintView::Derived {
                base: base.deep_view(),
                face: face.deep_view(),
            },
        }
    }
}

impl Clone for Paint {
    fn clone(&self) -> (copy: Self)
        ensures
            copy.deep_view() == self.deep_view(),
    {
        match self {
            Paint::Root { face } => Paint::Root { face: face.clone() },
            Paint::Derived { base, face } => Paint::Derived {
                base: base.clone(),
                face: face.clone(),
            },
        }
    }
}

/// One step of painting a window. Positions and sizes are in pixels.
#[derive(Debug, PartialEq, Eq)]
pub enum DrawStep {
    /// Paint the whole window in the background of a face.
    Clear { paint: Paint },
    /// Paint a rectangle in the background of a face.
    Fill { left: usize, top: usize, width: usize, height: usize, paint: Paint },
    /// Write one cluster; `top` is the upper edge of its row.
    Text { left: usize, top: usize, text: String, paint: Paint },
    /// Add the underline and the strike-through of a face to part of a row.
    Decorate { left: usize, top: usize, width: usize, paint: Paint },
    /// Write the window title, centred between the window's edges.
    Title { top: usize, text: String, paint: Paint },
}

/// A drawing step with its texts as sequences of characters.
pub enum DrawStepView {
    Clear { paint: PaintView },
    Fill { left: usize, top: usize, width: usize, height: usize, paint: PaintView },
    Text { left: usize, top: usize, text: Seq<char>, paint: PaintView },
    Decorate { left: usize, top: usize, width: usize, paint: PaintView },
    Title { top: usize, text: Seq<char>, paint: PaintView },
}

impl DeepView for DrawStep {
    type V = DrawStepView;

    open spec fn deep_view(&self) -> DrawStepView {
        match self {
            DrawStep::Clear { paint } => DrawStepView::Clear { paint: paint.deep_view() },
            DrawStep::Fill { left, top, width, height, paint } => DrawStepView::Fill {
                left: *left,
                top: *top,
                width: *width,
                height: *height,
                paint: paint.deep_view(),
            },
            DrawStep::Text { left, top, text, paint } => DrawStepView::Text {
                left: *left,
                top: *top,
                text: text@,
                paint: paint.deep_view(),
            },
            DrawStep::Decorate { left, top, width, paint } => DrawStepView::Decorate {
                left: *left,
                top: *top,
                width: *width,
                paint: paint.deep_view(),
            },
            DrawStep::Title { top, text, paint } => DrawStepView::Title {
                top: *top,
                text: text@,
                paint: paint.deep_view(),
            },
        }
    }
}

/// Append a step.
pub(crate) fn push_step(steps: &mut Vec<DrawStep>, step: DrawStep)
    ensures
        final(steps).deep_view() == old(steps).deep_view().push(step.deep_view()),
{
    steps.push(step);
    assert(steps.deep_view() =~= old(steps).deep_view().push(step.deep_view()));
}

/// The left edge of a column of the grid.
pub open spec fn column_pixel(column: nat, metrics: CellMetrics) -> usize {
    capped((PADDING + column * metrics.cell_width) as nat)
}

/// The left edge of a column of the grid, up to the largest `usize`.
pub fn column_left(column: usize, metrics: &CellMetrics) -> (left: usize)
    ensures
        left == column_pixel(column as nat, *metrics),
{
    PADDING.saturating_add(capped_mul(column, metrics.cell_width))
}

/// The step that paints `width` cells of a row.
pub open spec fn fill_step(
    column: nat,
    top: usize,
    width: nat,
    metrics: CellMetrics,
    paint: PaintView,
) -> DrawStepView {
    DrawStepView::Fill {
        left: column_pixel(column, metrics),
        top,
        width: capped((metrics.cell_width * width) as nat),
        height: metrics.cell_height,
        paint,
    }
}

/// Paint `width` cells of a row.
pub fn fill_cells(
    steps: &mut Vec<DrawStep>,
    column: usize,
    top: usize,
    width: usize,
    metrics: &CellMetrics,
    paint: Paint,
)
    ensures
        final(steps).deep_view() == old(steps).deep_view().push(
            fill_step(column as nat, top, width as nat, *metrics, paint.deep_view()),
        ),
{
    let left = column_left(column, metrics);
    let pixels = capped_mul(metrics.cell_width, width);
    push_step(
        steps,
        DrawStep::Fill { left, top, width: pixels, height: metrics.cell_height, paint },
    );
}

/// A control character.
pub open spec fn is_control_char(c: char) -> bool {
    (c as u32) < 0x20 || 0x7f <= (c as u32) <= 0x9f
}

/// A text that leaves nothing to draw.
pub open spec fn all_control(text: Seq<char>) -> bool {
    forall|i: int| 0 <= i < text.len() ==> is_control_char(#[trigger] text[i])
}

/// Whether a text leaves nothing to draw.
fn only_controls(text: &str) -> (yes: bool)
    ensures
        yes == all_control(text@),
{
    let chars = text_chars(text);
    for i in 0..chars.len()
        invariant
            chars@ == text@,
            forall|k: int| 0 <= k < i ==> is_control_char(#[trigger] chars@[k]),
    {
        let code = chars[i] as u32;
        if !(code < 0x20 || (0x7f <= code && code <= 0x9f)) {
            return false;
        }
    }
    true
}

/// The steps that write one cluster: none for control characters alone.
pub open spec fn text_steps(
    column: nat,
    top: usize,
    text: Seq<char>,
    metrics: CellMetrics,
    paint: PaintView,
) -> Seq<DrawStepView> {
    if all_control(text) {
        Seq::empty()
    } else {
        seq![DrawStepView::Text { left: column_pixel(column, metrics), top, text, paint }]
    }
}

/// Write one cluster.
pub fn draw_text_cluster(
    steps: &mut Vec<DrawStep>,
    column: usize,
    top: usize,
    text: &str,
    metrics: &CellMetrics,
    paint: &Paint,
)
    ensures
        final(steps).deep_view() == old(steps).deep_view() + text_steps(
            column as nat,
            top,
            text@,
            *metrics,
            paint.deep_view(),
        ),
{
    if only_controls(text) {
        assert(steps.deep_view() + Seq::empty() =~= steps.deep_view());
        return;
    }
    let left = column_left(column, metrics);
    push_step(steps, DrawStep::Text { left, top, text: text.to_string(), paint: paint.clone() });
    assert(steps.deep_view() =~= old(steps).deep_view() + text_steps(
        column as nat,
        top,
        text@,
        *metrics,
        paint.deep_view(),
    ));
}

/// The step that decorates `width` cells of a row.
pub open spec fn decorate_step(
    column: nat,
    top: usize,
    width: nat,
    metrics: CellMetrics,
    paint: PaintView,
) -> DrawStepView {
    DrawStepView::Decorate {
        left: column_pixel(column, metrics),
        top,
        width: capped((metrics.cell_width * width) as nat),
        paint,
    }
}

/// The steps that decorate `width` cells of a row: none where `width` is zero.
pub open spec fn decorate_steps(
    column: nat,
    top: usize,
    width: nat,
    metrics: CellMetrics,
    paint: PaintView,
) -> Seq<DrawStepView> {
    if width == 0 {
        Seq::empty()
    } else {
        seq![decorate_step(column, top, width, metrics, paint)]
    }
}

/// Decorate `width` cells of a row.
pub fn draw_text_decorations(
    steps: &mut Vec<DrawStep>,
    column: usize,
    top: usize,
    width: usize,
    metrics: &CellMetrics,
    paint: Paint,
)
    ensures
        final(steps).deep_view() == old(steps).deep_view() + decorate_steps(
            column as nat,
            top,
            width as nat,
            *metrics,
            paint.deep_view(),
        ),
{
    if width == 0 {
        assert(steps.deep_view() + Seq::empty() =~= steps.deep_view());
        return;
    }
    let left = column_left(column, metrics);
    let pixels = capped_mul(metrics.cell_width, width);
    push_step(steps, DrawStep::Decorate { left, top, width: pixels, paint });
    assert(steps.deep_view() =~= old(steps).deep_view() + decorate_steps(
        column as nat,
        top,
        width as nat,
        *metrics,
        paint.deep_view(),
    ));
}

/// The steps that write a run of clusters from `column` on: every cluster that
/// starts before `limit`, at the column where the clusters before it end.
pub open spec fn cluster_steps(
    clusters: Seq<Seq<char>>,
    column: nat,
    limit: nat,
    top: usize,
    metrics: CellMetrics,
    paint: PaintView,
) -> Seq<DrawStepView>
    decreases clusters.len(),
{
    if clusters.len() == 0 {
        Seq::empty()
    } else {
        let before = cluster_steps(clusters.drop_last(), column, limit, top, metrics, paint);
        let start = column + clusters_width(clusters.drop_last());
        if is_line_end(clusters.last()) || start >= limit {
            before
        } else {
            before + text_steps(start, top, clusters.last(), metrics, paint)
        }
    }
}

/// The steps that paint one atom from `column` on, in the cells before `limit`:
/// its background, its clusters, its decorations.
pub open spec fn atom_steps(
    atom: AtomView,
    base: FaceView,
    column: nat,
    limit: nat,
    top: usize,
    metrics: CellMetrics,
) -> Seq<DrawStepView> {
    let width = text_width(atom.contents);
    let shown = if width <= limit - column {
        width
    } else {
        (limit - column) as nat
    };
    let paint = PaintView::Derived { base, face: atom.face };
    seq![fill_step(column, top, shown, metrics, paint)] + cluster_steps(
        grapheme_clusters(atom.contents),
        column,
        limit,
        top,
        metrics,
        paint,
    ) + seq![decorate_step(column, top, shown, metrics, paint)]
}

/// The steps that paint a line from `column` on, in the cells before `limit`:
/// its atoms one after the other. Atoms without width leave no step.
pub open spec fn line_steps(
    line: Seq<AtomView>,
    base: FaceView,
    column: nat,
    limit: nat,
    top: usize,
    metrics: CellMetrics,
) -> Seq<DrawStepView>
    decreases line.len(),
{
    if line.len() == 0 {
        Seq::empty()
    } else {
        let before = line_steps(line.drop_last(), base, column, limit, top, metrics);
        let start = column + line_width(line.drop_last());
        if text_width(line.last().contents) == 0 || start >= limit {
            before
        } else {
            before + atom_steps(line.last(), base, start, limit, top, metrics)
        }
    }
}

/// Steps that are not reached any more: clusters from `limit` on leave none.
proof fn lemma_clusters_past_limit(
    clusters: Seq<Seq<char>>,
    n: int,
    column: nat,
    limit: nat,
    top: usize,
    metrics: CellMetrics,
    paint: PaintView,
)
    requires
        0 <= n <= clusters.len(),
        column + clusters_width(clusters.take(n)) >= limit,
    ensures
        cluster_steps(clusters, column, limit, top, metrics, paint) == cluster_steps(
            clusters.take(n),
            column,
            limit,
            top,
            metrics,
            paint,
        ),
        column + clusters_width(clusters) >= limit,
    decreases clusters.len(),
{
    if n == clusters.len() {
        assert(clusters.take(n) =~= clusters);
    } else {
        let shorter = clusters.drop_last();
        assert(shorter.take(n) =~= clusters.take(n));
        lemma_clusters_past_limit(shorter, n, column, limit, top, metrics, paint);
    }
}

/// Steps that are not reached any more: atoms from `limit` on leave none.
proof fn lemma_atoms_past_limit(
    line: Seq<AtomView>,
    n: int,
    base: FaceView,
    column: nat,
    limit: nat,
    top: usize,
    metrics: CellMetrics,
)
    requires
        0 <= n <= line.len(),
        column + line_width(line.take(n)) >= limit,
    ensures
        line_steps(line, base, column, limit, top, metrics) == line_steps(
            line.take(n),
            base,
            column,
            limit,
            top,
            metrics,
        ),
        column + line_width(line) >= limit,
    decreases line.len(),
{
    if n == line.len() {
        assert(line.take(n) =~= line);
    } else {
        let shorter = line.drop_last();
        assert(shorter.take(n) =~= line.take(n));
        lemma_atoms_past_limit(shorter, n, base, column, limit, top, metrics);
    }
}

/// Write the clusters of `contents` from `column` on that start before `limit`.
/// The result is the column after them, or `limit` where they reach it.
fn draw_clusters(
    steps: &mut Vec<DrawStep>,
    contents: &str,
    column: usize,
    limit: usize,
    top: usize,
    metrics: &CellMetrics,
    paint: &Paint,
) -> (end: usize)
    requires
        column < limit,
    ensures
        final(steps).deep_view() == old(steps).deep_view() + cluster_steps(
            grapheme_clusters(contents@),
            column as nat,
            limit as nat,
            top,
            *metrics,
            paint.deep_view(),
        ),
        end == (if column + text_width(contents@) < limit {
            column + text_width(contents@)
        } else {
            limit as int
        }),
{
    let clusters = text_clusters(contents);
    let ghost all = clusters.deep_view();
    let ghost view = paint.deep_view();
    let mut at: usize = column;
    assert(steps.deep_view() + Seq::empty() =~= steps.deep_view());
    for i in 0..clusters.len()
        invariant
            all == clusters.deep_view(),
            all == grapheme_clusters(contents@),
            view == paint.deep_view(),
            column <= at < limit,
            at == column + clusters_width(all.take(i as int)),
            steps.deep_view() == old(steps).deep_view() + cluster_steps(
                all.take(i as int),
                column as nat,
                limit as nat,
                top,
                *metrics,
                view,
            ),
    {
        assert(all.take(i + 1).drop_last() =~= all.take(i as int));
        assert(all.take(i + 1).last() == clusters@[i as int]@);
        if !ends_line(clusters[i]) {
            let span = cluster_display_width(clusters[i]);
            draw_text_cluster(steps, at, top, clusters[i], metrics, paint);
            assert(steps.deep_view() =~= old(steps).deep_view() + cluster_steps(
                all.take(i + 1),
                column as nat,
                limit as nat,
                top,
                *metrics,
                view,
            ));
            if span >= limit - at {
                proof {
                    lemma_clusters_past_limit(
                        all,
                        i + 1,
                        column as nat,
                        limit as nat,
                        top,
                        *metrics,
                        view,
                    );
                }
                return limit;
            }
            at = at + span;
        }
    }
    assert(all.take(clusters.len() as int) =~= all);
    at
}

/// Paint a line from `column` on, in the cells before `limit`, with the upper
/// edge of its row at `top`.
pub fn render_line_at_top(
    steps: &mut Vec<DrawStep>,
    column: usize,
    limit: usize,
    line: &[Atom],
    base: &Face,
    metrics: &CellMetrics,
    top: usize,
)
    ensures
        final(steps).deep_view() == old(steps).deep_view() + line_steps(
            line.deep_view(),
            base.deep_view(),
            column as nat,
            limit as nat,
            top,
            *metrics,
        ),
{
    let ghost all = line.deep_view();
    let mut at: usize = column;
    assert(steps.deep_view() + Seq::empty() =~= steps.deep_view());
    for i in 0..line.len()
        invariant
            all == line.deep_view(),
            at == column + line_width(all.take(i as int)),
            steps.deep_view() == old(steps).deep_view() + line_steps(
                all.take(i as int),
                base.deep_view(),
                column as nat,
                limit as nat,
                top,
                *metrics,
            ),
    {
        let atom = &line[i];
        assert(all.take(i + 1).drop_last() =~= all.take(i as int));
        assert(all.take(i + 1).last() == atom.deep_view());
        let width = atom_display_width(atom.contents.as_str());
        if width != 0 {
            if at >= limit {
                proof {
                    lemma_atoms_past_limit(
                        all,
                        i as int,
                        base.deep_view(),
                        column as nat,
                        limit as nat,
                        top,
                        *metrics,
                    );
                }
                return ;
            }
            let room: usize = limit - at;
            let shown: usize = if width < room {
                width
            } else {
                room
            };
            let paint = Paint::Derived { base: base.clone(), face: atom.face.clone() };
            fill_cells(steps, at, top, shown, metrics, paint.clone());
            let end = draw_clusters(steps, atom.contents.as_str(), at, limit, top, metrics, &paint);
            draw_text_decorations(steps, at, top, shown, metrics, paint);
            assert(steps.deep_view() =~= old(steps).deep_view() + (line_steps(
                all.take(i as int),
                base.deep_view(),
                column as nat,
                limit as nat,
                top,
                *metrics,
            ) + atom_steps(
                atom.deep_view(),
                base.deep_view(),
                at as nat,
                limit as nat,
                top,
                *metrics,
            )));
            if end >= limit {
                proof {
                    lemma_atoms_past_limit(
                        all,
                        i + 1,
                        base.deep_view(),
                        column as nat,
                        limit as nat,
                        top,
                        *metrics,
                    );
                }
                return ;
            }
            at = end;
        }
    }
    assert(all.take(line.len() as int) =~= all);
}

/// The step that paints `width` cells of a row in a face of its own.
pub open spec fn segment_step(
    column: nat,
    width: nat,
    face: FaceView,
    metrics: CellMetrics,
    top: usize,
) -> DrawStepView {
    fill_step(column, top, width, metrics, PaintView::Root { face })
}

/// Paint `width` cells of a row in a face of its own.
pub fn fill_line_segment_at_top(
    steps: &mut Vec<DrawStep>,
    column: usize,
    width: usize,
    face: &Face,
    metrics: &CellMetrics,
    top: usize,
)
    ensures
        final(steps).deep_view() == old(steps).deep_view().push(
            segment_step(column as nat, width as nat, face.deep_view(), *metrics, top),
        ),
{
    fill_cells(steps, column, top, width, metrics, Paint::Root { face: face.clone() });
}

/// The upper edge of the row that stands `offset` rows below `top`.
pub open spec fn lower_row(top: usize, offset: nat, metrics: CellMetrics) -> usize {
    capped((top + offset * metrics.cell_height) as nat)
}

/// The upper edge of the row that stands `offset` rows below `top`.
pub(crate) fn row_below(top: usize, offset: usize, metrics: &CellMetrics) -> (edge: usize)
    ensures
        edge == lower_row(top, offset as nat, *metrics),
{
    top.saturating_add(capped_mul(offset, metrics.cell_height))
}

/// The steps that paint `rows` rows of `width` cells, the first at `top`.
pub open spec fn block_steps(
    column: nat,
    width: nat,
    rows: nat,
    face: FaceView,
    metrics: CellMetrics,
    top: usize,
) -> Seq<DrawStepView> {
    Seq::new(
        rows,
        |i: int| segment_step(column, width, face, metrics, lower_row(top, i as nat, metrics)),
    )
}

/// Paint `rows` rows of `width` cells, the first at `top`.
pub fn fill_rect_at_top(
    steps: &mut Vec<DrawStep>,
    column: usize,
    width: usize,
    rows: usize,
    face: &Face,
    metrics: &CellMetrics,
    top: usize,
)
    ensures
        final(steps).deep_view() == old(steps).deep_view() + block_steps(
            column as nat,
            width as nat,
            rows as nat,
            face.deep_view(),
            *metrics,
            top,
        ),
{
    let ghost all = block_steps(
        column as nat,
        width as nat,
        rows as nat,
        face.deep_view(),
        *metrics,
        top,
    );
    assert(steps.deep_view() + all.take(0) =~= steps.deep_view());
    for row in 0..rows
        invariant
            all == block_steps(
                column as nat,
                width as nat,
                rows as nat,
                face.deep_view(),
                *metrics,
                top,
            ),
            steps.deep_view() == old(steps).deep_view() + all.take(row as int),
    {
        fill_line_segment_at_top(
            steps,
            column,
            width,
            face,
            metrics,
            row_below(top, row, metrics),
        );
        assert(all.take(row + 1) =~= all.take(row as int).push(all[row as int]));
        assert(steps.deep_view() =~= old(steps).deep_view() + all.take(row + 1));
    }
    assert(all.take(rows as int) =~= all);
}

/// The steps that write a text in one face, as wide as it is.
pub open spec fn string_steps(
    column: nat,
    text: Seq<char>,
    face: FaceView,
    metrics: CellMetrics,
    top: usize,
) -> Seq<DrawStepView> {
    line_steps(
        plain_line(text),
        face,
        column,
        capped(column + text_width(text)) as nat,
        top,
        metrics,
    )
}

/// Write a text in one face, as wide as it is.
pub fn render_string_line_at_top(
    steps: &mut Vec<DrawStep>,
    column: usize,
    text: &str,
    face: &Face,
    metrics: &CellMetrics,
    top: usize,
)
    ensures
        final(steps).deep_view() == old(steps).deep_view() + string_steps(
            column as nat,
            text@,
            face.deep_view(),
            *metrics,
            top,
        ),
{
    let line = plain_atoms(text);
    let limit = column.saturating_add(atom_display_width(text));
    render_line_at_top(steps, column, limit, line.as_slice(), face, metrics, top);
}

/// Whether a step keeps to the cells from `column` up to `limit` of the row at
/// `top`: what it fills or decorates lies within them, and what it writes begins
/// in one of them.
pub open spec fn keeps_to_cells(
    step: DrawStepView,
    column: nat,
    limit: nat,
    top: usize,
    metrics: CellMetrics,
) -> bool {
    let left_end = PADDING + column * metrics.cell_width;
    let right_end = PADDING + limit * metrics.cell_width;
    match step {
        DrawStepView::Fill { left, top: edge, width, height, .. } => {
            &&& edge == top
            &&& height == metrics.cell_height
            &&& left_end <= left
            &&& left + width <= right_end
        },
        DrawStepView::Text { left, top: edge, .. } => {
            &&& edge == top
            &&& exists|c: nat| column <= c < limit && left == #[trigger] column_pixel(c, metrics)
        },
        DrawStepView::Decorate { left, top: edge, width, .. } => {
            &&& edge == top
            &&& left_end <= left
            &&& left + width <= right_end
        },
        DrawStepView::Clear { .. } => false,
        DrawStepView::Title { .. } => false,
    }
}

/// Clusters are written in the cells before `limit`.
proof fn lemma_clusters_keep_to_cells(
    clusters: Seq<Seq<char>>,
    first: nat,
    column: nat,
    limit: nat,
    top: usize,
    metrics: CellMetrics,
    paint: PaintView,
)
    requires
        first <= column,
    ensures
        forall|i: int|
            0 <= i < cluster_steps(clusters, column, limit, top, metrics, paint).len()
                ==> keeps_to_cells(
                #[trigger] cluster_steps(clusters, column, limit, top, metrics, paint)[i],
                first,
                limit,
                top,
                metrics,
            ),
    decreases clusters.len(),
{
    if clusters.len() > 0 {
        let shorter = clusters.drop_last();
        lemma_clusters_keep_to_cells(shorter, first, column, limit, top, metrics, paint);
        let before = cluster_steps(shorter, column, limit, top, metrics, paint);
        let all = cluster_steps(clusters, column, limit, top, metrics, paint);
        let start = column + clusters_width(shorter);
        assert forall|i: int| 0 <= i < all.len() implies keeps_to_cells(
            #[trigger] all[i],
            first,
            limit,
            top,
            metrics,
        ) by {
            if i < before.len() {
                assert(all[i] == before[i]);
            } else {
                let own = text_steps(start, top, clusters.last(), metrics, paint);
                assert(all[i] == own[i - before.len()]);
                assert(first <= start < limit && all[i]->Text_left == column_pixel(start, metrics));
            }
        }
    }
}

/// The cells from `start` on, `shown` of them, lie before `limit` and not before
/// `column`.
proof fn lemma_cells_in_pixels(
    column: nat,
    start: nat,
    shown: nat,
    limit: nat,
    metrics: CellMetrics,
)
    requires
        column <= start,
        start + shown <= limit,
        PADDING + limit * metrics.cell_width <= usize::MAX,
    ensures
        column_pixel(start, metrics) == PADDING + start * metrics.cell_width,
        column * metrics.cell_width <= start * metrics.cell_width,
        capped((metrics.cell_width * shown) as nat) == metrics.cell_width * shown,
        start * metrics.cell_width + metrics.cell_width * shown <= limit * metrics.cell_width,
{
    let w = metrics.cell_width as int;
    assert(0 <= column * w <= start * w && start * w + w * shown <= limit * w && 0 <= w * shown)
        by (nonlinear_arith)
        requires
            0 <= column <= start,
            start + shown <= limit,
            w >= 0,
            shown >= 0,
    ;
}

/// A line is painted in its own cells: from the column where it begins, and
/// before the column where it has to end.
pub proof fn law_line_keeps_to_its_cells(
    line: Seq<AtomView>,
    base: FaceView,
    column: nat,
    limit: nat,
    top: usize,
    metrics: CellMetrics,
)
    requires
        PADDING + limit * metrics.cell_width <= usize::MAX,
    ensures
        forall|i: int|
            0 <= i < line_steps(line, base, column, limit, top, metrics).len() ==> keeps_to_cells(
                #[trigger] line_steps(line, base, column, limit, top, metrics)[i],
                column,
                limit,
                top,
                metrics,
            ),
    decreases line.len(),
{
    if line.len() > 0 {
        let shorter = line.drop_last();
        law_line_keeps_to_its_cells(shorter, base, column, limit, top, metrics);
        let before = line_steps(shorter, base, column, limit, top, metrics);
        let start = column + line_width(shorter);
        let atom = line.last();
        if text_width(atom.contents) > 0 && start < limit {
            let width = text_width(atom.contents);
            let shown = if width <= limit - start {
                width
            } else {
                (limit - start) as nat
            };
            let paint = PaintView::Derived { base, face: atom.face };
            let clusters = grapheme_clusters(atom.contents);
            let texts = cluster_steps(clusters, start, limit, top, metrics, paint);
            let all = line_steps(line, base, column, limit, top, metrics);
            lemma_cells_in_pixels(column, start, shown, limit, metrics);
            lemma_clusters_keep_to_cells(clusters, column, start, limit, top, metrics, paint);
            assert forall|i: int| 0 <= i < all.len() implies keeps_to_cells(
                #[trigger] all[i],
                column,
                limit,
                top,
                metrics,
            ) by {
                let k = i - before.len();
                if k < 0 {
                    assert(all[i] == before[i]);
                } else if k == 0 {
                    assert(all[i] == fill_step(start, top, shown, metrics, paint));
                } else if k <= texts.len() {
                    assert(all[i] == texts[k - 1]);
                } else {
                    assert(all[i] == decorate_step(start, top, shown, metrics, paint));
                }
            }
        }
    }
}

/// Whether a step paints over the pixel at `x`, `y`.
pub open spec fn hides(step: DrawStepView, x: int, y: int) -> bool {
    match step {
        DrawStepView::Clear { .. } => true,
        DrawStepView::Fill { left, top, width, height, .. } => left <= x < left + width && top <= y
            < top + height,
        _ => false,
    }
}

/// Whether a step writes a text with its left and upper edge at `x`, `y`.
pub open spec fn is_text_at(
    step: DrawStepView,
    x: int,
    y: int,
    text: Seq<char>,
    paint: PaintView,
) -> bool {
    step matches DrawStepView::Text { left, top, text: written, paint: own } && left == x && top
        == y && written == text && own == paint
}

/// Whether a step paints the pixel at `x`, `y` in the background of a face.
pub open spec fn is_ground_at(step: DrawStepView, x: int, y: int, paint: PaintView) -> bool {
    &&& step is Fill
    &&& hides(step, x, y)
    &&& step->Fill_paint == paint
}

/// Whether a text is written with its left and upper edge at `x`, `y`, and nothing
/// is painted over that corner afterwards.
pub open spec fn shows(
    steps: Seq<DrawStepView>,
    x: int,
    y: int,
    text: Seq<char>,
    paint: PaintView,
) -> bool {
    exists|k: int|
        0 <= k < steps.len() && is_text_at(#[trigger] steps[k], x, y, text, paint) && forall|m: int|
            k < m < steps.len() ==> !hides(#[trigger] steps[m], x, y)
}

/// Whether the pixel at `x`, `y` is left in the background of a face.
pub open spec fn has_ground(steps: Seq<DrawStepView>, x: int, y: int, paint: PaintView) -> bool {
    exists|k: int|
        0 <= k < steps.len() && is_ground_at(#[trigger] steps[k], x, y, paint) && forall|m: int|
            k < m < steps.len() ==> !hides(#[trigger] steps[m], x, y)
}

/// Whether a step decorates the row at `y` round the pixel at `x`.
pub open spec fn is_mark_at(step: DrawStepView, x: int, y: int, paint: PaintView) -> bool {
    step matches DrawStepView::Decorate { left, top, width, paint: own } && left <= x < left + width
        && top == y && own == paint
}

/// Whether the row at `y` is left with the decorations of a face round the pixel
/// at `x`.
pub open spec fn has_marks(steps: Seq<DrawStepView>, x: int, y: int, paint: PaintView) -> bool {
    exists|k: int|
        0 <= k < steps.len() && is_mark_at(#[trigger] steps[k], x, y, paint) && forall|m: int|
            k < m < steps.len() ==> !hides(#[trigger] steps[m], x, y)
}

/// Whether no step paints over the pixel at `x`, `y`.
pub open spec fn leaves(steps: Seq<DrawStepView>, x: int, y: int) -> bool {
    forall|m: int| 0 <= m < steps.len() ==> !hides(#[trigger] steps[m], x, y)
}

/// What some steps show is shown by more that follow them and leave it.
pub(crate) proof fn lemma_shown_before(
    first: Seq<DrawStepView>,
    then: Seq<DrawStepView>,
    x: int,
    y: int,
    text: Seq<char>,
    paint: PaintView,
)
    requires
        leaves(then, x, y),
    ensures
        shows(first, x, y, text, paint) ==> shows(first + then, x, y, text, paint),
        has_ground(first, x, y, paint) ==> has_ground(first + then, x, y, paint),
        has_marks(first, x, y, paint) ==> has_marks(first + then, x, y, paint),
        leaves(first, x, y) ==> leaves(first + then, x, y),
{
    let all = first + then;
    assert forall|m: int| first.len() <= m < all.len() implies !hides(#[trigger] all[m], x, y) by {
        assert(all[m] == then[m - first.len()]);
    }
    if shows(first, x, y, text, paint) {
        let k = choose|k: int|
            0 <= k < first.len() && is_text_at(#[trigger] first[k], x, y, text, paint) && forall|
                m: int,
            |
                k < m < first.len() ==> !hides(#[trigger] first[m], x, y);
        assert(is_text_at(all[k], x, y, text, paint));
        assert forall|m: int| k < m < all.len() implies !hides(#[trigger] all[m], x, y) by {
            if m < first.len() {
                assert(all[m] == first[m]);
            }
        }
    }
    if has_ground(first, x, y, paint) {
        let k = choose|k: int|
            0 <= k < first.len() && is_ground_at(#[trigger] first[k], x, y, paint) && forall|m: int|
                k < m < first.len() ==> !hides(#[trigger] first[m], x, y);
        assert(is_ground_at(all[k], x, y, paint));
        assert forall|m: int| k < m < all.len() implies !hides(#[trigger] all[m], x, y) by {
            if m < first.len() {
                assert(all[m] == first[m]);
            }
        }
    }
    if has_marks(first, x, y, paint) {
        let k = choose|k: int|
            0 <= k < first.len() && is_mark_at(#[trigger] first[k], x, y, paint) && forall|m: int|
                k < m < first.len() ==> !hides(#[trigger] first[m], x, y);
        assert(is_mark_at(all[k], x, y, paint));
        assert forall|m: int| k < m < all.len() implies !hides(#[trigger] all[m], x, y) by {
            if m < first.len() {
                assert(all[m] == first[m]);
            }
        }
    }
    if leaves(first, x, y) {
        assert forall|m: int| 0 <= m < all.len() implies !hides(#[trigger] all[m], x, y) by {
            if m < first.len() {
                assert(all[m] == first[m]);
            }
        }
    }
}

/// What the last steps show is shown, whatever came before.
pub(crate) proof fn lemma_shown_after(
    first: Seq<DrawStepView>,
    then: Seq<DrawStepView>,
    x: int,
    y: int,
    text: Seq<char>,
    paint: PaintView,
)
    ensures
        shows(then, x, y, text, paint) ==> shows(first + then, x, y, text, paint),
        has_ground(then, x, y, paint) ==> has_ground(first + then, x, y, paint),
        has_marks(then, x, y, paint) ==> has_marks(first + then, x, y, paint),
{
    let all = first + then;
    if has_marks(then, x, y, paint) {
        let k = choose|k: int|
            0 <= k < then.len() && is_mark_at(#[trigger] then[k], x, y, paint) && forall|m: int|
                k < m < then.len() ==> !hides(#[trigger] then[m], x, y);
        let at = first.len() + k;
        assert(is_mark_at(all[at], x, y, paint));
        assert forall|m: int| at < m < all.len() implies !hides(#[trigger] all[m], x, y) by {
            assert(all[m] == then[m - first.len()]);
        }
    }
    if shows(then, x, y, text, paint) {
        let k = choose|k: int|
            0 <= k < then.len() && is_text_at(#[trigger] then[k], x, y, text, paint) && forall|
                m: int,
            |
                k < m < then.len() ==> !hides(#[trigger] then[m], x, y);
        let at = first.len() + k;
        assert(is_text_at(all[at], x, y, text, paint));
        assert forall|m: int| at < m < all.len() implies !hides(#[trigger] all[m], x, y) by {
            assert(all[m] == then[m - first.len()]);
        }
    }
    if has_ground(then, x, y, paint) {
        let k = choose|k: int|
            0 <= k < then.len() && is_ground_at(#[trigger] then[k], x, y, paint) && forall|m: int|
                k < m < then.len() ==> !hides(#[trigger] then[m], x, y);
        let at = first.len() + k;
        assert(is_ground_at(all[at], x, y, paint));
        assert forall|m: int| at < m < all.len() implies !hides(#[trigger] all[m], x, y) by {
            assert(all[m] == then[m - first.len()]);
        }
    }
}

/// The left edge of a cell, where it can be counted in pixels.
pub open spec fn cell_left(column: nat, metrics: CellMetrics) -> int {
    12 + column * metrics.cell_width
}

/// A text that leaves something to see: not all of its characters are control
/// characters.
pub open spec fn is_visible(text: Seq<char>) -> bool {
    exists|i: int|
        0 <= i < text.len() && (0x20 <= (#[trigger] text[i] as u32) < 0x7f || text[i] as u32
            >= 0xa0)
}

/// Clusters paint over nothing.
proof fn lemma_clusters_leave(
    clusters: Seq<Seq<char>>,
    column: nat,
    limit: nat,
    top: usize,
    metrics: CellMetrics,
    paint: PaintView,
    x: int,
    y: int,
)
    ensures
        leaves(cluster_steps(clusters, column, limit, top, metrics, paint), x, y),
    decreases clusters.len(),
{
    if clusters.len() > 0 {
        lemma_clusters_leave(clusters.drop_last(), column, limit, top, metrics, paint, x, y);
        let before = cluster_steps(clusters.drop_last(), column, limit, top, metrics, paint);
        let start = column + clusters_width(clusters.drop_last());
        let own = text_steps(start, top, clusters.last(), metrics, paint);
        assert(leaves(own, x, y));
        lemma_shown_before(before, own, x, y, Seq::empty(), paint);
    }
}

/// A cluster that begins before the limit is written where it begins.
proof fn lemma_cluster_is_written(
    clusters: Seq<Seq<char>>,
    column: nat,
    limit: nat,
    top: usize,
    metrics: CellMetrics,
    paint: PaintView,
    n: int,
)
    requires
        0 <= n < clusters.len(),
        clusters[n] != seq!['\n'],
        is_visible(clusters[n]),
        column + clusters_width(clusters.take(n)) < limit,
        PADDING + limit * metrics.cell_width <= usize::MAX,
    ensures
        shows(
            cluster_steps(clusters, column, limit, top, metrics, paint),
            cell_left(column + clusters_width(clusters.take(n)), metrics),
            top as int,
            clusters[n],
            paint,
        ),
    decreases clusters.len(),
{
    let shorter = clusters.drop_last();
    let before = cluster_steps(shorter, column, limit, top, metrics, paint);
    let last = column + clusters_width(shorter);
    let own = text_steps(last, top, clusters.last(), metrics, paint);
    let at = column + clusters_width(clusters.take(n));
    let x = cell_left(at, metrics);
    if n == clusters.len() - 1 {
        assert(clusters.take(n) =~= shorter);
        lemma_cells_in_pixels(column, at, 1, limit, metrics);
        assert(!all_control(clusters[n])) by {
            let i = choose|i: int|
                0 <= i < clusters[n].len() && (0x20 <= (#[trigger] clusters[n][i] as u32) < 0x7f
                    || clusters[n][i] as u32 >= 0xa0);
            assert(!is_control_char(clusters[n][i]));
        }
        assert(is_text_at(own[0], x, top as int, clusters[n], paint));
        assert(shows(own, x, top as int, clusters[n], paint));
        lemma_shown_after(before, own, x, top as int, clusters[n], paint);
    } else {
        assert(shorter.take(n) =~= clusters.take(n));
        lemma_cluster_is_written(shorter, column, limit, top, metrics, paint, n);
        assert(leaves(own, x, top as int));
        lemma_shown_before(before, own, x, top as int, clusters[n], paint);
    }
}

/// What an atom that is painted from `start` on paints over: nothing left of it.
proof fn lemma_atom_leaves(
    atom: AtomView,
    base: FaceView,
    start: nat,
    limit: nat,
    top: usize,
    metrics: CellMetrics,
    x: int,
    y: int,
)
    requires
        start < limit,
        PADDING + limit * metrics.cell_width <= usize::MAX,
        x < cell_left(start, metrics) || y != top && !(top <= y < top + metrics.cell_height),
    ensures
        leaves(atom_steps(atom, base, start, limit, top, metrics), x, y),
{
    let width = text_width(atom.contents);
    let shown = if width <= limit - start {
        width
    } else {
        (limit - start) as nat
    };
    let paint = PaintView::Derived { base, face: atom.face };
    let clusters = grapheme_clusters(atom.contents);
    let texts = cluster_steps(clusters, start, limit, top, metrics, paint);
    let ground = seq![fill_step(start, top, shown, metrics, paint)];
    let mark = seq![decorate_step(start, top, shown, metrics, paint)];
    lemma_cells_in_pixels(start, start, shown, limit, metrics);
    lemma_clusters_leave(clusters, start, limit, top, metrics, paint, x, y);
    assert(leaves(ground, x, y));
    lemma_shown_before(ground, texts, x, y, Seq::empty(), paint);
    assert(leaves(mark, x, y));
    lemma_shown_before(ground + texts, mark, x, y, Seq::empty(), paint);
}

/// An atom shows its clusters, and its face behind them.
proof fn lemma_atom_is_shown(
    atom: AtomView,
    base: FaceView,
    start: nat,
    limit: nat,
    top: usize,
    metrics: CellMetrics,
    n: int,
    column: nat,
)
    requires
        start < limit,
        PADDING + limit * metrics.cell_width <= usize::MAX,
    ensures
        ({
            let clusters = grapheme_clusters(atom.contents);
            let paint = PaintView::Derived { base, face: atom.face };
            let steps = atom_steps(atom, base, start, limit, top, metrics);
            &&& 0 <= n < clusters.len() && clusters[n] != seq!['\n'] && is_visible(clusters[n])
                && start + clusters_width(clusters.take(n)) < limit ==> shows(
                steps,
                cell_left(start + clusters_width(clusters.take(n)), metrics),
                top as int,
                clusters[n],
                paint,
            )
            &&& start <= column < start + text_width(atom.contents) && column < limit
                && metrics.cell_width > 0 && metrics.cell_height > 0 ==> has_ground(
                steps,
                cell_left(column, metrics),
                top as int,
                paint,
            ) && has_marks(steps, cell_left(column, metrics), top as int, paint)
        }),
{
    let width = text_width(atom.contents);
    let shown = if width <= limit - start {
        width
    } else {
        (limit - start) as nat
    };
    let paint = PaintView::Derived { base, face: atom.face };
    let clusters = grapheme_clusters(atom.contents);
    let texts = cluster_steps(clusters, start, limit, top, metrics, paint);
    let ground = seq![fill_step(start, top, shown, metrics, paint)];
    let mark = seq![decorate_step(start, top, shown, metrics, paint)];
    let y = top as int;
    if 0 <= n < clusters.len() && clusters[n] != seq!['\n'] && is_visible(clusters[n]) && start
        + clusters_width(clusters.take(n)) < limit {
        let x = cell_left(start + clusters_width(clusters.take(n)), metrics);
        lemma_cluster_is_written(clusters, start, limit, top, metrics, paint, n);
        lemma_shown_after(ground, texts, x, y, clusters[n], paint);
        assert(leaves(mark, x, y));
        lemma_shown_before(ground + texts, mark, x, y, clusters[n], paint);
    }
    if start <= column < start + width && column < limit && metrics.cell_width > 0
        && metrics.cell_height > 0 {
        let x = cell_left(column, metrics);
        lemma_cells_in_pixels(start, start, shown, limit, metrics);
        let w = metrics.cell_width as int;
        assert(start * w <= column * w < start * w + w * shown) by (nonlinear_arith)
            requires
                start <= column < start + shown,
                w > 0,
        ;
        assert(is_ground_at(ground[0], x, y, paint));
        assert(has_ground(ground, x, y, paint));
        lemma_clusters_leave(clusters, start, limit, top, metrics, paint, x, y);
        lemma_shown_before(ground, texts, x, y, Seq::empty(), paint);
        assert(leaves(mark, x, y));
        lemma_shown_before(ground + texts, mark, x, y, Seq::empty(), paint);
        assert(is_mark_at(mark[0], x, y, paint));
        assert(has_marks(mark, x, y, paint));
        lemma_shown_after(ground + texts, mark, x, y, Seq::empty(), paint);
    }
}

/// A line paints over nothing outside its own row and cells.
pub(crate) proof fn lemma_line_leaves(
    line: Seq<AtomView>,
    base: FaceView,
    column: nat,
    limit: nat,
    top: usize,
    metrics: CellMetrics,
    x: int,
    y: int,
)
    requires
        PADDING + limit * metrics.cell_width <= usize::MAX,
        x < cell_left(column, metrics) || x >= cell_left(limit, metrics) || !(top <= y < top
            + metrics.cell_height),
    ensures
        leaves(line_steps(line, base, column, limit, top, metrics), x, y),
{
    law_line_keeps_to_its_cells(line, base, column, limit, top, metrics);
    let all = line_steps(line, base, column, limit, top, metrics);
    assert forall|m: int| 0 <= m < all.len() implies !hides(#[trigger] all[m], x, y) by {
        assert(keeps_to_cells(all[m], column, limit, top, metrics));
    }
}

/// A line shows its text: every cluster of every atom that begins before the limit
/// is written in its atom's face, in the cell where the text before it ends, and
/// nothing else of the line is painted over it.
pub proof fn law_line_shows_its_text(
    line: Seq<AtomView>,
    base: FaceView,
    column: nat,
    limit: nat,
    top: usize,
    metrics: CellMetrics,
    i: int,
    n: int,
)
    requires
        0 <= i < line.len(),
        0 <= n < grapheme_clusters(line[i].contents).len(),
        grapheme_clusters(line[i].contents)[n] != seq!['\n'],
        is_visible(grapheme_clusters(line[i].contents)[n]),
        column + line_width(line.take(i)) + clusters_width(
            grapheme_clusters(line[i].contents).take(n),
        ) < limit,
        PADDING + limit * metrics.cell_width <= usize::MAX,
    ensures
        shows(
            line_steps(line, base, column, limit, top, metrics),
            cell_left(
                column + line_width(line.take(i)) + clusters_width(
                    grapheme_clusters(line[i].contents).take(n),
                ),
                metrics,
            ),
            top as int,
            grapheme_clusters(line[i].contents)[n],
            PaintView::Derived { base, face: line[i].face },
        ),
    decreases line.len(),
{
    let clusters = grapheme_clusters(line[i].contents);
    let at = column + line_width(line.take(i)) + clusters_width(clusters.take(n));
    let x = cell_left(at, metrics);
    let y = top as int;
    let paint = PaintView::Derived { base, face: line[i].face };
    let shorter = line.drop_last();
    let before = line_steps(shorter, base, column, limit, top, metrics);
    let start = column + line_width(shorter);
    let own = atom_steps(line.last(), base, start, limit, top, metrics);
    if i == line.len() - 1 {
        assert(line.take(i) =~= shorter);
        lemma_one_cell_at_least(clusters, n);
        lemma_atom_is_shown(line.last(), base, start, limit, top, metrics, n, 0);
        lemma_shown_after(before, own, x, y, clusters[n], paint);
    } else {
        assert(shorter.take(i) =~= line.take(i));
        law_line_shows_its_text(shorter, base, column, limit, top, metrics, i, n);
        if text_width(line.last().contents) > 0 && start < limit {
            lemma_text_ends_before(shorter, i, n);
            let w = metrics.cell_width as int;
            assert(at * w <= start * w && (w > 0 ==> at * w < start * w)) by (nonlinear_arith)
                requires
                    0 <= at < start,
                    w >= 0,
            ;
            if w > 0 {
                lemma_atom_leaves(line.last(), base, start, limit, top, metrics, x, y);
            } else {
                lemma_no_cells_no_ground(line.last(), base, start, limit, top, metrics, x, y);
            }
            lemma_shown_before(before, own, x, y, clusters[n], paint);
        }
    }
}

/// Cells without width are not painted.
proof fn lemma_no_cells_no_ground(
    atom: AtomView,
    base: FaceView,
    start: nat,
    limit: nat,
    top: usize,
    metrics: CellMetrics,
    x: int,
    y: int,
)
    requires
        metrics.cell_width == 0,
    ensures
        leaves(atom_steps(atom, base, start, limit, top, metrics), x, y),
{
    let width = text_width(atom.contents);
    let shown = if width <= limit - start {
        width
    } else {
        (limit - start) as nat
    };
    let paint = PaintView::Derived { base, face: atom.face };
    let clusters = grapheme_clusters(atom.contents);
    let texts = cluster_steps(clusters, start, limit, top, metrics, paint);
    let ground = seq![fill_step(start, top, shown, metrics, paint)];
    let mark = seq![decorate_step(start, top, shown, metrics, paint)];
    assert(0 * shown == 0) by (nonlinear_arith);
    lemma_clusters_leave(clusters, start, limit, top, metrics, paint, x, y);
    assert(leaves(ground, x, y));
    lemma_shown_before(ground, texts, x, y, Seq::empty(), paint);
    assert(leaves(mark, x, y));
    lemma_shown_before(ground + texts, mark, x, y, Seq::empty(), paint);
}

/// A visible cluster takes part in the width of its text.
proof fn lemma_one_cell_at_least(clusters: Seq<Seq<char>>, n: int)
    requires
        0 <= n < clusters.len(),
        !is_line_end(clusters[n]),
        clusters[n].len() > 0,
    ensures
        clusters_width(clusters.take(n)) < clusters_width(clusters),
    decreases clusters.len(),
{
    let shorter = clusters.drop_last();
    if n == clusters.len() - 1 {
        assert(clusters.take(n) =~= shorter);
    } else {
        assert(shorter.take(n) =~= clusters.take(n));
        lemma_one_cell_at_least(shorter, n);
    }
}

/// A cluster of a line begins before the line ends.
proof fn lemma_text_ends_before(line: Seq<AtomView>, i: int, n: int)
    requires
        0 <= i < line.len(),
        0 <= n < grapheme_clusters(line[i].contents).len(),
        !is_line_end(grapheme_clusters(line[i].contents)[n]),
        grapheme_clusters(line[i].contents)[n].len() > 0,
    ensures
        line_width(line.take(i)) + clusters_width(grapheme_clusters(line[i].contents).take(n))
            < line_width(line),
    decreases line.len(),
{
    let shorter = line.drop_last();
    if i == line.len() - 1 {
        assert(line.take(i) =~= shorter);
        lemma_one_cell_at_least(grapheme_clusters(line[i].contents), n);
    } else {
        assert(shorter.take(i) =~= line.take(i));
        lemma_text_ends_before(shorter, i, n);
    }
}

/// A line shows its faces: every cell that an atom takes before the limit is left
/// in that atom's background and with its decorations.
pub proof fn law_line_shows_its_faces(
    line: Seq<AtomView>,
    base: FaceView,
    column: nat,
    limit: nat,
    top: usize,
    metrics: CellMetrics,
    i: int,
    cell: nat,
)
    requires
        0 <= i < line.len(),
        column + line_width(line.take(i)) <= cell < column + line_width(line.take(i)) + text_width(
            line[i].contents,
        ),
        cell < limit,
        metrics.cell_width > 0,
        metrics.cell_height > 0,
        PADDING + limit * metrics.cell_width <= usize::MAX,
    ensures
        has_ground(
            line_steps(line, base, column, limit, top, metrics),
            cell_left(cell, metrics),
            top as int,
            PaintView::Derived { base, face: line[i].face },
        ),
        has_marks(
            line_steps(line, base, column, limit, top, metrics),
            cell_left(cell, metrics),
            top as int,
            PaintView::Derived { base, face: line[i].face },
        ),
    decreases line.len(),
{
    let x = cell_left(cell, metrics);
    let y = top as int;
    let paint = PaintView::Derived { base, face: line[i].face };
    let shorter = line.drop_last();
    let before = line_steps(shorter, base, column, limit, top, metrics);
    let start = column + line_width(shorter);
    let own = atom_steps(line.last(), base, start, limit, top, metrics);
    if i == line.len() - 1 {
        assert(line.take(i) =~= shorter);
        lemma_atom_is_shown(line.last(), base, start, limit, top, metrics, -1, cell);
        lemma_shown_after(before, own, x, y, Seq::empty(), paint);
    } else {
        assert(shorter.take(i) =~= line.take(i));
        law_line_shows_its_faces(shorter, base, column, limit, top, metrics, i, cell);
        if text_width(line.last().contents) > 0 && start < limit {
            lemma_atom_ends_before(shorter, i);
            let w = metrics.cell_width as int;
            assert(cell * w < start * w) by (nonlinear_arith)
                requires
                    0 <= cell < start,
                    w > 0,
            ;
            lemma_atom_leaves(line.last(), base, start, limit, top, metrics, x, y);
            lemma_shown_before(before, own, x, y, Seq::empty(), paint);
        }
    }
}

/// An atom of a line ends before the line does, or with it.
proof fn lemma_atom_ends_before(line: Seq<AtomView>, i: int)
    requires
        0 <= i < line.len(),
    ensures
        line_width(line.take(i)) + text_width(line[i].contents) <= line_width(line),
    decreases line.len(),
{
    let shorter = line.drop_last();
    if i == line.len() - 1 {
        assert(line.take(i) =~= shorter);
    } else {
        assert(shorter.take(i) =~= line.take(i));
        lemma_atom_ends_before(shorter, i);
    }
}

/// The upper edge of a row that stands below another, where it can be counted in
/// pixels.
pub open spec fn edge_below(top: int, offset: nat, metrics: CellMetrics) -> int {
    top + offset * metrics.cell_height
}

/// A block of cells is left in its face: every cell of every row.
pub proof fn law_block_is_filled(
    column: nat,
    width: nat,
    rows: nat,
    face: FaceView,
    metrics: CellMetrics,
    top: usize,
    row: nat,
    cell: nat,
)
    requires
        row < rows,
        column <= cell < column + width,
        metrics.cell_width > 0,
        metrics.cell_height > 0,
        PADDING + (column + width) * metrics.cell_width <= usize::MAX,
        top + rows * metrics.cell_height <= usize::MAX,
    ensures
        has_ground(
            block_steps(column, width, rows, face, metrics, top),
            cell_left(cell, metrics),
            edge_below(top as int, row, metrics),
            PaintView::Root { face },
        ),
{
    let steps = block_steps(column, width, rows, face, metrics, top);
    let x = cell_left(cell, metrics);
    let y = edge_below(top as int, row, metrics);
    let paint = PaintView::Root { face };
    let w = metrics.cell_width as int;
    let h = metrics.cell_height as int;
    lemma_cells_in_pixels(column, column, width, column + width, metrics);
    assert(column * w <= cell * w < column * w + w * width) by (nonlinear_arith)
        requires
            column <= cell < column + width,
            w > 0,
    ;
    assert(0 <= row * h <= rows * h) by (nonlinear_arith)
        requires
            0 <= row < rows,
            h > 0,
    ;
    assert(lower_row(top, row, metrics) == y);
    assert(is_ground_at(steps[row as int], x, y, paint));
    assert forall|m: int| row < m < steps.len() implies !hides(#[trigger] steps[m], x, y) by {
        assert(row * h + h <= m * h <= rows * h) by (nonlinear_arith)
            requires
                row < m < rows,
                h > 0,
        ;
    }
}

/// A block of cells paints over nothing outside its rows and columns.
pub(crate) proof fn lemma_block_leaves(
    column: nat,
    width: nat,
    rows: nat,
    face: FaceView,
    metrics: CellMetrics,
    top: usize,
    x: int,
    y: int,
)
    requires
        PADDING + (column + width) * metrics.cell_width <= usize::MAX,
        top + rows * metrics.cell_height <= usize::MAX,
        x < cell_left(column, metrics) || x >= cell_left(column + width, metrics) || y < top || y
            >= edge_below(top as int, rows, metrics),
    ensures
        leaves(block_steps(column, width, rows, face, metrics, top), x, y),
{
    let steps = block_steps(column, width, rows, face, metrics, top);
    let h = metrics.cell_height as int;
    let w = metrics.cell_width as int;
    lemma_cells_in_pixels(column, column, width, column + width, metrics);
    assert(column * w + w * width == (column + width) * w) by (nonlinear_arith);
    assert forall|m: int| 0 <= m < steps.len() implies !hides(#[trigger] steps[m], x, y) by {
        assert(0 <= m * h && m * h + h <= rows * h) by (nonlinear_arith)
            requires
                0 <= m < rows,
                h >= 0,
        ;
        assert(lower_row(top, m as nat, metrics) == top + m * h);
    }
}

/// A segment of a row is left in its face, and paints over nothing outside it.
pub(crate) proof fn lemma_segment(
    column: nat,
    width: nat,
    face: FaceView,
    metrics: CellMetrics,
    top: usize,
    cell: nat,
    x: int,
    y: int,
)
    requires
        PADDING + (column + width) * metrics.cell_width <= usize::MAX,
    ensures
        column <= cell < column + width && metrics.cell_width > 0 && metrics.cell_height > 0
            ==> has_ground(
            seq![segment_step(column, width, face, metrics, top)],
            cell_left(cell, metrics),
            top as int,
            PaintView::Root { face },
        ),
        x < cell_left(column, metrics) || x >= cell_left(column + width, metrics) || !(top <= y
            < top + metrics.cell_height) ==> leaves(
            seq![segment_step(column, width, face, metrics, top)],
            x,
            y,
        ),
{
    let w = metrics.cell_width as int;
    let steps = seq![segment_step(column, width, face, metrics, top)];
    lemma_cells_in_pixels(column, column, width, column + width, metrics);
    assert(column * w + w * width == (column + width) * w) by (nonlinear_arith);
    if column <= cell < column + width && metrics.cell_width > 0 && metrics.cell_height > 0 {
        assert(column * w <= cell * w < column * w + w * width) by (nonlinear_arith)
            requires
                column <= cell < column + width,
                w > 0,
        ;
        assert(is_ground_at(
            steps[0],
            cell_left(cell, metrics),
            top as int,
            PaintView::Root { face },
        ));
    }
}

/// Every text that a line writes is a cluster of one of its atoms, in that atom's
/// face.
pub proof fn law_line_writes_its_own_text(
    line: Seq<AtomView>,
    base: FaceView,
    column: nat,
    limit: nat,
    top: usize,
    metrics: CellMetrics,
    k: int,
)
    requires
        0 <= k < line_steps(line, base, column, limit, top, metrics).len(),
        line_steps(line, base, column, limit, top, metrics)[k] is Text,
    ensures
        ({
            let step = line_steps(line, base, column, limit, top, metrics)[k];
            exists|i: int, n: int|
                #![trigger grapheme_clusters(line[i].contents)[n]]
                0 <= i < line.len() && 0 <= n < grapheme_clusters(line[i].contents).len()
                    && step->Text_text == grapheme_clusters(line[i].contents)[n] && step->Text_paint
                    == (PaintView::Derived { base, face: line[i].face })
        }),
    decreases line.len(),
{
    let shorter = line.drop_last();
    let before = line_steps(shorter, base, column, limit, top, metrics);
    let all = line_steps(line, base, column, limit, top, metrics);
    if line.len() > 0 {
        if k < before.len() {
            assert(all[k] == before[k]);
            law_line_writes_its_own_text(shorter, base, column, limit, top, metrics, k);
            let (i, n) = choose|i: int, n: int|
                #![trigger grapheme_clusters(shorter[i].contents)[n]]
                0 <= i < shorter.len() && 0 <= n < grapheme_clusters(shorter[i].contents).len()
                    && before[k]->Text_text == grapheme_clusters(shorter[i].contents)[n]
                    && before[k]->Text_paint == (PaintView::Derived {
                    base,
                    face: shorter[i].face,
                });
            assert(line[i] == shorter[i]);
            assert(grapheme_clusters(line[i].contents)[n] == all[k]->Text_text);
        } else {
            let start = column + line_width(shorter);
            let atom = line.last();
            let own = atom_steps(atom, base, start, limit, top, metrics);
            let paint = PaintView::Derived { base, face: atom.face };
            let texts = cluster_steps(
                grapheme_clusters(atom.contents),
                start,
                limit,
                top,
                metrics,
                paint,
            );
            let j = k - before.len();
            assert(all[k] == own[j]);
            assert(1 <= j <= texts.len());
            assert(own[j] == texts[j - 1]);
            let n = lemma_written_cluster(
                grapheme_clusters(atom.contents),
                start,
                limit,
                top,
                metrics,
                paint,
                j - 1,
            );
            assert(line[line.len() - 1] == atom);
            assert(grapheme_clusters(line[line.len() - 1].contents)[n] == all[k]->Text_text);
        }
    }
}

/// What is written of clusters is one of them.
proof fn lemma_written_cluster(
    clusters: Seq<Seq<char>>,
    column: nat,
    limit: nat,
    top: usize,
    metrics: CellMetrics,
    paint: PaintView,
    k: int,
) -> (n: int)
    requires
        0 <= k < cluster_steps(clusters, column, limit, top, metrics, paint).len(),
    ensures
        0 <= n < clusters.len(),
        cluster_steps(clusters, column, limit, top, metrics, paint)[k] is Text,
        cluster_steps(clusters, column, limit, top, metrics, paint)[k]->Text_text == clusters[n],
        cluster_steps(clusters, column, limit, top, metrics, paint)[k]->Text_paint == paint,
    decreases clusters.len(),
{
    let shorter = clusters.drop_last();
    let before = cluster_steps(shorter, column, limit, top, metrics, paint);
    let all = cluster_steps(clusters, column, limit, top, metrics, paint);
    if k < before.len() {
        assert(all[k] == before[k]);
        let n = lemma_written_cluster(shorter, column, limit, top, metrics, paint, k);
        assert(shorter[n] == clusters[n]);
        n
    } else {
        clusters.len() - 1
    }
}

/// A text that leaves something to see is written.
pub(crate) proof fn lemma_visible_is_written(
    column: nat,
    top: usize,
    text: Seq<char>,
    metrics: CellMetrics,
    paint: PaintView,
)
    requires
        is_visible(text),
    ensures
        text_steps(column, top, text, metrics, paint) == seq![
            DrawStepView::Text { left: column_pixel(column, metrics), top, text, paint },
        ],
{
    let i = choose|i: int|
        0 <= i < text.len() && (0x20 <= (#[trigger] text[i] as u32) < 0x7f || text[i] as u32
            >= 0xa0);
    assert(!is_control_char(text[i]));
}

/// A line that ends before both of two limits is painted alike with either.
proof fn lemma_same_line_with_less_room(
    line: Seq<AtomView>,
    base: FaceView,
    column: nat,
    limit: nat,
    nearer: nat,
    top: usize,
    metrics: CellMetrics,
)
    requires
        column + line_width(line) <= nearer <= limit,
    ensures
        line_steps(line, base, column, limit, top, metrics) == line_steps(
            line,
            base,
            column,
            nearer,
            top,
            metrics,
        ),
    decreases line.len(),
{
    if line.len() > 0 {
        let shorter = line.drop_last();
        lemma_same_line_with_less_room(shorter, base, column, limit, nearer, top, metrics);
        let start = column + line_width(shorter);
        let atom = line.last();
        lemma_same_clusters_with_less_room(
            grapheme_clusters(atom.contents),
            start,
            limit,
            nearer,
            top,
            metrics,
            PaintView::Derived { base, face: atom.face },
        );
    }
}

/// Clusters that end before both of two limits are written alike with either.
proof fn lemma_same_clusters_with_less_room(
    clusters: Seq<Seq<char>>,
    column: nat,
    limit: nat,
    nearer: nat,
    top: usize,
    metrics: CellMetrics,
    paint: PaintView,
)
    requires
        column + clusters_width(clusters) <= nearer <= limit,
        column < nearer || clusters_width(clusters) == 0,
    ensures
        column < nearer ==> cluster_steps(clusters, column, limit, top, metrics, paint)
            == cluster_steps(clusters, column, nearer, top, metrics, paint),
    decreases clusters.len(),
{
    if clusters.len() > 0 && column < nearer {
        let shorter = clusters.drop_last();
        lemma_same_clusters_with_less_room(
            shorter,
            column,
            limit,
            nearer,
            top,
            metrics,
            paint,
        );
    }
}

/// A line paints nothing outside its row, and nothing left of where it begins,
/// whatever its width.
pub(crate) proof fn lemma_line_leaves_before(
    line: Seq<AtomView>,
    base: FaceView,
    column: nat,
    limit: nat,
    top: usize,
    metrics: CellMetrics,
    x: int,
    y: int,
)
    requires
        x < column_pixel(column, metrics) || !(top <= y < top + metrics.cell_height),
    ensures
        leaves(line_steps(line, base, column, limit, top, metrics), x, y),
    decreases line.len(),
{
    if line.len() > 0 {
        let shorter = line.drop_last();
        lemma_line_leaves_before(shorter, base, column, limit, top, metrics, x, y);
        let start = column + line_width(shorter);
        let atom = line.last();
        let width = text_width(atom.contents);
        let shown = if width <= limit - start {
            width
        } else {
            (limit - start) as nat
        };
        let paint = PaintView::Derived { base, face: atom.face };
        let clusters = grapheme_clusters(atom.contents);
        let texts = cluster_steps(clusters, start, limit, top, metrics, paint);
        let ground = seq![fill_step(start, top, shown, metrics, paint)];
        let mark = seq![decorate_step(start, top, shown, metrics, paint)];
        let w = metrics.cell_width as int;
        assert(column * w <= start * w) by (nonlinear_arith)
            requires
                0 <= column <= start,
                w >= 0,
        ;
        lemma_clusters_leave(clusters, start, limit, top, metrics, paint, x, y);
        assert(leaves(ground, x, y));
        lemma_shown_before(ground, texts, x, y, Seq::empty(), paint);
        assert(leaves(mark, x, y));
        lemma_shown_before(ground + texts, mark, x, y, Seq::empty(), paint);
        lemma_shown_before(
            line_steps(shorter, base, column, limit, top, metrics),
            atom_steps(atom, base, start, limit, top, metrics),
            x,
            y,
            Seq::empty(),
            paint,
        );
    }
}

/// In cells without width a line paints over nothing.
pub(crate) proof fn lemma_narrow_line_leaves(
    line: Seq<AtomView>,
    base: FaceView,
    column: nat,
    limit: nat,
    top: usize,
    metrics: CellMetrics,
    x: int,
    y: int,
)
    requires
        metrics.cell_width == 0,
    ensures
        leaves(line_steps(line, base, column, limit, top, metrics), x, y),
    decreases line.len(),
{
    if line.len() > 0 {
        let shorter = line.drop_last();
        let start = column + line_width(shorter);
        lemma_narrow_line_leaves(shorter, base, column, limit, top, metrics, x, y);
        lemma_no_cells_no_ground(line.last(), base, start, limit, top, metrics, x, y);
        lemma_shown_before(
            line_steps(shorter, base, column, limit, top, metrics),
            atom_steps(line.last(), base, start, limit, top, metrics),
            x,
            y,
            Seq::empty(),
            PaintView::Root { face: base },
        );
    }
}

/// A line paints over nothing behind its end.
pub(crate) proof fn lemma_line_ends(
    line: Seq<AtomView>,
    base: FaceView,
    column: nat,
    limit: nat,
    top: usize,
    metrics: CellMetrics,
    cell: nat,
)
    requires
        PADDING + limit * metrics.cell_width <= usize::MAX,
        column + line_width(line) <= cell < limit,
        metrics.cell_width > 0,
    ensures
        leaves(
            line_steps(line, base, column, limit, top, metrics),
            cell_left(cell, metrics),
            top as int,
        ),
{
    let w = metrics.cell_width as int;
    assert(cell * w < limit * w) by (nonlinear_arith)
        requires
            0 <= cell < limit,
            w > 0,
    ;
    lemma_same_line_with_less_room(line, base, column, limit, cell, top, metrics);
    lemma_line_leaves(line, base, column, cell, top, metrics, cell_left(cell, metrics), top as int);
}

/// A segment of a row paints nothing outside its row, and nothing left of where it
/// begins, whatever its width.
pub(crate) proof fn lemma_segment_leaves(
    column: nat,
    width: nat,
    face: FaceView,
    metrics: CellMetrics,
    top: usize,
    x: int,
    y: int,
)
    requires
        x < column_pixel(column, metrics) || !(top <= y < top + metrics.cell_height)
            || metrics.cell_width == 0,
    ensures
        leaves(seq![segment_step(column, width, face, metrics, top)], x, y),
{
    if metrics.cell_width == 0 {
        assert(0 * width == 0) by (nonlinear_arith);
    }
}

/// Control characters alone are not written: a text of them leaves no step.
pub proof fn law_control_characters_are_not_written(
    column: nat,
    top: usize,
    text: Seq<char>,
    metrics: CellMetrics,
    paint: PaintView,
)
    requires
        forall|i: int|
            0 <= i < text.len() ==> (#[trigger] text[i] as u32) < 32 || 127 <= text[i] as u32
                <= 159,
    ensures
        text_steps(column, top, text, metrics, paint) == Seq::<DrawStepView>::empty(),
{
    assert forall|i: int| 0 <= i < text.len() implies is_control_char(#[trigger] text[i]) by {}
}

} // verus!
