//! The steps that paint a window: text, cursor, status line and title.

use vstd::prelude::*;

use crate::app::{GridState, GridView, StatusState, StatusView};
use crate::draw::{
    cell_left, decorate_steps, draw_text_cluster, draw_text_decorations, edge_below, fill_cells,
    fill_line_segment_at_top, fill_step, has_ground, has_marks, is_ground_at, is_mark_at,
    is_text_at, is_visible, law_line_shows_its_faces, law_line_shows_its_text, leaves,
    lemma_line_ends, lemma_line_leaves, lemma_segment, lemma_shown_after, lemma_shown_before, line_steps, push_step,
    render_line_at_top, segment_step, shows, text_steps, DrawStep, DrawStepView, Paint, PaintView,
};
use crate::layout::{
    bottom_overlay_top, cell_side, less, overlay_top, row_pixel, row_top, CellMetrics,
    LayoutMetrics, PADDING,
};
use crate::messages::{Atom, AtomView, Face, FaceView};
use crate::text::{
    cluster_display_width, cluster_width, clusters_width, cut_title, ends_line, grapheme_clusters,
    is_line_end, line_display_width, line_width, text_chars, text_clusters, truncate_title,
};

verus! {

/// The cell under the cursor.
#[derive(Debug, Clone, PartialEq, Eq)]
pub struct CursorCell {
    pub face: Face,
    pub text: Option<String>,
}

/// A cluster of a line with the face that it is drawn in.
pub struct CellView {
    pub face: FaceView,
    pub text: Seq<char>,
}

impl CursorCell {
    /// The cell's face and text; a cell always has a text.
    pub open spec fn shows(self, cell: CellView) -> bool {
        &&& self.face.deep_view() == cell.face
        &&& self.text is Some
        &&& self.text->0@ == cell.text
    }
}

/// The clusters of an atom, each with the atom's face.
pub open spec fn atom_cells(atom: AtomView) -> Seq<CellView> {
    grapheme_clusters(atom.contents).map_values(
        |cluster: Seq<char>| CellView { face: atom.face, text: cluster },
    )
}

/// The clusters of a line, each with its face.
pub open spec fn line_cells(line: Seq<AtomView>) -> Seq<CellView>
    decreases line.len(),
{
    if line.len() == 0 {
        Seq::empty()
    } else {
        line_cells(line.drop_last()) + atom_cells(line.last())
    }
}

/// The columns that a cluster of a line takes: none for a line end.
pub open spec fn cell_span(cell: CellView) -> nat {
    if is_line_end(cell.text) {
        0
    } else {
        cluster_width(cell.text)
    }
}

/// The columns that a run of clusters takes.
pub open spec fn cells_span(cells: Seq<CellView>) -> nat
    decreases cells.len(),
{
    if cells.len() == 0 {
        0
    } else {
        cells_span(cells.drop_last()) + cell_span(cells.last())
    }
}

/// Whether the cluster at `k` stands under the cursor in `column`. A line end
/// does where the cursor stands right behind the clusters before it.
pub open spec fn covers(cells: Seq<CellView>, column: nat, k: int) -> bool {
    let start = cells_span(cells.take(k));
    &&& 0 <= k < cells.len()
    &&& if is_line_end(cells[k].text) {
        start == column
    } else {
        start <= column < start + cell_span(cells[k])
    }
}

/// Whether the cluster at `k` is the first under the cursor in `column`.
pub open spec fn first_cover(cells: Seq<CellView>, column: nat, k: int) -> bool {
    &&& covers(cells, column, k)
    &&& forall|j: int| 0 <= j < k ==> !covers(cells, column, j)
}

/// What the cursor shows of a cluster: a blank in place of a line end.
pub open spec fn under_cursor(cell: CellView) -> CellView {
    if is_line_end(cell.text) {
        CellView { face: cell.face, text: " "@ }
    } else {
        cell
    }
}

/// The cell of a line that the cursor stands on in `column`.
pub open spec fn cursor_on(line: Option<Seq<AtomView>>, column: nat) -> Option<CellView> {
    match line {
        Some(atoms) => {
            let cells = line_cells(atoms);
            if exists|k: int| first_cover(cells, column, k) {
                Some(under_cursor(cells[choose|k: int| first_cover(cells, column, k)]))
            } else {
                None
            }
        },
        None => None,
    }
}

/// The first cluster under the cursor is the one that the cursor stands on.
proof fn lemma_cursor_on(line: Seq<AtomView>, column: nat, k: int)
    requires
        first_cover(line_cells(line), column, k),
    ensures
        cursor_on(Some(line), column) == Some(under_cursor(line_cells(line)[k])),
{
    let cells = line_cells(line);
    let chosen = choose|j: int| first_cover(cells, column, j);
    assert(first_cover(cells, column, chosen));
    if chosen < k {
        assert(!covers(cells, column, chosen));
    } else if k < chosen {
        assert(!covers(cells, column, k));
    }
}

/// The clusters of a line begin with those of its first atoms.
proof fn lemma_cells_of_prefix(line: Seq<AtomView>, n: int)
    requires
        0 <= n <= line.len(),
    ensures
        line_cells(line.take(n)).len() <= line_cells(line).len(),
        line_cells(line).take(line_cells(line.take(n)).len() as int) == line_cells(line.take(n)),
    decreases line.len() - n,
{
    if n == line.len() {
        assert(line.take(n) =~= line);
        assert(line_cells(line).take(line_cells(line).len() as int) =~= line_cells(line));
    } else {
        lemma_cells_of_prefix(line, n + 1);
        assert(line.take(n + 1).drop_last() =~= line.take(n));
        let shorter = line_cells(line.take(n));
        let longer = line_cells(line.take(n + 1));
        assert(longer.take(shorter.len() as int) =~= shorter);
        assert(line_cells(line).take(longer.len() as int).take(shorter.len() as int)
            =~= line_cells(line).take(shorter.len() as int));
    }
}

/// The cell of a line that the cursor stands on in `target_column`. Its text is
/// never empty.
pub fn cursor_cell(line: Option<&[Atom]>, target_column: usize) -> (cell: Option<CursorCell>)
    ensures
        ({
            let atoms = match line {
                Some(atoms) => Some(atoms.deep_view()),
                None => None,
            };
            match cell {
                Some(found) => match cursor_on(atoms, target_column as nat) {
                    Some(expected) => found.shows(expected),
                    None => false,
                },
                None => cursor_on(atoms, target_column as nat) is None,
            }
        }),
        cell matches Some(found) ==> found.text is Some && found.text->0@.len() > 0,
{
    let atoms = match line {
        Some(atoms) => atoms,
        None => return None,
    };
    let ghost views = atoms.deep_view();
    let ghost cells = line_cells(views);
    let mut column: usize = 0;
    for i in 0..atoms.len()
        invariant
            line == Some(atoms),
            views == atoms.deep_view(),
            cells == line_cells(views),
            column <= target_column,
            column == cells_span(line_cells(views.take(i as int))),
            forall|k: int|
                0 <= k < line_cells(views.take(i as int)).len() ==> !covers(
                    cells,
                    target_column as nat,
                    k,
                ),
    {
        let atom = &atoms[i];
        let clusters = text_clusters(atom.contents.as_str());
        let ghost before = line_cells(views.take(i as int));
        let ghost own = atom_cells(atom.deep_view());
        proof {
            lemma_cells_of_prefix(views, i as int);
            lemma_cells_of_prefix(views, i + 1);
            assert(views.take(i + 1).drop_last() =~= views.take(i as int));
            assert(views.take(i + 1).last() == atom.deep_view());
            assert(before + own.take(0) =~= before);
        }
        for j in 0..clusters.len()
            invariant
                line == Some(atoms),
                views == atoms.deep_view(),
                cells == line_cells(views),
                0 <= i < atoms@.len(),
                *atom == atoms@[i as int],
                before == line_cells(views.take(i as int)),
                own == atom_cells(atom.deep_view()),
                clusters.deep_view() == grapheme_clusters(atom.contents@),
                forall|k: int|
                    0 <= k < clusters@.len() ==> #[trigger] clusters@[k]@.len() > 0,
                line_cells(views.take(i + 1)) == before + own,
                before.len() + own.len() <= cells.len(),
                cells.take((before.len() + own.len()) as int) == before + own,
                column <= target_column,
                column == cells_span(before + own.take(j as int)),
                forall|k: int|
                    0 <= k < before.len() + j ==> !covers(cells, target_column as nat, k),
        {
            let ghost at = before.len() + j;
            proof {
                assert(clusters.deep_view()[j as int] == clusters@[j as int]@);
                assert(own[j as int].text == clusters@[j as int]@);
                assert(cells[at] == (before + own)[at]);
                assert(cells.take(at) =~= before + own.take(j as int)) by {
                    assert(cells.take((before.len() + own.len()) as int).take(at) =~= cells.take(
                        at,
                    ));
                    assert((before + own).take(at) =~= before + own.take(j as int));
                }
                assert((before + own.take(j + 1)).drop_last() =~= before + own.take(j as int));
                assert((before + own.take(j + 1)).last() == own[j as int]);
            }
            if ends_line(clusters[j]) {
                if column == target_column {
                    proof {
                        reveal_strlit(" ");
                        assert(first_cover(cells, target_column as nat, at));
                        lemma_cursor_on(views, target_column as nat, at);
                    }
                    return Some(
                        CursorCell { face: atom.face.clone(), text: Some(" ".to_string()) },
                    );
                }
            } else {
                let span = cluster_display_width(clusters[j]);
                if span > target_column - column {
                    proof {
                        assert(first_cover(cells, target_column as nat, at));
                        lemma_cursor_on(views, target_column as nat, at);
                    }
                    return Some(
                        CursorCell {
                            face: atom.face.clone(),
                            text: Some(clusters[j].to_string()),
                        },
                    );
                }
                column = column + span;
            }
        }
        assert(before + own.take(clusters.len() as int) =~= before + own);
    }
    assert(views.take(atoms.len() as int) =~= views);
    None
}

/// The clusters of an atom take as many columns as its text.
proof fn lemma_atom_span(atom: AtomView, n: int)
    requires
        0 <= n <= atom_cells(atom).len(),
    ensures
        cells_span(atom_cells(atom).take(n)) == clusters_width(
            grapheme_clusters(atom.contents).take(n),
        ),
    decreases n,
{
    if n > 0 {
        lemma_atom_span(atom, n - 1);
        let clusters = grapheme_clusters(atom.contents);
        assert(atom_cells(atom).take(n).drop_last() =~= atom_cells(atom).take(n - 1));
        assert(clusters.take(n).drop_last() =~= clusters.take(n - 1));
        assert(atom_cells(atom).take(n).last().text == clusters.take(n).last());
    }
}

/// The columns of two runs add up.
proof fn lemma_span_adds(a: Seq<CellView>, b: Seq<CellView>)
    ensures
        cells_span(a + b) == cells_span(a) + cells_span(b),
    decreases b.len(),
{
    if b.len() == 0 {
        assert(a + b =~= a);
    } else {
        lemma_span_adds(a, b.drop_last());
        assert((a + b).drop_last() =~= a + b.drop_last());
        assert((a + b).last() == b.last());
    }
}

/// The clusters of a line take as many columns as the line.
proof fn lemma_line_span(line: Seq<AtomView>)
    ensures
        cells_span(line_cells(line)) == line_width(line),
    decreases line.len(),
{
    if line.len() > 0 {
        lemma_line_span(line.drop_last());
        let atom = line.last();
        let clusters = grapheme_clusters(atom.contents);
        lemma_atom_span(atom, clusters.len() as int);
        assert(atom_cells(atom).take(clusters.len() as int) =~= atom_cells(atom));
        assert(clusters.take(clusters.len() as int) =~= clusters);
        lemma_span_adds(line_cells(line.drop_last()), atom_cells(atom));
    }
}

/// A column within the first `n` clusters is covered by one of them, and by a
/// first one.
proof fn lemma_some_cluster_covers(cells: Seq<CellView>, column: nat, n: int)
    requires
        0 <= n <= cells.len(),
        column < cells_span(cells.take(n)),
    ensures
        exists|k: int| first_cover(cells, column, k),
    decreases n,
{
    if n > 0 {
        let shorter = cells.take(n - 1);
        assert(cells.take(n).drop_last() =~= shorter);
        assert(cells.take(n).last() == cells[n - 1]);
        if column < cells_span(shorter) {
            lemma_some_cluster_covers(cells, column, n - 1);
        } else {
            assert(covers(cells, column, n - 1));
            lemma_first_of_covers(cells, column, n - 1);
        }
    }
}

/// Among clusters that cover a column there is a first.
proof fn lemma_first_of_covers(cells: Seq<CellView>, column: nat, k: int)
    requires
        covers(cells, column, k),
    ensures
        exists|j: int| first_cover(cells, column, j),
    decreases k,
{
    if exists|j: int| 0 <= j < k && covers(cells, column, j) {
        let j = choose|j: int| 0 <= j < k && covers(cells, column, j);
        lemma_first_of_covers(cells, column, j);
    } else {
        assert(first_cover(cells, column, k));
    }
}

/// The cursor finds a cell in every column of a line's text.
pub proof fn law_cursor_finds_every_column(line: Seq<AtomView>, column: nat)
    requires
        column < line_width(line),
    ensures
        cursor_on(Some(line), column) is Some,
{
    lemma_line_span(line);
    let cells = line_cells(line);
    assert(cells.take(cells.len() as int) =~= cells);
    lemma_some_cluster_covers(cells, column, cells.len() as int);
}

/// The cell that the cursor shows: the one it stands on, or a blank in the
/// default face.
pub open spec fn shown_cursor(grid: GridView) -> CellView {
    let line = if grid.cursor_pos.line < grid.lines.len() {
        Some(grid.lines[grid.cursor_pos.line as int])
    } else {
        None
    };
    match cursor_on(line, grid.cursor_pos.column as nat) {
        Some(cell) => cell,
        None => CellView { face: grid.default_face, text: " "@ },
    }
}

/// The steps that paint the cursor, if it stands within the grid.
pub open spec fn cursor_steps(
    grid: GridView,
    cols: usize,
    rows: usize,
    metrics: CellMetrics,
    top_padding: usize,
) -> Seq<DrawStepView> {
    let column = grid.cursor_pos.column as nat;
    if grid.cursor_pos.line >= rows || column >= cols {
        Seq::empty()
    } else {
        let cell = shown_cursor(grid);
        let paint = PaintView::Derived { base: grid.default_face, face: cell.face };
        let top = row_pixel(grid.cursor_pos.line as nat, metrics, top_padding);
        seq![fill_step(column, top, 1, metrics, paint)] + text_steps(
            column,
            top,
            cell.text,
            metrics,
            paint,
        ) + decorate_steps(column, top, 1, metrics, paint)
    }
}

/// Paint the cursor, if it stands within the grid.
pub fn render_grid_cursor(
    steps: &mut Vec<DrawStep>,
    grid: &GridState,
    cols: usize,
    rows: usize,
    metrics: &CellMetrics,
    top_padding: usize,
)
    ensures
        final(steps).deep_view() == old(steps).deep_view() + cursor_steps(
            grid.deep_view(),
            cols,
            rows,
            *metrics,
            top_padding,
        ),
{
    let cursor = grid.cursor_pos;
    if cursor.line >= rows || cursor.column >= cols {
        assert(steps.deep_view() + Seq::empty() =~= steps.deep_view());
        return ;
    }
    let line: Option<&[Atom]> = if cursor.line < grid.lines.len() {
        assert(grid.lines.deep_view()[cursor.line as int]
            == grid.lines@[cursor.line as int].deep_view());
        Some(grid.lines[cursor.line].as_slice())
    } else {
        None
    };
    let cell = match cursor_cell(line, cursor.column) {
        Some(cell) => cell,
        None => CursorCell { face: grid.default_face.clone(), text: Some(" ".to_string()) },
    };
    assert(cell.shows(shown_cursor(grid.deep_view())));
    let top = row_top(cursor.line, metrics, top_padding);
    let paint = Paint::Derived { base: grid.default_face.clone(), face: cell.face };
    fill_cells(steps, cursor.column, top, 1, metrics, paint.clone());
    if let Some(text) = &cell.text {
        draw_text_cluster(steps, cursor.column, top, text.as_str(), metrics, &paint);
    }
    draw_text_decorations(steps, cursor.column, top, 1, metrics, paint);
    assert(steps.deep_view() =~= old(steps).deep_view() + cursor_steps(
        grid.deep_view(),
        cols,
        rows,
        *metrics,
        top_padding,
    ));
}

/// A copy of a line.
pub(crate) fn copied_line(line: &Vec<Atom>) -> (copy: Vec<Atom>)
    ensures
        copy.deep_view() == line.deep_view(),
{
    let copy = line.clone();
    assert(copy.deep_view() =~= line.deep_view());
    copy
}

/// Two lines, one after the other.
fn joined_line(first: &Vec<Atom>, second: &Vec<Atom>) -> (line: Vec<Atom>)
    ensures
        line.deep_view() == first.deep_view() + second.deep_view(),
{
    let mut line = copied_line(first);
    let ghost tail = second.deep_view();
    assert(line.deep_view() =~= first.deep_view() + tail.take(0));
    for i in 0..second.len()
        invariant
            tail == second.deep_view(),
            line.deep_view() == first.deep_view() + tail.take(i as int),
    {
        let ghost before = line.deep_view();
        line.push(second[i].clone());
        assert(line.deep_view() =~= before.push(tail[i as int]));
        assert(line.deep_view() =~= first.deep_view() + tail.take(i + 1));
    }
    assert(tail.take(second.len() as int) =~= tail);
    line
}

/// The column where the mode line begins: it ends at the right edge.
pub open spec fn mode_start(cols: usize, mode_line: Seq<AtomView>) -> nat {
    less(cols as int, line_width(mode_line) as int)
}

/// The steps that paint the status line on the lower border: the prompt and its
/// content from the left, up to where the mode line begins.
pub open spec fn status_steps(
    cols: usize,
    status: StatusView,
    metrics: CellMetrics,
    window_height: usize,
) -> Seq<DrawStepView> {
    let top = overlay_top(window_height, metrics.cell_height, 1);
    let right_start = mode_start(cols, status.mode_line);
    seq![segment_step(0, cols as nat, status.default_face, metrics, top)] + line_steps(
        status.prompt + status.content,
        status.default_face,
        0,
        right_start,
        top,
        metrics,
    ) + line_steps(
        status.mode_line,
        status.default_face,
        right_start,
        cols as nat,
        top,
        metrics,
    )
}

/// Paint the status line.
pub fn render_status(
    steps: &mut Vec<DrawStep>,
    cols: usize,
    status: &StatusState,
    metrics: &CellMetrics,
    window_height: usize,
)
    ensures
        final(steps).deep_view() == old(steps).deep_view() + status_steps(
            cols,
            status.deep_view(),
            *metrics,
            window_height,
        ),
{
    let top = bottom_overlay_top(window_height, metrics.cell_height, 1);
    fill_line_segment_at_top(steps, 0, cols, &status.default_face, metrics, top);
    let prompt_line = joined_line(&status.prompt, &status.content);
    let mode_width = line_display_width(status.mode_line.as_slice());
    let right_start = cols.saturating_sub(mode_width);
    assert(right_start == mode_start(cols, status.mode_line.deep_view()));
    render_line_at_top(
        steps,
        0,
        right_start,
        prompt_line.as_slice(),
        &status.default_face,
        metrics,
        top,
    );
    render_line_at_top(
        steps,
        right_start,
        cols,
        status.mode_line.as_slice(),
        &status.default_face,
        metrics,
        top,
    );
    assert(steps.deep_view() =~= old(steps).deep_view() + status_steps(
        cols,
        status.deep_view(),
        *metrics,
        window_height,
    ));
}

/// The steps that write the title into a transparent menu bar: none without
/// such a bar, or where nothing of the title fits between the borders.
pub open spec fn title_steps(
    title: Seq<char>,
    face: FaceView,
    metrics: CellMetrics,
    layout: LayoutMetrics,
    window_width: usize,
    transparent_menubar: bool,
) -> Seq<DrawStepView> {
    let columns = less(window_width as int, PADDING * 2) / (cell_side(metrics.cell_width) as nat);
    let text = cut_title(title, columns);
    if !transparent_menubar || layout.top_padding <= PADDING || title.len() == 0 || text.len()
        == 0 {
        Seq::empty()
    } else {
        seq![
            DrawStepView::Title {
                top: (less(layout.top_padding as int, metrics.cell_height as int) / 2) as usize,
                text,
                paint: PaintView::Root { face },
            },
        ]
    }
}

/// Write the title into a transparent menu bar.
pub fn render_window_title(
    steps: &mut Vec<DrawStep>,
    title: &str,
    default_face: &Face,
    metrics: &CellMetrics,
    layout: LayoutMetrics,
    window_width: usize,
    transparent_menubar: bool,
)
    ensures
        final(steps).deep_view() == old(steps).deep_view() + title_steps(
            title@,
            default_face.deep_view(),
            *metrics,
            layout,
            window_width,
            transparent_menubar,
        ),
{
    if !transparent_menubar || layout.top_padding <= PADDING || title.is_empty() {
        assert(steps.deep_view() + Seq::empty() =~= steps.deep_view());
        return ;
    }
    let side: usize = if metrics.cell_width == 0 {
        1
    } else {
        metrics.cell_width
    };
    let columns = window_width.saturating_sub(PADDING * 2) / side;
    let text = truncate_title(title, columns);
    if text.as_str().is_empty() {
        assert(steps.deep_view() + Seq::empty() =~= steps.deep_view());
        return ;
    }
    let top = layout.top_padding.saturating_sub(metrics.cell_height) / 2;
    push_step(
        steps,
        DrawStep::Title { top, text, paint: Paint::Root { face: default_face.clone() } },
    );
    assert(steps.deep_view() =~= old(steps).deep_view() + title_steps(
        title@,
        default_face.deep_view(),
        *metrics,
        layout,
        window_width,
        transparent_menubar,
    ));
}

/// The steps that paint the first `rows` lines of the grid, one row each.
pub open spec fn grid_steps(
    lines: Seq<Seq<AtomView>>,
    face: FaceView,
    cols: usize,
    rows: nat,
    metrics: CellMetrics,
    top_padding: usize,
) -> Seq<DrawStepView>
    decreases rows,
{
    if rows == 0 {
        Seq::empty()
    } else {
        let row = (rows - 1) as nat;
        grid_steps(lines, face, cols, row, metrics, top_padding) + line_steps(
            lines[row as int],
            face,
            0,
            cols as nat,
            row_pixel(row, metrics, top_padding),
            metrics,
        )
    }
}

/// The lines of a grid that fit in `rows` rows.
pub open spec fn lines_shown(lines: Seq<Seq<AtomView>>, rows: usize) -> nat {
    if lines.len() <= rows {
        lines.len()
    } else {
        rows as nat
    }
}

/// Paint the lines of a grid that fit in `rows` rows.
pub fn render_grid_lines(
    steps: &mut Vec<DrawStep>,
    grid: &GridState,
    cols: usize,
    rows: usize,
    metrics: &CellMetrics,
    top_padding: usize,
)
    ensures
        final(steps).deep_view() == old(steps).deep_view() + grid_steps(
            grid.lines.deep_view(),
            grid.default_face.deep_view(),
            cols,
            lines_shown(grid.lines.deep_view(), rows),
            *metrics,
            top_padding,
        ),
{
    let shown: usize = if grid.lines.len() <= rows {
        grid.lines.len()
    } else {
        rows
    };
    assert(steps.deep_view() + Seq::empty() =~= steps.deep_view());
    for row in 0..shown
        invariant
            shown <= grid.lines@.len(),
            steps.deep_view() == old(steps).deep_view() + grid_steps(
                grid.lines.deep_view(),
                grid.default_face.deep_view(),
                cols,
                row as nat,
                *metrics,
                top_padding,
            ),
    {
        assert(grid.lines.deep_view()[row as int] == grid.lines@[row as int].deep_view());
        render_line_at_top(
            steps,
            0,
            cols,
            grid.lines[row].as_slice(),
            &grid.default_face,
            metrics,
            row_top(row, metrics, top_padding),
        );
        assert(steps.deep_view() =~= old(steps).deep_view() + grid_steps(
            grid.lines.deep_view(),
            grid.default_face.deep_view(),
            cols,
            (row + 1) as nat,
            *metrics,
            top_padding,
        ));
    }
}

/// A character that only joins or varies others.
pub open spec fn is_joiner(c: char) -> bool {
    c == '\u{200d}' || 0xfe00 <= (c as u32) <= 0xfe0f
}

/// A character of the blocks that hold emoji and dingbats.
pub open spec fn in_emoji_blocks(c: char) -> bool {
    0x1f000 <= (c as u32) <= 0x1faff || 0x2600 <= (c as u32) <= 0x27bf
}

/// Whether a character belongs to the blocks that hold emoji and dingbats.
pub fn is_emojiish(ch: char) -> (yes: bool)
    ensures
        yes == in_emoji_blocks(ch),
{
    let code = ch as u32;
    (0x1f000 <= code && code <= 0x1faff) || (0x2600 <= code && code <= 0x27bf)
}

/// Whether a character only joins or varies others.
fn joins_others(ch: char) -> (yes: bool)
    ensures
        yes == is_joiner(ch),
{
    let code = ch as u32;
    ch == '\u{200d}' || (0xfe00 <= code && code <= 0xfe0f)
}

/// The character that a font for `text` is looked up by: the first that does
/// not only join or vary others.
pub fn fallback_character(text: &str) -> (found: Option<char>)
    ensures
        match found {
            Some(c) => exists|k: int|
                #![trigger text@[k]]
                0 <= k < text@.len() && text@[k] == c && !is_joiner(c) && forall|j: int|
                    0 <= j < k ==> is_joiner(#[trigger] text@[j]),
            None => forall|k: int| 0 <= k < text@.len() ==> is_joiner(#[trigger] text@[k]),
        },
{
    let chars = text_chars(text);
    for i in 0..chars.len()
        invariant
            chars@ == text@,
            forall|j: int| 0 <= j < i ==> is_joiner(#[trigger] text@[j]),
    {
        if !joins_others(chars[i]) {
            assert(text@[i as int] == chars@[i as int]);
            return Some(chars[i]);
        }
    }
    None
}

/// Whether a text looks better in a font of its own than in the window's.
pub fn prefers_fallback_font(text: &str) -> (yes: bool)
    ensures
        yes == exists|k: int|
            0 <= k < text@.len() && (is_joiner(#[trigger] text@[k]) || in_emoji_blocks(text@[k])),
{
    let chars = text_chars(text);
    for i in 0..chars.len()
        invariant
            chars@ == text@,
            forall|k: int|
                0 <= k < i ==> !(is_joiner(#[trigger] text@[k]) || in_emoji_blocks(text@[k])),
    {
        if joins_others(chars[i]) || is_emojiish(chars[i]) {
            assert(text@[i as int] == chars@[i as int]);
            return true;
        }
    }
    false
}

/// The font families that are tried one after the other: the one in the
/// settings goes first.
pub open spec fn families(configured: Seq<char>) -> Seq<Seq<char>> {
    seq![
        configured,
        "SF Mono"@,
        "Menlo"@,
        "Monaco"@,
        "JetBrains Mono"@,
        "Courier New"@,
    ]
}

/// Add a name.
fn push_name(names: &mut Vec<String>, name: &str)
    ensures
        final(names).deep_view() == old(names).deep_view().push(name@),
{
    names.push(name.to_string());
    assert(names.deep_view() =~= old(names).deep_view().push(name@));
}

/// The font families that are tried one after the other.
pub fn font_families(configured: &str) -> (names: Vec<String>)
    ensures
        names.deep_view() == families(configured@),
{
    let mut names: Vec<String> = Vec::new();
    push_name(&mut names, configured);
    push_name(&mut names, "SF Mono");
    push_name(&mut names, "Menlo");
    push_name(&mut names, "Monaco");
    push_name(&mut names, "JetBrains Mono");
    push_name(&mut names, "Courier New");
    assert(names.deep_view() =~= families(configured@));
    names
}

/// Rows of the grid above a pixel paint over nothing there.
proof fn lemma_rows_leave(
    lines: Seq<Seq<AtomView>>,
    face: FaceView,
    cols: usize,
    rows: nat,
    metrics: CellMetrics,
    top_padding: usize,
    x: int,
    y: int,
)
    requires
        PADDING + cols * metrics.cell_width <= usize::MAX,
        top_padding + rows * metrics.cell_height <= usize::MAX,
        x < PADDING || x >= cell_left(cols as nat, metrics) || y < top_padding || y >= edge_below(
            top_padding as int,
            rows,
            metrics,
        ),
    ensures
        leaves(grid_steps(lines, face, cols, rows, metrics, top_padding), x, y),
    decreases rows,
{
    if rows > 0 {
        let row = (rows - 1) as nat;
        let h = metrics.cell_height as int;
        assert(0 <= row * h && row * h + h == rows * h) by (nonlinear_arith)
            requires
                row == rows - 1,
                row >= 0,
                h >= 0,
        ;
        lemma_rows_leave(lines, face, cols, row, metrics, top_padding, x, y);
        let top = row_pixel(row, metrics, top_padding);
        lemma_line_leaves(lines[row as int], face, 0, cols as nat, top, metrics, x, y);
        lemma_shown_before(
            grid_steps(lines, face, cols, row, metrics, top_padding),
            line_steps(lines[row as int], face, 0, cols as nat, top, metrics),
            x,
            y,
            Seq::empty(),
            PaintView::Root { face },
        );
    }
}

/// What the line of a row shows is shown by the grid.
proof fn lemma_row_is_shown(
    lines: Seq<Seq<AtomView>>,
    face: FaceView,
    cols: usize,
    rows: nat,
    metrics: CellMetrics,
    top_padding: usize,
    row: nat,
    x: int,
    text: Seq<char>,
    paint: PaintView,
)
    requires
        row < rows,
        PADDING + cols * metrics.cell_width <= usize::MAX,
        top_padding + rows * metrics.cell_height <= usize::MAX,
    ensures
        ({
            let y = edge_below(top_padding as int, row, metrics);
            let own = line_steps(lines[row as int], face, 0, cols as nat, y as usize, metrics);
            let all = grid_steps(lines, face, cols, rows, metrics, top_padding);
            &&& 0 <= y <= usize::MAX
            &&& shows(own, x, y, text, paint) ==> shows(all, x, y, text, paint)
            &&& has_ground(own, x, y, paint) ==> has_ground(all, x, y, paint)
            &&& has_marks(own, x, y, paint) ==> has_marks(all, x, y, paint)
        }),
    decreases rows,
{
    let y = edge_below(top_padding as int, row, metrics);
    let last = (rows - 1) as nat;
    let h = metrics.cell_height as int;
    assert(0 <= row * h <= last * h && last * h + h == rows * h && (row < last ==> row * h + h
        <= last * h)) by (nonlinear_arith)
        requires
            0 <= row <= last,
            last == rows - 1,
            h >= 0,
    ;
    let before = grid_steps(lines, face, cols, last, metrics, top_padding);
    let top = row_pixel(last, metrics, top_padding);
    let then = line_steps(lines[last as int], face, 0, cols as nat, top, metrics);
    if row == last {
        lemma_shown_after(before, then, x, y, text, paint);
    } else {
        lemma_row_is_shown(
            lines,
            face,
            cols,
            last,
            metrics,
            top_padding,
            row,
            x,
            text,
            paint,
        );
        lemma_line_leaves(lines[last as int], face, 0, cols as nat, top, metrics, x, y);
        lemma_shown_before(before, then, x, y, text, paint);
    }
}

/// The grid shows every line in its own row: each cluster of the line of a row
/// that begins before the right edge is written in its atom's face, in the row
/// that stands as many rows below the upper border as lines come before it, and in
/// the column where the text before it in the same line ends.
pub proof fn law_grid_shows_every_line(
    lines: Seq<Seq<AtomView>>,
    face: FaceView,
    cols: usize,
    rows: usize,
    metrics: CellMetrics,
    top_padding: usize,
    row: nat,
    i: int,
    n: int,
)
    requires
        row < rows,
        row < lines.len(),
        0 <= i < lines[row as int].len(),
        0 <= n < grapheme_clusters(lines[row as int][i].contents).len(),
        grapheme_clusters(lines[row as int][i].contents)[n] != seq!['\n'],
        is_visible(grapheme_clusters(lines[row as int][i].contents)[n]),
        line_width(lines[row as int].take(i)) + clusters_width(
            grapheme_clusters(lines[row as int][i].contents).take(n),
        ) < cols,
        PADDING + cols * metrics.cell_width <= usize::MAX,
        top_padding + rows * metrics.cell_height <= usize::MAX,
    ensures
        shows(
            grid_steps(lines, face, cols, lines_shown(lines, rows), metrics, top_padding),
            12 + (line_width(lines[row as int].take(i)) + clusters_width(
                grapheme_clusters(lines[row as int][i].contents).take(n),
            )) * metrics.cell_width,
            top_padding + row * metrics.cell_height,
            grapheme_clusters(lines[row as int][i].contents)[n],
            PaintView::Derived { base: face, face: lines[row as int][i].face },
        ),
{
    let line = lines[row as int];
    let clusters = grapheme_clusters(line[i].contents);
    let at = line_width(line.take(i)) + clusters_width(clusters.take(n));
    let shown = lines_shown(lines, rows);
    let y = edge_below(top_padding as int, row, metrics);
    lemma_fewer_rows_fit(rows as nat, shown, metrics.cell_height);
    lemma_row_is_shown(
        lines,
        face,
        cols,
        shown,
        metrics,
        top_padding,
        row,
        cell_left(at, metrics),
        clusters[n],
        PaintView::Derived { base: face, face: line[i].face },
    );
    law_line_shows_its_text(line, face, 0, cols as nat, y as usize, metrics, i, n);
}

/// Fewer rows are no higher.
proof fn lemma_fewer_rows_fit(rows: nat, fewer: nat, cell_height: usize)
    requires
        fewer <= rows,
    ensures
        0 <= fewer * cell_height <= rows * cell_height,
{
    assert(0 <= fewer * cell_height <= rows * cell_height) by (nonlinear_arith)
        requires
            0 <= fewer <= rows,
            0 <= cell_height,
    ;
}

/// The grid shows the faces of every line in its own row: each cell that an atom
/// takes before the right edge is left in that atom's background and decorations.
pub proof fn law_grid_shows_every_face(
    lines: Seq<Seq<AtomView>>,
    face: FaceView,
    cols: usize,
    rows: usize,
    metrics: CellMetrics,
    top_padding: usize,
    row: nat,
    i: int,
    cell: nat,
)
    requires
        row < rows,
        row < lines.len(),
        0 <= i < lines[row as int].len(),
        line_width(lines[row as int].take(i)) <= cell < line_width(lines[row as int].take(i))
            + clusters_width(grapheme_clusters(lines[row as int][i].contents)),
        cell < cols,
        metrics.cell_width > 0,
        metrics.cell_height > 0,
        PADDING + cols * metrics.cell_width <= usize::MAX,
        top_padding + rows * metrics.cell_height <= usize::MAX,
    ensures
        ({
            let steps = grid_steps(
                lines,
                face,
                cols,
                lines_shown(lines, rows),
                metrics,
                top_padding,
            );
            let x = 12 + cell * metrics.cell_width;
            let y = top_padding + row * metrics.cell_height;
            let paint = PaintView::Derived { base: face, face: lines[row as int][i].face };
            has_ground(steps, x, y, paint) && has_marks(steps, x, y, paint)
        }),
{
    let line = lines[row as int];
    let shown = lines_shown(lines, rows);
    let y = edge_below(top_padding as int, row, metrics);
    lemma_fewer_rows_fit(rows as nat, shown, metrics.cell_height);
    lemma_row_is_shown(
        lines,
        face,
        cols,
        shown,
        metrics,
        top_padding,
        row,
        cell_left(cell, metrics),
        Seq::empty(),
        PaintView::Derived { base: face, face: line[i].face },
    );
    law_line_shows_its_faces(line, face, 0, cols as nat, y as usize, metrics, i, cell);
}

/// The grid paints nothing outside its rows and columns, and nothing below its
/// last line.
pub proof fn law_grid_keeps_to_its_rows(
    lines: Seq<Seq<AtomView>>,
    face: FaceView,
    cols: usize,
    rows: usize,
    metrics: CellMetrics,
    top_padding: usize,
    x: int,
    y: int,
)
    requires
        PADDING + cols * metrics.cell_width <= usize::MAX,
        top_padding + rows * metrics.cell_height <= usize::MAX,
        x < 12 || x >= 12 + cols * metrics.cell_width || y < top_padding || y >= top_padding + rows
            * metrics.cell_height || y >= top_padding + lines.len() * metrics.cell_height,
    ensures
        leaves(grid_steps(lines, face, cols, lines_shown(lines, rows), metrics, top_padding), x, y),
{
    let shown = lines_shown(lines, rows);
    lemma_fewer_rows_fit(rows as nat, shown, metrics.cell_height);
    lemma_fewer_rows_fit(lines.len(), shown, metrics.cell_height);
    lemma_rows_leave(lines, face, cols, shown, metrics, top_padding, x, y);
}

/// Where a cluster of an atom stands among the clusters of its line.
proof fn lemma_cell_of_cluster(line: Seq<AtomView>, i: int, n: int) -> (at: int)
    requires
        0 <= i < line.len(),
        0 <= n < grapheme_clusters(line[i].contents).len(),
    ensures
        at == line_cells(line.take(i)).len() + n,
        0 <= at < line_cells(line).len(),
        line_cells(line)[at] == (CellView {
            face: line[i].face,
            text: grapheme_clusters(line[i].contents)[n],
        }),
        cells_span(line_cells(line).take(at)) == line_width(line.take(i)) + clusters_width(
            grapheme_clusters(line[i].contents).take(n),
        ),
{
    let before = line_cells(line.take(i));
    let own = atom_cells(line[i]);
    let at = before.len() + n;
    lemma_cells_of_prefix(line, i + 1);
    assert(line.take(i + 1).drop_last() =~= line.take(i));
    assert(line.take(i + 1).last() == line[i]);
    let both = before + own;
    assert(line_cells(line.take(i + 1)) == both);
    assert(both[at] == own[n]);
    assert(line_cells(line)[at] == line_cells(line).take(both.len() as int)[at]);
    assert(line_cells(line).take(at) =~= line_cells(line).take(both.len() as int).take(at));
    assert(both.take(at) =~= before + own.take(n));
    lemma_span_adds(before, own.take(n));
    lemma_line_span(line.take(i));
    lemma_atom_span(line[i], n);
    at
}

/// Which cluster of which atom stands at a place among the clusters of a line.
proof fn lemma_cluster_of_cell(line: Seq<AtomView>, at: int) -> (place: (int, int))
    requires
        0 <= at < line_cells(line).len(),
    ensures
        0 <= place.0 < line.len(),
        0 <= place.1 < grapheme_clusters(line[place.0].contents).len(),
        at == line_cells(line.take(place.0)).len() + place.1,
        line_cells(line)[at].text == grapheme_clusters(line[place.0].contents)[place.1],
    decreases line.len(),
{
    let shorter = line.drop_last();
    let before = line_cells(shorter);
    if at < before.len() {
        let place = lemma_cluster_of_cell(shorter, at);
        assert(line_cells(line)[at] == before[at]);
        assert(shorter.take(place.0) =~= line.take(place.0));
        place
    } else {
        assert(line.take(line.len() - 1) =~= shorter);
        (line.len() - 1, at - before.len())
    }
}

/// Clusters further on begin no earlier.
proof fn lemma_span_grows(cells: Seq<CellView>, a: int, b: int)
    requires
        0 <= a <= b <= cells.len(),
    ensures
        cells_span(cells.take(a)) <= cells_span(cells.take(b)),
    decreases b - a,
{
    if a < b {
        lemma_span_grows(cells, a, b - 1);
        assert(cells.take(b).drop_last() =~= cells.take(b - 1));
    }
}

/// Whether a line goes on up to a cluster: no cluster before it ends the line.
pub open spec fn goes_on_to(line: Seq<AtomView>, i: int, n: int) -> bool {
    forall|a: int, b: int|
        #![trigger grapheme_clusters(line[a].contents)[b]]
        0 <= a < line.len() && 0 <= b < grapheme_clusters(line[a].contents).len() && (a < i || a
            == i && b < n) ==> grapheme_clusters(line[a].contents)[b] != seq!['\n']
}

/// No cluster before one that a line goes on to is under the cursor behind it.
proof fn lemma_nothing_before(line: Seq<AtomView>, i: int, n: int, column: nat, j: int)
    requires
        0 <= i < line.len(),
        0 <= n < grapheme_clusters(line[i].contents).len(),
        goes_on_to(line, i, n),
        0 <= j < line_cells(line.take(i)).len() + n,
        column >= line_width(line.take(i)) + clusters_width(
            grapheme_clusters(line[i].contents).take(n),
        ),
    ensures
        !covers(line_cells(line), column, j),
{
    let cells = line_cells(line);
    let at = lemma_cell_of_cluster(line, i, n);
    let (a, b) = lemma_cluster_of_cell(line, j);
    assert(a < i || a == i && b < n) by {
        if a > i {
            assert(line.take(a).take(i + 1) =~= line.take(i + 1));
            lemma_cells_of_prefix(line.take(a), i + 1);
            assert(line.take(i + 1).drop_last() =~= line.take(i));
            assert(line.take(i + 1).last() == line[i]);
        }
    }
    assert(grapheme_clusters(line[a].contents)[b] != seq!['\n']);
    lemma_span_grows(cells, j + 1, at);
    assert(cells.take(j + 1).drop_last() =~= cells.take(j));
    assert(cells.take(j + 1).last() == cells[j]);
}

/// The cursor shows the cluster that it stands on: where a cluster of its line
/// takes the column of the cursor, and the line goes on up to it, that cluster is
/// shown in the cell of the cursor, in its atom's face.
pub proof fn law_cursor_shows_its_cluster(
    grid: GridView,
    cols: usize,
    rows: usize,
    metrics: CellMetrics,
    top_padding: usize,
    i: int,
    n: int,
)
    requires
        grid.cursor_pos.line < rows,
        grid.cursor_pos.column < cols,
        grid.cursor_pos.line < grid.lines.len(),
        0 <= i < grid.lines[grid.cursor_pos.line as int].len(),
        0 <= n < grapheme_clusters(grid.lines[grid.cursor_pos.line as int][i].contents).len(),
        goes_on_to(grid.lines[grid.cursor_pos.line as int], i, n),
        ({
            let line = grid.lines[grid.cursor_pos.line as int];
            let clusters = grapheme_clusters(line[i].contents);
            let start = line_width(line.take(i)) + clusters_width(clusters.take(n));
            &&& clusters[n] != seq!['\n']
            &&& is_visible(clusters[n])
            &&& start <= grid.cursor_pos.column < start + cluster_width(clusters[n])
        }),
        PADDING + cols * metrics.cell_width <= usize::MAX,
        top_padding + rows * metrics.cell_height <= usize::MAX,
    ensures
        cursor_is_shown(
            cursor_steps(grid, cols, rows, metrics, top_padding),
            grid,
            metrics,
            top_padding,
            grapheme_clusters(grid.lines[grid.cursor_pos.line as int][i].contents)[n],
            grid.lines[grid.cursor_pos.line as int][i].face,
        ),
{
    let line = grid.lines[grid.cursor_pos.line as int];
    let column = grid.cursor_pos.column as nat;
    let cells = line_cells(line);
    let at = lemma_cell_of_cluster(line, i, n);
    assert(covers(cells, column, at));
    assert forall|j: int| 0 <= j < at implies !covers(cells, column, j) by {
        lemma_nothing_before(line, i, n, column, j);
    }
    assert(first_cover(cells, column, at));
    lemma_cursor_on(line, column, at);
    lemma_cursor_is_shown(grid, cols, rows, metrics, top_padding);
}

/// Whether steps show a text in a face in the cell of the cursor, on the face's
/// background and with its decorations.
pub open spec fn cursor_is_shown(
    steps: Seq<DrawStepView>,
    grid: GridView,
    metrics: CellMetrics,
    top_padding: usize,
    text: Seq<char>,
    face: FaceView,
) -> bool {
    let x = 12 + grid.cursor_pos.column * metrics.cell_width;
    let y = top_padding + grid.cursor_pos.line * metrics.cell_height;
    let paint = PaintView::Derived { base: grid.default_face, face };
    &&& shows(steps, x, y, text, paint)
    &&& metrics.cell_width > 0 && metrics.cell_height > 0 ==> has_ground(steps, x, y, paint)
        && has_marks(steps, x, y, paint)
}

/// The cursor shows the cell that it stands on.
proof fn lemma_cursor_is_shown(
    grid: GridView,
    cols: usize,
    rows: usize,
    metrics: CellMetrics,
    top_padding: usize,
)
    requires
        grid.cursor_pos.line < rows,
        grid.cursor_pos.column < cols,
        is_visible(shown_cursor(grid).text),
        PADDING + cols * metrics.cell_width <= usize::MAX,
        top_padding + rows * metrics.cell_height <= usize::MAX,
    ensures
        cursor_is_shown(
            cursor_steps(grid, cols, rows, metrics, top_padding),
            grid,
            metrics,
            top_padding,
            shown_cursor(grid).text,
            shown_cursor(grid).face,
        ),
{
    let cell = shown_cursor(grid);
    let column = grid.cursor_pos.column as nat;
    let row = grid.cursor_pos.line as nat;
    let paint = PaintView::Derived { base: grid.default_face, face: cell.face };
    let top = row_pixel(row, metrics, top_padding);
    let w = metrics.cell_width as int;
    assert(0 <= column * w && column * w + w <= cols * w && w * 1 == w) by (nonlinear_arith)
        requires
            0 <= column < cols,
            w >= 0,
    ;
    lemma_fewer_rows_fit(rows as nat, row, metrics.cell_height);
    let x = cell_left(column, metrics);
    let y = top as int;
    let ground = seq![fill_step(column, top, 1, metrics, paint)];
    let texts = text_steps(column, top, cell.text, metrics, paint);
    let marks = decorate_steps(column, top, 1, metrics, paint);
    crate::draw::lemma_visible_is_written(column, top, cell.text, metrics, paint);
    assert(is_text_at(texts[0], x, y, cell.text, paint));
    assert(shows(texts, x, y, cell.text, paint));
    assert(leaves(texts, x, y));
    assert(leaves(marks, x, y));
    lemma_shown_after(ground, texts, x, y, cell.text, paint);
    lemma_shown_before(ground + texts, marks, x, y, cell.text, paint);
    if metrics.cell_width > 0 && metrics.cell_height > 0 {
        assert(is_ground_at(ground[0], x, y, paint));
        assert(has_ground(ground, x, y, paint));
        lemma_shown_before(ground, texts, x, y, cell.text, paint);
        lemma_shown_before(ground + texts, marks, x, y, cell.text, paint);
        assert(is_mark_at(marks[0], x, y, paint));
        assert(has_marks(marks, x, y, paint));
        lemma_shown_after(ground + texts, marks, x, y, cell.text, paint);
    }
}

/// On the end of a line the cursor shows a blank in the face of the atom that ends
/// the line.
pub proof fn law_cursor_shows_line_end_as_blank(
    grid: GridView,
    cols: usize,
    rows: usize,
    metrics: CellMetrics,
    top_padding: usize,
    i: int,
    n: int,
)
    requires
        grid.cursor_pos.line < rows,
        grid.cursor_pos.column < cols,
        grid.cursor_pos.line < grid.lines.len(),
        0 <= i < grid.lines[grid.cursor_pos.line as int].len(),
        0 <= n < grapheme_clusters(grid.lines[grid.cursor_pos.line as int][i].contents).len(),
        goes_on_to(grid.lines[grid.cursor_pos.line as int], i, n),
        ({
            let line = grid.lines[grid.cursor_pos.line as int];
            let clusters = grapheme_clusters(line[i].contents);
            &&& clusters[n] == seq!['\n']
            &&& grid.cursor_pos.column == line_width(line.take(i)) + clusters_width(
                clusters.take(n),
            )
        }),
        PADDING + cols * metrics.cell_width <= usize::MAX,
        top_padding + rows * metrics.cell_height <= usize::MAX,
    ensures
        cursor_is_shown(
            cursor_steps(grid, cols, rows, metrics, top_padding),
            grid,
            metrics,
            top_padding,
            seq![' '],
            grid.lines[grid.cursor_pos.line as int][i].face,
        ),
{
    let line = grid.lines[grid.cursor_pos.line as int];
    let column = grid.cursor_pos.column as nat;
    let cells = line_cells(line);
    let at = lemma_cell_of_cluster(line, i, n);
    assert(covers(cells, column, at));
    assert forall|j: int| 0 <= j < at implies !covers(cells, column, j) by {
        lemma_nothing_before(line, i, n, column, j);
    }
    assert(first_cover(cells, column, at));
    lemma_cursor_on(line, column, at);
    reveal_strlit(" ");
    assert(" "@ =~= seq![' ']);
    assert(0x20 <= seq![' '][0] as u32);
    lemma_cursor_is_shown(grid, cols, rows, metrics, top_padding);
}

/// Behind the text of its line, and below the last line, the cursor shows a blank
/// in the default face.
pub proof fn law_cursor_behind_the_text_is_blank(
    grid: GridView,
    cols: usize,
    rows: usize,
    metrics: CellMetrics,
    top_padding: usize,
)
    requires
        grid.cursor_pos.line < rows,
        grid.cursor_pos.column < cols,
        grid.cursor_pos.line < grid.lines.len() ==> {
            let line = grid.lines[grid.cursor_pos.line as int];
            grid.cursor_pos.column >= line_width(line) && goes_on_to(line, line.len() as int, 0)
        },
        PADDING + cols * metrics.cell_width <= usize::MAX,
        top_padding + rows * metrics.cell_height <= usize::MAX,
    ensures
        cursor_is_shown(
            cursor_steps(grid, cols, rows, metrics, top_padding),
            grid,
            metrics,
            top_padding,
            seq![' '],
            grid.default_face,
        ),
{
    let column = grid.cursor_pos.column as nat;
    if grid.cursor_pos.line < grid.lines.len() {
        let line = grid.lines[grid.cursor_pos.line as int];
        let cells = line_cells(line);
        assert forall|k: int| !first_cover(cells, column, k) by {
            if covers(cells, column, k) {
                let (a, b) = lemma_cluster_of_cell(line, k);
                assert(grapheme_clusters(line[a].contents)[b] != seq!['\n']);
                lemma_line_span(line);
                lemma_span_grows(cells, k + 1, cells.len() as int);
                assert(cells.take(cells.len() as int) =~= cells);
                assert(cells.take(k + 1).drop_last() =~= cells.take(k));
                assert(cells.take(k + 1).last() == cells[k]);
            }
        }
    }
    reveal_strlit(" ");
    assert(" "@ =~= seq![' ']);
    assert(0x20 <= seq![' '][0] as u32);
    lemma_cursor_is_shown(grid, cols, rows, metrics, top_padding);
}

/// A cursor outside the grid is not painted, and one inside paints its own cell
/// only.
pub proof fn law_cursor_keeps_to_its_cell(
    grid: GridView,
    cols: usize,
    rows: usize,
    metrics: CellMetrics,
    top_padding: usize,
    x: int,
    y: int,
)
    requires
        PADDING + cols * metrics.cell_width <= usize::MAX,
        top_padding + rows * metrics.cell_height <= usize::MAX,
    ensures
        grid.cursor_pos.line >= rows || grid.cursor_pos.column >= cols ==> cursor_steps(
            grid,
            cols,
            rows,
            metrics,
            top_padding,
        ) == Seq::<DrawStepView>::empty(),
        x < 12 + grid.cursor_pos.column * metrics.cell_width || x >= 12 + (grid.cursor_pos.column
            + 1) * metrics.cell_width || y < top_padding + grid.cursor_pos.line
            * metrics.cell_height || y >= top_padding + (grid.cursor_pos.line + 1)
            * metrics.cell_height ==> leaves(
            cursor_steps(grid, cols, rows, metrics, top_padding),
            x,
            y,
        ),
{
    let column = grid.cursor_pos.column as nat;
    let row = grid.cursor_pos.line as nat;
    let w = metrics.cell_width as int;
    let h = metrics.cell_height as int;
    if row < rows && column < cols {
        assert(0 <= column * w && column * w + w <= cols * w && w * 1 == w && (column + 1) * w
            == column * w + w) by (nonlinear_arith)
            requires
                0 <= column < cols,
                w >= 0,
        ;
        assert((row + 1) * h == row * h + h) by (nonlinear_arith);
        lemma_fewer_rows_fit(rows as nat, row, metrics.cell_height);
    }
}

/// The status line shows its prompt, its content behind it, and its mode line at
/// the right edge, in the last row above the lower border. Each cluster of the
/// prompt and the content that begins before the mode line does, and each cluster
/// of the mode line, is written in its own face.
#[verifier::rlimit(40)]
pub proof fn law_status_line_shows_its_text(
    cols: usize,
    status: StatusView,
    metrics: CellMetrics,
    window_height: usize,
    i: int,
    n: int,
)
    requires
        line_width(status.mode_line) <= cols,
        12 + metrics.cell_height <= window_height,
        PADDING + cols * metrics.cell_width <= usize::MAX,
    ensures
        ({
            let steps = status_steps(cols, status, metrics, window_height);
            let y = window_height - 12 - metrics.cell_height;
            let line = status.prompt + status.content;
            let edge = cols - line_width(status.mode_line);
            &&& 0 <= i < line.len() && 0 <= n < grapheme_clusters(line[i].contents).len()
                && grapheme_clusters(line[i].contents)[n] != seq!['\n'] && is_visible(
                grapheme_clusters(line[i].contents)[n],
            ) && line_width(line.take(i)) + clusters_width(
                grapheme_clusters(line[i].contents).take(n),
            ) < edge ==> shows(
                steps,
                12 + (line_width(line.take(i)) + clusters_width(
                    grapheme_clusters(line[i].contents).take(n),
                )) * metrics.cell_width,
                y,
                grapheme_clusters(line[i].contents)[n],
                PaintView::Derived { base: status.default_face, face: line[i].face },
            )
            &&& 0 <= i < status.mode_line.len() && 0 <= n < grapheme_clusters(
                status.mode_line[i].contents,
            ).len() && grapheme_clusters(status.mode_line[i].contents)[n] != seq!['\n']
                && is_visible(grapheme_clusters(status.mode_line[i].contents)[n]) && edge
                + line_width(status.mode_line.take(i)) + clusters_width(
                grapheme_clusters(status.mode_line[i].contents).take(n),
            ) < cols ==> shows(
                steps,
                12 + (edge + line_width(status.mode_line.take(i)) + clusters_width(
                    grapheme_clusters(status.mode_line[i].contents).take(n),
                )) * metrics.cell_width,
                y,
                grapheme_clusters(status.mode_line[i].contents)[n],
                PaintView::Derived { base: status.default_face, face: status.mode_line[i].face },
            )
        }),
{
    let top = overlay_top(window_height, metrics.cell_height, 1);
    assert(metrics.cell_height * 1 == metrics.cell_height);
    let y = top as int;
    let line = status.prompt + status.content;
    let edge = (cols - line_width(status.mode_line)) as nat;
    let ground = seq![segment_step(0, cols as nat, status.default_face, metrics, top)];
    let left = line_steps(line, status.default_face, 0, edge, top, metrics);
    let right = line_steps(
        status.mode_line,
        status.default_face,
        edge,
        cols as nat,
        top,
        metrics,
    );
    let w = metrics.cell_width as int;
    assert(edge * w <= cols * w) by (nonlinear_arith)
        requires
            0 <= edge <= cols,
            w >= 0,
    ;
    if 0 <= i < line.len() {
        let clusters = grapheme_clusters(line[i].contents);
        let at = line_width(line.take(i)) + clusters_width(clusters.take(n));
        let paint = PaintView::Derived { base: status.default_face, face: line[i].face };
        if 0 <= n < clusters.len() && clusters[n] != seq!['\n'] && is_visible(clusters[n]) && at
            < edge {
            let x = cell_left(at, metrics);
            law_line_shows_its_text(line, status.default_face, 0, edge, top, metrics, i, n);
            lemma_shown_after(ground, left, x, y, clusters[n], paint);
            assert(at * w <= edge * w && (w > 0 ==> at * w < edge * w)) by (nonlinear_arith)
                requires
                    0 <= at < edge,
                    w >= 0,
            ;
            lemma_line_leaves_left(
                status.mode_line,
                status.default_face,
                edge,
                cols as nat,
                top,
                metrics,
                x,
                y,
            );
            lemma_shown_before(ground + left, right, x, y, clusters[n], paint);
        }
    }
    if 0 <= i < status.mode_line.len() {
        let clusters = grapheme_clusters(status.mode_line[i].contents);
        let at = edge + line_width(status.mode_line.take(i)) + clusters_width(clusters.take(n));
        let paint = PaintView::Derived {
            base: status.default_face,
            face: status.mode_line[i].face,
        };
        if 0 <= n < clusters.len() && clusters[n] != seq!['\n'] && is_visible(clusters[n]) && at
            < cols {
            let x = cell_left(at, metrics);
            law_line_shows_its_text(
                status.mode_line,
                status.default_face,
                edge,
                cols as nat,
                top,
                metrics,
                i,
                n,
            );
            lemma_shown_after(ground + left, right, x, y, clusters[n], paint);
        }
    }
}

/// A line paints over nothing left of it, however narrow the cells are.
proof fn lemma_line_leaves_left(
    line: Seq<AtomView>,
    base: FaceView,
    column: nat,
    limit: nat,
    top: usize,
    metrics: CellMetrics,
    x: int,
    y: int,
)
    requires
        column <= limit,
        PADDING + limit * metrics.cell_width <= usize::MAX,
        x < cell_left(column, metrics) || metrics.cell_width == 0,
    ensures
        leaves(line_steps(line, base, column, limit, top, metrics), x, y),
{
    if metrics.cell_width == 0 {
        assert(column * 0 == 0 && limit * 0 == 0) by (nonlinear_arith);
        if x < PADDING {
            lemma_line_leaves(line, base, column, limit, top, metrics, x, y);
        } else {
            assert(x >= cell_left(limit, metrics));
            lemma_line_leaves(line, base, column, limit, top, metrics, x, y);
        }
    } else {
        lemma_line_leaves(line, base, column, limit, top, metrics, x, y);
    }
}

/// The status line is as wide as the grid: its cells between the content and the
/// mode line are left in its default face, and nothing outside its row is painted.
#[verifier::rlimit(40)]
pub proof fn law_status_line_fills_its_row(
    cols: usize,
    status: StatusView,
    metrics: CellMetrics,
    window_height: usize,
    cell: nat,
    x: int,
    y: int,
)
    requires
        12 + metrics.cell_height <= window_height,
        PADDING + cols * metrics.cell_width <= usize::MAX,
    ensures
        line_width(status.prompt) + line_width(status.content) <= cell && cell + line_width(
            status.mode_line,
        ) < cols && metrics.cell_width > 0 && metrics.cell_height > 0 ==> has_ground(
            status_steps(cols, status, metrics, window_height),
            12 + cell * metrics.cell_width,
            window_height - 12 - metrics.cell_height,
            PaintView::Root { face: status.default_face },
        ),
        y < window_height - 12 - metrics.cell_height || y >= window_height - 12 || x < 12 || x >= 12
            + cols * metrics.cell_width ==> leaves(
            status_steps(cols, status, metrics, window_height),
            x,
            y,
        ),
{
    let top = overlay_top(window_height, metrics.cell_height, 1);
    assert(metrics.cell_height * 1 == metrics.cell_height);
    let line = status.prompt + status.content;
    let edge = mode_start(cols, status.mode_line);
    let ground = seq![segment_step(0, cols as nat, status.default_face, metrics, top)];
    let left = line_steps(line, status.default_face, 0, edge, top, metrics);
    let right = line_steps(
        status.mode_line,
        status.default_face,
        edge,
        cols as nat,
        top,
        metrics,
    );
    let w = metrics.cell_width as int;
    let paint = PaintView::Root { face: status.default_face };
    assert(0 <= edge * w <= cols * w) by (nonlinear_arith)
        requires
            0 <= edge <= cols,
            w >= 0,
    ;
    crate::text::lemma_line_widths_add(status.prompt, status.content);
    if line_width(status.prompt) + line_width(status.content) <= cell && cell + line_width(
        status.mode_line,
    ) < cols && metrics.cell_width > 0 && metrics.cell_height > 0 {
        let cx = cell_left(cell, metrics);
        let cy = top as int;
        lemma_segment(0, cols as nat, status.default_face, metrics, top, cell, cx, cy);
        lemma_line_ends(line, status.default_face, 0, edge, top, metrics, cell);
        lemma_shown_before(ground, left, cx, cy, Seq::empty(), paint);
        assert(cell * w < edge * w) by (nonlinear_arith)
            requires
                0 <= cell < edge,
                w > 0,
        ;
        lemma_line_leaves(
            status.mode_line,
            status.default_face,
            edge,
            cols as nat,
            top,
            metrics,
            cx,
            cy,
        );
        lemma_shown_before(ground + left, right, cx, cy, Seq::empty(), paint);
    }
    if y < window_height - 12 - metrics.cell_height || y >= window_height - 12 || x < 12 || x >= 12
        + cols * metrics.cell_width {
        lemma_segment(0, cols as nat, status.default_face, metrics, top, 0, x, y);
        lemma_line_leaves(line, status.default_face, 0, edge, top, metrics, x, y);
        lemma_line_leaves(
            status.mode_line,
            status.default_face,
            edge,
            cols as nat,
            top,
            metrics,
            x,
            y,
        );
        lemma_shown_before(ground, left, x, y, Seq::empty(), paint);
        lemma_shown_before(ground + left, right, x, y, Seq::empty(), paint);
    }
}

/// The title is written once, in the default face, in the middle of the bar above
/// the grid; the whole title where it fits between the borders. Without such a bar,
/// and without a title, nothing is written.
pub proof fn law_title_stands_in_the_bar(
    title: Seq<char>,
    face: FaceView,
    metrics: CellMetrics,
    layout: LayoutMetrics,
    window_width: usize,
)
    requires
        metrics.cell_width > 0,
        metrics.cell_height <= layout.top_padding,
    ensures
        title_steps(title, face, metrics, layout, window_width, false) == Seq::<
            DrawStepView,
        >::empty(),
        title_steps(Seq::empty(), face, metrics, layout, window_width, true) == Seq::<
            DrawStepView,
        >::empty(),
        layout.top_padding <= 12 ==> title_steps(title, face, metrics, layout, window_width, true)
            == Seq::<DrawStepView>::empty(),
        ({
            let steps = title_steps(title, face, metrics, layout, window_width, true);
            steps.len() > 0 ==> steps.len() == 1 && (steps[0] matches DrawStepView::Title {
                top,
                text,
                paint,
            } && paint == (PaintView::Root { face }) && (layout.top_padding - metrics.cell_height
                == 2 * top || layout.top_padding - metrics.cell_height == 2 * top + 1) && text
                == cut_title(title, (less(window_width as int, 24) / (metrics.cell_width as nat))))
        }),
        ({
            let room = less(window_width as int, 24) / (metrics.cell_width as nat);
            layout.top_padding > 12 && cut_title(title, room).len() > 0 && title.len() > 0
                ==> title_steps(title, face, metrics, layout, window_width, true).len() == 1
        }),
{
}

/// The characters that only join or vary others are the joiner and the sixteen
/// selectors, and none of them counts among emoji and dingbats.
pub proof fn law_joiners_are_no_emoji(c: char)
    ensures
        is_joiner(c) <==> c as u32 == 8205 || 65024 <= c as u32 <= 65039,
        is_joiner(c) ==> !in_emoji_blocks(c),
        in_emoji_blocks(c) <==> 9728 <= c as u32 <= 10175 || 126976 <= c as u32 <= 129791,
{
}

/// The font of the settings is tried before any other, and no font is tried in its
/// place.
pub proof fn law_own_font_is_tried_first(configured: Seq<char>)
    ensures
        families(configured)[0] == configured,
        families(configured).len() == 6,
        families(configured).skip(1) == seq![
            "SF Mono"@,
            "Menlo"@,
            "Monaco"@,
            "JetBrains Mono"@,
            "Courier New"@,
        ],
{
    assert(families(configured).skip(1) =~= seq![
        "SF Mono"@,
        "Menlo"@,
        "Monaco"@,
        "JetBrains Mono"@,
        "Courier New"@,
    ]);
}

} // verus!
