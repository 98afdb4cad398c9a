use kakvide::layout::{
    bottom_overlay_top, content_top_padding, layout_metrics, layout_rows, row_top, CellMetrics,
    LayoutMetrics, PADDING,
};

/// The height of the menu bar at a scale factor.
fn inset(scale_factor: f64) -> usize {
    (24.0 * scale_factor).round() as usize
}

#[test]
fn transparent_menubar_uses_fixed_point_top_inset() {
    assert_eq!(content_top_padding(inset(1.0), false), PADDING);
    assert_eq!(content_top_padding(inset(1.0), true), PADDING + 24);
    assert_eq!(content_top_padding(inset(2.0), true), PADDING + 48);
}

#[test]
fn transparent_menubar_reduces_available_rows_by_fixed_inset() {
    let height = PADDING * 2 + 10 * 18;
    assert_eq!(layout_rows(height, 18, false, inset(1.0)), 10);
    assert_eq!(layout_rows(height, 18, true, inset(1.0)), 8);
}

#[test]
fn bottom_overlay_top_stays_anchored_to_bottom_padding() {
    assert_eq!(bottom_overlay_top(240, 18, 1), 210);
    assert_eq!(bottom_overlay_top(240, 24, 1), 204);
    assert_eq!(bottom_overlay_top(240, 18, 3), 174);
}

#[test]
fn overlay_that_does_not_fit_stands_at_the_upper_edge() {
    assert_eq!(bottom_overlay_top(20, 18, 1), 0);
    assert_eq!(bottom_overlay_top(usize::MAX, usize::MAX, 2), 0);
}

#[test]
fn grid_takes_the_whole_cells_between_the_borders() {
    let metrics = CellMetrics { cell_width: 8, cell_height: 18 };
    let layout = layout_metrics(24 + 8 * 10 + 7, 24 + 18 * 4 + 17, &metrics, false, 0);
    assert_eq!(layout, LayoutMetrics { top_padding: 12, cols: 10, rows: 4 });
}

#[test]
fn grid_has_one_row_at_least() {
    let metrics = CellMetrics { cell_width: 0, cell_height: 0 };
    let layout = layout_metrics(1, 1, &metrics, true, 24);
    assert_eq!(layout, LayoutMetrics { top_padding: 36, cols: 0, rows: 1 });
}

#[test]
fn rows_follow_each_other() {
    let metrics = CellMetrics { cell_width: 8, cell_height: 18 };
    assert_eq!(row_top(0, &metrics, 36), 36);
    assert_eq!(row_top(3, &metrics, 36), 90);
    assert_eq!(row_top(usize::MAX, &metrics, 36), usize::MAX);
}
