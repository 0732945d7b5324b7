use firework::{CanvasSize, Vec2};

const SIZE: CanvasSize = CanvasSize { width: 80, height: 24 };

fn cell(x: i64, y: i64) -> Option<(u32, u32)> {
    SIZE.to_col_and_row(&Vec2(x, y)).map(|c| (c.0, c.1))
}

#[test]
fn physical_extent_of_the_canvas() {
    assert_eq!(SIZE.phy_width(), 40000);
    assert_eq!(SIZE.phy_height(), 24000);
}

#[test]
fn x_boundaries_drop_or_keep_exactly() {
    // a physical x that rounds to the column one past the edge is dropped
    assert_eq!(cell(39750, 12000), None);
    // the last column on the canvas is kept
    assert_eq!(cell(39749, 12000), Some((79, 12)));
    // x rounding to a negative column is dropped, rounding to zero is kept
    assert_eq!(cell(-250, 12000), None);
    assert_eq!(cell(-249, 12000), Some((0, 12)));
    assert_eq!(cell(0, 12000), Some((0, 12)));
}

#[test]
fn y_axis_is_flipped_and_bounded() {
    // the physical floor maps one past the bottom row and is dropped
    assert_eq!(cell(1000, 0), None);
    assert_eq!(cell(1000, 1000), Some((2, 23)));
    // the physical ceiling maps to the top row
    assert_eq!(cell(1000, 23500), Some((2, 0)));
    assert_eq!(cell(1000, 24000), Some((2, 0)));
    // above the ceiling the row would be negative
    assert_eq!(cell(1000, 24500), None);
}

#[test]
fn x_is_stretched_twofold() {
    assert_eq!(cell(10000, 12000), Some((20, 12)));
    assert_eq!(cell(10250, 12000), Some((21, 12)));
}

#[test]
fn degenerate_canvas_has_no_cells() {
    let tiny = CanvasSize { width: 0, height: 0 };
    assert!(tiny.to_col_and_row(&Vec2(0, 0)).is_none());
}
