//! Tests of the wall-type classifier: single rules, the boundary rule, and
//! the fully enclosed interior.

use tile_sdf::grid::Cell;
use tile_sdf::grid::MapGrid;
use tile_sdf::tiles::determine_wall_type;
use tile_sdf::tiles::WallTile;

/// Builds a grid from rows of text, bottom row first.
fn grid_of(rows_bottom_up: &[&str]) -> MapGrid {
    let rows = rows_bottom_up
        .iter()
        .map(|line| {
            line.bytes()
                .map(|b| if b == b'#' { Cell::Wall } else { Cell::Floor })
                .collect()
        })
        .collect();
    MapGrid { rows }
}

/// An all-wall grid of the given size.
fn all_wall(width: usize, height: usize) -> MapGrid {
    MapGrid {
        rows: vec![vec![Cell::Wall; width]; height],
    }
}

#[test]
fn fully_enclosed_cell_is_ceiling() {
    let g = all_wall(5, 5);
    assert_eq!(determine_wall_type(&g, 2, 2), WallTile::Ceiling);
}

#[test]
fn interior_of_solid_map_is_ceiling_everywhere() {
    let g = all_wall(6, 5);
    for y in 1..4 {
        for x in 1..5 {
            assert_eq!(determine_wall_type(&g, x, y), WallTile::Ceiling);
        }
    }
}

#[test]
fn floor_two_below_right_is_bottom_cross_edge_right() {
    let mut g = all_wall(5, 5);
    g.rows[1][3] = Cell::Floor; // two below and right of (2, 3)
    assert_eq!(
        determine_wall_type(&g, 2, 3),
        WallTile::BottomCrossEdgeRight
    );
}

#[test]
fn floor_two_below_left_is_bottom_cross_edge_left() {
    let mut g = all_wall(5, 5);
    g.rows[1][1] = Cell::Floor;
    assert_eq!(determine_wall_type(&g, 2, 3), WallTile::BottomCrossEdgeLeft);
}

#[test]
fn floor_top_right_is_top_cross_edge_right() {
    let mut g = all_wall(5, 5);
    g.rows[4][3] = Cell::Floor; // above and right of (2, 3)
    assert_eq!(determine_wall_type(&g, 2, 3), WallTile::TopCrossEdgeRight);
}

#[test]
fn floor_top_left_is_top_cross_edge_left() {
    let mut g = all_wall(5, 5);
    g.rows[4][1] = Cell::Floor;
    assert_eq!(determine_wall_type(&g, 2, 3), WallTile::TopCrossEdgeLeft);
}

#[test]
fn floor_bottom_right_is_wall_right() {
    let mut g = all_wall(5, 5);
    g.rows[2][3] = Cell::Floor; // below and right of (2, 3)
    assert_eq!(determine_wall_type(&g, 2, 3), WallTile::WallRight);
}

#[test]
fn floor_bottom_left_is_wall_left() {
    let mut g = all_wall(5, 5);
    g.rows[2][1] = Cell::Floor;
    assert_eq!(determine_wall_type(&g, 2, 3), WallTile::WallLeft);
}

#[test]
fn open_above_and_below_is_unclassified() {
    let mut g = all_wall(5, 5);
    g.rows[3][2] = Cell::Floor; // above (2, 2)
    g.rows[1][2] = Cell::Floor; // below (2, 2)
    assert_eq!(determine_wall_type(&g, 2, 2), WallTile::Unclassified);
}

#[test]
fn floor_to_the_left_of_span_is_wall_left() {
    // above, below, right walls; left floor; two-below wall.
    let g = grid_of(&["#####", "#####", "##.##", "#####", "#####"]);
    assert_eq!(determine_wall_type(&g, 3, 2), WallTile::WallLeft);
}

#[test]
fn floor_to_the_right_of_span_is_wall_right() {
    let g = grid_of(&["#####", "#####", "##.##", "#####", "#####"]);
    assert_eq!(determine_wall_type(&g, 1, 2), WallTile::WallRight);
}

#[test]
fn boundary_counts_as_wall() {
    // Every cell of a map classifies exactly as the matching cell of the
    // same map embedded in a ring of actual wall cells: one column on each
    // side, one row above, two rows below.
    let inner = grid_of(&["#.#", "###", ".#."]);
    let padded = grid_of(&["#####", "#####", "##.##", "#####", "#.#.#", "#####"]);
    for y in 0..3 {
        for x in 0..3 {
            if inner.rows[y][x] == Cell::Wall {
                assert_eq!(
                    determine_wall_type(&inner, x, y),
                    determine_wall_type(&padded, x + 1, y + 2),
                    "cell ({}, {})",
                    x,
                    y
                );
            }
        }
    }
}

#[test]
fn single_cell_map_is_ceiling() {
    let g = all_wall(1, 1);
    assert_eq!(determine_wall_type(&g, 0, 0), WallTile::Ceiling);
}
