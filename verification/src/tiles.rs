//! Wall-tile classification.
//!
//! A wall cell is resolved to one of the wall-tile variants by an ordered
//! decision list over 11 neighbor observations.  Each observation is a
//! boolean: `true` when the neighboring position holds a wall *or lies
//! outside the grid* (bounds count as wall), `false` when it holds a floor
//! cell.  The first matching rule of the list wins; a neighborhood that no
//! rule matches resolves to the explicit [`WallTile::Unclassified`] marker,
//! which signals a map-authoring inconsistency rather than a crash.

use vstd::prelude::*;

use crate::grid::Cell;
use crate::grid::MapGrid;
use crate::grid::spec_grid_width;

verus! {

/// The visual role of one wall cell, as the classifier assigns it.
#[derive(Clone, Copy, Debug, PartialEq, Eq, Structural)]
pub enum WallTile {
    Ceiling,
    BottomCrossEdgeRight,
    BottomCrossEdgeLeft,
    TopCrossEdgeRight,
    TopCrossEdgeLeft,
    WallRight,
    WallLeft,
    BottomEdgeLeftTop,
    BottomEdgeRightTop,
    BottomEdgeLeftBottom,
    BottomEdgeRightBottom,
    BottomMidBottom,
    BottomMidTop,
    TopEdgeLeft,
    TopEdgeRight,
    TopMid,
    /// No rule of the decision list matched: a placeholder the renderer can
    /// surface instead of guessing a plausible-looking wall.
    Unclassified,
}

/// The tile assigned to one grid cell: a classified wall, or one of the
/// interchangeable cosmetic floor variants (an index below
/// [`crate::compile::FLOOR_VARIANTS`]).
#[derive(Clone, Copy, Debug, PartialEq, Eq, Structural)]
pub enum TileVariant {
    Wall(WallTile),
    Floor(u8),
}

/// The 11 neighbor observations around a wall cell at `(x, y)`.
///
/// Each field is `true` when the observed position is a wall or out of
/// bounds, `false` when it is a floor cell.  `above` is `y + 1`, `below` is
/// `y - 1`, `two_below` is `y - 2`; the diagonal fields combine the
/// horizontal and vertical offsets accordingly.
#[derive(Clone, Copy, Debug, PartialEq, Eq, Structural)]
pub struct Neighborhood {
    pub above: bool,
    pub below: bool,
    pub right: bool,
    pub left: bool,
    pub two_below: bool,
    pub top_right: bool,
    pub top_left: bool,
    pub bottom_right: bool,
    pub bottom_left: bool,
    pub two_below_right: bool,
    pub two_below_left: bool,
}

/// The ordered decision list: the first rule that matches the neighborhood
/// decides the wall tile.  More specific rules stand before the general
/// ones whose wildcard patterns contain them.
pub open spec fn wall_tile_of(n: Neighborhood) -> WallTile {
    let near_all_wall = n.above && n.below && n.right && n.left && n.two_below && n.top_right
        && n.top_left && n.bottom_right && n.bottom_left;
    if near_all_wall && n.two_below_right && n.two_below_left {
        WallTile::Ceiling
    } else if near_all_wall && !n.two_below_right && n.two_below_left {
        WallTile::BottomCrossEdgeRight
    } else if near_all_wall && n.two_below_right && !n.two_below_left {
        WallTile::BottomCrossEdgeLeft
    } else if n.above && n.below && n.right && n.left && n.two_below && !n.top_right && n.top_left
        && n.bottom_right && n.bottom_left {
        WallTile::TopCrossEdgeRight
    } else if n.above && n.below && n.right && n.left && n.two_below && n.top_right && !n.top_left
        && n.bottom_right && n.bottom_left {
        WallTile::TopCrossEdgeLeft
    } else if n.above && n.below && n.right && n.left && n.two_below && n.top_right && n.top_left
        && !n.bottom_right && n.bottom_left {
        WallTile::WallRight
    } else if n.above && n.below && n.right && n.left && n.two_below && n.top_right && n.top_left
        && n.bottom_right && !n.bottom_left {
        WallTile::WallLeft
    } else if n.above && n.below && n.right && n.left && !n.two_below && n.top_right && n.top_left
        && n.bottom_right && !n.bottom_left && !n.two_below_right && !n.two_below_left {
        WallTile::BottomEdgeLeftTop
    } else if n.above && n.below && n.right && n.left && !n.two_below && n.top_right && n.top_left
        && !n.bottom_right && n.bottom_left && !n.two_below_right && !n.two_below_left {
        WallTile::BottomEdgeRightTop
    } else if n.above && n.below && n.right && !n.left && !n.two_below {
        WallTile::BottomEdgeLeftTop
    } else if n.above && n.below && !n.right && n.left && n.two_below {
        WallTile::WallRight
    } else if n.above && n.below && n.right && !n.left && n.two_below {
        WallTile::WallLeft
    } else if !n.above && n.below && n.right && !n.left && n.two_below {
        WallTile::TopEdgeLeft
    } else if !n.above && n.below && !n.right && n.left && n.two_below {
        WallTile::TopEdgeRight
    } else if n.above && !n.below && n.right && !n.left {
        WallTile::BottomEdgeLeftBottom
    } else if n.above && n.below && !n.right && n.left {
        WallTile::BottomEdgeRightTop
    } else if n.above && !n.below && !n.right && n.left {
        WallTile::BottomEdgeRightBottom
    } else if n.above && !n.below && n.right && n.left {
        WallTile::BottomMidBottom
    } else if !n.above && n.below && n.right && n.left && n.two_below {
        WallTile::TopMid
    } else if n.below && n.right && n.left {
        WallTile::BottomMidTop
    } else if n.above && n.below {
        WallTile::WallRight
    } else {
        WallTile::Unclassified
    }
}

/// Runs the decision list on a sampled neighborhood.
pub fn classify_neighborhood(n: Neighborhood) -> (t: WallTile)
    ensures
        t == wall_tile_of(n),
{
    let near_all_wall = n.above && n.below && n.right && n.left && n.two_below && n.top_right
        && n.top_left && n.bottom_right && n.bottom_left;
    if near_all_wall && n.two_below_right && n.two_below_left {
        WallTile::Ceiling
    } else if near_all_wall && !n.two_below_right && n.two_below_left {
        WallTile::BottomCrossEdgeRight
    } else if near_all_wall && n.two_below_right && !n.two_below_left {
        WallTile::BottomCrossEdgeLeft
    } else if n.above && n.below && n.right && n.left && n.two_below && !n.top_right && n.top_left
        && n.bottom_right && n.bottom_left {
        WallTile::TopCrossEdgeRight
    } else if n.above && n.below && n.right && n.left && n.two_below && n.top_right && !n.top_left
        && n.bottom_right && n.bottom_left {
        WallTile::TopCrossEdgeLeft
    } else if n.above && n.below && n.right && n.left && n.two_below && n.top_right && n.top_left
        && !n.bottom_right && n.bottom_left {
        WallTile::WallRight
    } else if n.above && n.below && n.right && n.left && n.two_below && n.top_right && n.top_left
        && n.bottom_right && !n.bottom_left {
        WallTile::WallLeft
    } else if n.above && n.below && n.right && n.left && !n.two_below && n.top_right && n.top_left
        && n.bottom_right && !n.bottom_left && !n.two_below_right && !n.two_below_left {
        WallTile::BottomEdgeLeftTop
    } else if n.above && n.below && n.right && n.left && !n.two_below && n.top_right && n.top_left
        && !n.bottom_right && n.bottom_left && !n.two_below_right && !n.two_below_left {
        WallTile::BottomEdgeRightTop
    } else if n.above && n.below && n.right && !n.left && !n.two_below {
        WallTile::BottomEdgeLeftTop
    } else if n.above && n.below && !n.right && n.left && n.two_below {
        WallTile::WallRight
    } else if n.above && n.below && n.right && !n.left && n.two_below {
        WallTile::WallLeft
    } else if !n.above && n.below && n.right && !n.left && n.two_below {
        WallTile::TopEdgeLeft
    } else if !n.above && n.below && !n.right && n.left && n.two_below {
        WallTile::TopEdgeRight
    } else if n.above && !n.below && n.right && !n.left {
        WallTile::BottomEdgeLeftBottom
    } else if n.above && n.below && !n.right && n.left {
        WallTile::BottomEdgeRightTop
    } else if n.above && !n.below && !n.right && n.left {
        WallTile::BottomEdgeRightBottom
    } else if n.above && !n.below && n.right && n.left {
        WallTile::BottomMidBottom
    } else if !n.above && n.below && n.right && n.left && n.two_below {
        WallTile::TopMid
    } else if n.below && n.right && n.left {
        WallTile::BottomMidTop
    } else if n.above && n.below {
        WallTile::WallRight
    } else {
        WallTile::Unclassified
    }
}

/// One observation: `true` when `(x, y)` lies outside the grid or holds a
/// wall, `false` when it holds a floor cell.  A position past the end of a
/// shorter (ragged) row counts as outside.
pub open spec fn spec_obs(g: Seq<Seq<Cell>>, x: int, y: int) -> bool {
    !(0 <= y < g.len() && 0 <= x < g[y].len() && g[y][x] == Cell::Floor)
}

/// All 11 observations around `(x, y)`.
pub open spec fn spec_neighborhood(g: Seq<Seq<Cell>>, x: int, y: int) -> Neighborhood {
    Neighborhood {
        above: spec_obs(g, x, y + 1),
        below: spec_obs(g, x, y - 1),
        right: spec_obs(g, x + 1, y),
        left: spec_obs(g, x - 1, y),
        two_below: spec_obs(g, x, y - 2),
        top_right: spec_obs(g, x + 1, y + 1),
        top_left: spec_obs(g, x - 1, y + 1),
        bottom_right: spec_obs(g, x + 1, y - 1),
        bottom_left: spec_obs(g, x - 1, y - 1),
        two_below_right: spec_obs(g, x + 1, y - 2),
        two_below_left: spec_obs(g, x - 1, y - 2),
    }
}

/// The wall tile the decision list assigns to the cell at `(x, y)`.
pub open spec fn spec_wall_type(g: Seq<Seq<Cell>>, x: int, y: int) -> WallTile {
    wall_tile_of(spec_neighborhood(g, x, y))
}

/// Samples one observation of the grid.
fn obs_at(grid: &MapGrid, x: usize, y: usize) -> (r: bool)
    ensures
        r == spec_obs(grid@, x as int, y as int),
{
    if y < grid.rows.len() && x < grid.rows[y].len() {
        grid.rows[y][x] == Cell::Wall
    } else {
        true
    }
}

/// Samples the 11 neighbor observations around the cell at `(x, y)`.
pub fn neighborhood_at(grid: &MapGrid, x: usize, y: usize) -> (n: Neighborhood)
    requires
        y < grid@.len(),
        x < grid@[y as int].len(),
    ensures
        n == spec_neighborhood(grid@, x as int, y as int),
{
    // Materializing the exec lengths lets the offsets below add one without
    // leaving the machine's range.
    let _height = grid.rows.len();
    let _row_len = grid.rows[y].len();
    Neighborhood {
        above: obs_at(grid, x, y + 1),
        below: if y == 0 { true } else { obs_at(grid, x, y - 1) },
        right: obs_at(grid, x + 1, y),
        left: if x == 0 { true } else { obs_at(grid, x - 1, y) },
        two_below: if y < 2 { true } else { obs_at(grid, x, y - 2) },
        top_right: obs_at(grid, x + 1, y + 1),
        top_left: if x == 0 { true } else { obs_at(grid, x - 1, y + 1) },
        bottom_right: if y == 0 { true } else { obs_at(grid, x + 1, y - 1) },
        bottom_left: if x == 0 || y == 0 { true } else { obs_at(grid, x - 1, y - 1) },
        two_below_right: if y < 2 { true } else { obs_at(grid, x + 1, y - 2) },
        two_below_left: if x == 0 || y < 2 { true } else { obs_at(grid, x - 1, y - 2) },
    }
}

/// In a rectangular map made entirely of wall cells, every interior cell -
/// one that does not touch the map boundary - classifies as the fully
/// enclosed ceiling tile.
pub proof fn lemma_interior_all_wall_is_ceiling(g: Seq<Seq<Cell>>, x: int, y: int)
    requires
        forall|yy: int| 0 <= yy < g.len() ==> g[yy].len() == spec_grid_width(g),
        forall|yy: int, xx: int|
            0 <= yy < g.len() && 0 <= xx < g[yy].len() ==> g[yy][xx] == Cell::Wall,
        1 <= x < spec_grid_width(g) - 1,
        1 <= y < g.len() - 1,
    ensures
        spec_wall_type(g, x, y) == WallTile::Ceiling,
{
    let n = spec_neighborhood(g, x, y);
    assert(n.above && n.below && n.right && n.left && n.two_below && n.top_right && n.top_left
        && n.bottom_right && n.bottom_left && n.two_below_right && n.two_below_left);
}

/// A grid embedded in a ring of actual wall cells: one column added on each
/// side, one row above, and two rows below, since the classifier looks two
/// cells down.
pub open spec fn spec_pad_walls(g: Seq<Seq<Cell>>) -> Seq<Seq<Cell>> {
    let w = spec_grid_width(g);
    Seq::new(
        g.len() + 3,
        |y: int|
            if y < 2 || y == g.len() + 2 {
                Seq::new((w + 2) as nat, |x: int| Cell::Wall)
            } else {
                seq![Cell::Wall] + g[y - 2] + seq![Cell::Wall]
            },
    )
}

/// One observation is unchanged by the wall padding: a position that was
/// out of bounds now reads an actual wall cell, and both count as wall.
proof fn lemma_pad_obs(g: Seq<Seq<Cell>>, x: int, y: int)
    ensures
        spec_obs(spec_pad_walls(g), x + 1, y + 2) == spec_obs(g, x, y),
{
    let pg = spec_pad_walls(g);
    crate::grid::lemma_grid_width_bounds(g, g.len() as int);
    if 0 <= y < g.len() {
        let row = pg[y + 2];
        assert(row == seq![Cell::Wall] + g[y] + seq![Cell::Wall]);
        if 0 <= x < g[y].len() {
            assert(row[x + 1] == g[y][x]);
        } else if x == -1 {
            assert(row[0] == Cell::Wall);
        } else if x == g[y].len() {
            assert(row[x + 1] == Cell::Wall);
        }
    }
}

/// Boundary rule: a cell whose out-of-bounds neighbors are read as wall
/// observes exactly the neighborhood it would observe one ring further
/// inside a grid padded with actual wall cells, so it classifies the same.
pub proof fn lemma_boundary_as_wall(g: Seq<Seq<Cell>>, x: int, y: int)
    ensures
        spec_neighborhood(spec_pad_walls(g), x + 1, y + 2) == spec_neighborhood(g, x, y),
        spec_wall_type(spec_pad_walls(g), x + 1, y + 2) == spec_wall_type(g, x, y),
{
    lemma_pad_obs(g, x, y + 1);
    lemma_pad_obs(g, x, y - 1);
    lemma_pad_obs(g, x + 1, y);
    lemma_pad_obs(g, x - 1, y);
    lemma_pad_obs(g, x, y - 2);
    lemma_pad_obs(g, x + 1, y + 1);
    lemma_pad_obs(g, x - 1, y + 1);
    lemma_pad_obs(g, x + 1, y - 1);
    lemma_pad_obs(g, x - 1, y - 1);
    lemma_pad_obs(g, x + 1, y - 2);
    lemma_pad_obs(g, x - 1, y - 2);
}

/// Classifies the wall cell at `(x, y)`: samples its neighborhood and runs
/// the decision list on it.
pub fn determine_wall_type(grid: &MapGrid, x: usize, y: usize) -> (t: WallTile)
    requires
        y < grid@.len(),
        x < grid@[y as int].len(),
    ensures
        t == spec_wall_type(grid@, x as int, y as int),
{
    classify_neighborhood(neighborhood_at(grid, x, y))
}

} // verus!
